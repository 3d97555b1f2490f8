//! The blocks of one statement, and what comes out of them.
use crate::collections::{
    contains_key, copy_vec, has_key, keys, lemma_filter_member, lemma_filter_take,
    lemma_unique_keys, unique_keys, OrderedMap,
};
use crate::ids::{BlockId, TypeId, VarId, VariableId};
use crate::lowering::context::{grew, BlockScopeEnd, LivingVar, LoweringContext};
use crate::lowering::generators::BlockEndInfo;
use crate::lowering::keeps::{lemma_ctx_ok_push, lemma_later};
use crate::lowering::model::{
    alive_everywhere, alive_in, alive_pairs, arm_of, arm_ok, block_end, block_ok, bring_back_test,
    callee_ok, ctx_ok, emptied, end_ok, entries_ok, extends, finalized, finalized_ok, fits,
    has_output, implicit_changed, implicit_everywhere, implicit_outputs, implicit_push_test,
    implicit_pushes_of, known, merger_of, merger_ok, merger_with, new_vars, next_block,
    output_everywhere, output_tys, root_merger, scope_ok, sealed_of, sealed_ok, subscope_of,
    types_of_vars, unchanged_test, untouched_everywhere, var_ok, var_outputs, var_push_test,
    var_pushes_of, vars_ok, with_block, with_extra, ArmModel, CtxModel, FinalizedModel, MergerModel,
    ScopeEndModel, ScopeModel, SealedModel, SemanticVariableEntry,
};
use crate::lowering::objects::{StructuredBlock, StructuredBlockEnd, StructuredStatement};
use crate::lowering::scope::{lemma_alive_ok, lemma_implicit_ok, statement_models, BlockScope};
use vstd::prelude::*;

verus! {

/// What a block that comes back leaves behind.
#[derive(Debug)]
pub struct ArmEnd {
    pub implicits: OrderedMap<TypeId, LivingVar>,
    pub changed_implicits: Vec<TypeId>,
    pub semantic_variables: OrderedMap<VarId, SemanticVariableEntry>,
    pub output: Option<LivingVar>,
}

impl View for ArmEnd {
    type V = ArmModel;

    open spec fn view(&self) -> ArmModel {
        ArmModel {
            implicits: self.implicits@,
            changed: self.changed_implicits@,
            vars: self.semantic_variables@,
            output: self.output,
        }
    }
}

/// The blocks of one statement: what each of them starts with, and what those that came back left
/// behind.
#[derive(Debug)]
pub struct BlockFlowMerger {
    pub implicits: OrderedMap<TypeId, LivingVar>,
    pub semantic_variables: OrderedMap<VarId, SemanticVariableEntry>,
    pub arms: Vec<ArmEnd>,
}

/// The counterparts of arms.
pub open spec fn arm_models(arms: Seq<ArmEnd>) -> Seq<ArmModel> {
    arms.map_values(|a: ArmEnd| a@)
}

impl View for BlockFlowMerger {
    type V = MergerModel;

    open spec fn view(&self) -> MergerModel {
        MergerModel {
            implicits: self.implicits@,
            vars: self.semantic_variables@,
            arms: arm_models(self.arms@),
        }
    }
}

/// A block whose statements are all there, but not its outputs.
#[derive(Debug)]
pub struct BlockSealed {
    pub inputs: Vec<VariableId>,
    pub initial_refs: Vec<(TypeId, VariableId)>,
    pub statements: Vec<StructuredStatement>,
    pub implicits: OrderedMap<TypeId, LivingVar>,
    pub semantic_variables: OrderedMap<VarId, SemanticVariableEntry>,
    pub end: BlockScopeEnd,
}

impl View for BlockSealed {
    type V = SealedModel;

    open spec fn view(&self) -> SealedModel {
        SealedModel {
            inputs: self.inputs@,
            initial_refs: self.initial_refs@,
            statements: statement_models(self.statements@),
            implicits: self.implicits@,
            vars: self.semantic_variables@,
            end: self.end@,
        }
    }
}

/// What becomes of the implicits outside the blocks.
#[derive(Debug)]
pub struct OuterImplicitInfo {
    /// Those that come out with a new value.
    pub pushes: Vec<TypeId>,
    /// Those that come out as they were.
    pub unchanged: Vec<(TypeId, LivingVar)>,
}

/// What becomes of the variables of the source outside the blocks.
#[derive(Debug)]
pub struct OuterVarInfo {
    /// Those that come out with a new value.
    pub pushes: Vec<VarId>,
    /// Those that come out as they were.
    pub bring_back: Vec<(VarId, LivingVar)>,
}

/// What comes out of the blocks of one statement.
#[derive(Debug)]
pub struct BlockMergerFinalized {
    pub end_info: BlockEndInfo,
    pub outer_implicit_info: OuterImplicitInfo,
    pub outer_var_info: OuterVarInfo,
}

impl View for BlockMergerFinalized {
    type V = FinalizedModel;

    open spec fn view(&self) -> FinalizedModel {
        FinalizedModel {
            info: self.end_info@,
            implicit_pushes: self.outer_implicit_info.pushes@,
            unchanged: self.outer_implicit_info.unchanged@,
            var_pushes: self.outer_var_info.pushes@,
            bring_back: self.outer_var_info.bring_back@,
        }
    }
}

proof fn lemma_extra_ok(
    c: CtxModel,
    vars: Seq<(VarId, SemanticVariableEntry)>,
    extra: Seq<VarId>,
    i: int,
)
    requires
        entries_ok(c, vars),
        unique_keys(vars),
        0 <= i,
    ensures
        entries_ok(c, with_extra(vars, extra, i)),
        unique_keys(with_extra(vars, extra, i)),
    decreases extra.len() - i,
{
    if i < extra.len() {
        lemma_unique_keys(vars, extra[i], SemanticVariableEntry::Moved);
        if has_key(vars, extra[i]) {
            lemma_extra_ok(c, vars, extra, i + 1);
        } else {
            lemma_extra_ok(
                c,
                vars.push((extra[i], SemanticVariableEntry::Moved)),
                extra,
                i + 1,
            );
        }
    }
}

/// A later arm does not hide an earlier one.
pub proof fn lemma_known_later(m: MergerModel, scope: ScopeModel, end: ScopeEndModel)
    ensures
        known(merger_with(m, scope, end), sealed_of(scope, end)),
        forall|s: SealedModel| known(m, s) ==> #[trigger] known(merger_with(m, scope, end), s),
{
    let m1 = merger_with(m, scope, end);
    assert forall|s: SealedModel| known(m, s) implies #[trigger] known(m1, s) by {
        match s.end {
            ScopeEndModel::Callsite(output) => {
                let i = choose|i: int|
                    0 <= i < m.arms.len() && (#[trigger] m.arms[i]).implicits == s.implicits
                        && m.arms[i].vars == s.vars && m.arms[i].output == output;
                assert(m1.arms[i] == m.arms[i]);
            },
            _ => {},
        }
    }
    match end {
        ScopeEndModel::Callsite(output) => {
            assert(m1.arms[m.arms.len() as int] == arm_of(scope, output));
        },
        _ => {},
    }
}

/// What a merger knows of has everything that comes out of it.
proof fn lemma_known_fits(c: CtxModel, m: MergerModel)
    ensures
        forall|s: SealedModel| known(m, s) ==> #[trigger] fits(finalized(c, m), s),
{
    let f = finalized(c, m);
    assert forall|s: SealedModel| known(m, s) implies #[trigger] fits(f, s) by {
        match s.end {
            ScopeEndModel::Callsite(output) => {
                let k = choose|i: int|
                    0 <= i < m.arms.len() && (#[trigger] m.arms[i]).implicits == s.implicits
                        && m.arms[i].vars == s.vars && m.arms[i].output == output;
                assert forall|i: int| 0 <= i < f.implicit_pushes.len() implies has_key(
                    s.implicits,
                    #[trigger] f.implicit_pushes[i],
                ) by {
                    lemma_filter_member(m.implicits, implicit_push_test(m.arms), i);
                    assert(has_key(m.arms[k].implicits, f.implicit_pushes[i]));
                }
                assert forall|i: int| 0 <= i < f.var_pushes.len() implies alive_in(
                    s.vars,
                    #[trigger] f.var_pushes[i],
                ) is Some by {
                    lemma_filter_member(m.vars, var_push_test(m.arms), i);
                    assert(alive_in(m.arms[k].vars, f.var_pushes[i]) is Some);
                }
                if has_output(f) {
                    assert(m.arms[k].output is Some);
                }
            },
            _ => {},
        }
    }
}

impl BlockFlowMerger {
    /// Starts the blocks of a statement of the scope. They take over what the scope has;
    /// `extra_outputs` are variables of the source that each of them gives a value.
    pub fn with(scope: &mut BlockScope, extra_outputs: &Vec<VarId>) -> (r: Self)
        ensures
            r@ == merger_of(old(scope)@, extra_outputs@),
            final(scope)@ == emptied(old(scope)@),
            forall|c: CtxModel| scope_ok(c, old(scope)@) ==> #[trigger] scope_ok(c, final(scope)@),
            forall|c: CtxModel| scope_ok(c, old(scope)@) ==> #[trigger] merger_ok(c, r@),
    {
        let implicits = scope.implicits.copied();
        let mut vars = scope.semantic_variables.copied();
        let mut i: usize = 0;
        while i < extra_outputs.len()
            invariant
                i <= extra_outputs@.len(),
                with_extra(scope@.vars, extra_outputs@, 0) == with_extra(
                    vars@,
                    extra_outputs@,
                    i as int,
                ),
            decreases extra_outputs@.len() - i,
        {
            let known = vars.get(extra_outputs[i]);
            if known.is_none() {
                vars.put(extra_outputs[i], SemanticVariableEntry::Moved);
            }
            i += 1;
        }
        scope.implicits = OrderedMap::new();
        let mut moved: Vec<(VarId, SemanticVariableEntry)> = Vec::new();
        let mut j: usize = 0;
        while j < scope.semantic_variables.entries.len()
            invariant
                j <= scope.semantic_variables@.len(),
                moved@ == scope.semantic_variables@.take(j as int).map_values(
                    |p: (VarId, SemanticVariableEntry)| (p.0, SemanticVariableEntry::Moved),
                ),
            decreases scope.semantic_variables@.len() - j,
        {
            moved.push((scope.semantic_variables.entries[j].0, SemanticVariableEntry::Moved));
            j += 1;
            assert(moved@ =~= scope.semantic_variables@.take(j as int).map_values(
                |p: (VarId, SemanticVariableEntry)| (p.0, SemanticVariableEntry::Moved),
            ));
        }
        assert(scope.semantic_variables@.take(j as int) =~= scope.semantic_variables@);
        scope.semantic_variables = OrderedMap { entries: moved };
        let r = BlockFlowMerger { implicits, semantic_variables: vars, arms: Vec::new() };
        proof {
            assert(r@ =~= merger_of(old(scope)@, extra_outputs@));
            assert(scope@ =~= emptied(old(scope)@));
            assert forall|c: CtxModel| scope_ok(c, old(scope)@) implies #[trigger] scope_ok(
                c,
                scope@,
            ) by {
                reveal(scope_ok);
                let (vars0, vars1) = (old(scope)@.vars, scope@.vars);
                assert forall|i: int, j: int| 0 <= i < j < vars1.len() implies (
                #[trigger] vars1[i]).0 != (#[trigger] vars1[j]).0 by {
                    assert(vars0[i].0 != vars0[j].0);
                }
            }
            assert forall|c: CtxModel| scope_ok(c, old(scope)@) implies #[trigger] merger_ok(
                c,
                r@,
            ) by {
                reveal(scope_ok);
                reveal(merger_ok);
                lemma_extra_ok(c, old(scope)@.vars, extra_outputs@, 0);
            }
        }
        r
    }

    /// Starts a function.
    pub fn with_root() -> (r: Self)
        ensures
            r@ == root_merger(),
            forall|c: CtxModel| #[trigger] merger_ok(c, r@),
    {
        let r = BlockFlowMerger {
            implicits: OrderedMap::new(),
            semantic_variables: OrderedMap::new(),
            arms: Vec::new(),
        };
        proof {
            reveal(merger_ok);
            assert(r@ =~= root_merger());
        }
        r
    }

    /// Starts a block that has inputs of the types.
    pub fn start_subscope(&self, ctx: &mut LoweringContext<'_>, input_tys: &Vec<TypeId>) -> (r:
        BlockScope)
        requires
            merger_ok(old(ctx)@, self@),
        ensures
            r@ == subscope_of(old(ctx)@, self@, input_tys@),
            final(ctx)@ == new_vars(old(ctx).builder, old(ctx)@, input_tys@),
            r.inputs@.len() == input_tys@.len(),
            grew(*old(ctx), *final(ctx)),
            scope_ok(final(ctx)@, r@),
            vars_ok(final(ctx)@, r.inputs@),
            merger_ok(final(ctx)@, self@),
    {
        let inputs = ctx.new_vars(input_tys);
        let r = BlockScope {
            inputs,
            initial_refs: Vec::new(),
            statements: Vec::new(),
            implicits: self.implicits.copied(),
            changed_implicits: Vec::new(),
            semantic_variables: self.semantic_variables.copied(),
        };
        proof {
            assert(r@ =~= subscope_of(old(ctx)@, self@, input_tys@));
            lemma_later(old(ctx)@, ctx@);
            reveal(merger_ok);
            reveal(scope_ok);
        }
        r
    }

    /// Ends a block.
    pub fn seal(&mut self, scope: BlockScope, end: BlockScopeEnd) -> (r: BlockSealed)
        ensures
            r@ == sealed_of(scope@, end@),
            final(self)@ == merger_with(old(self)@, scope@, end@),
            known(final(self)@, r@),
            forall|s: SealedModel| known(old(self)@, s) ==> #[trigger] known(final(self)@, s),
            forall|c: CtxModel|
                merger_ok(c, old(self)@) && scope_ok(c, scope@) && end_ok(c, end@)
                    ==> #[trigger] merger_ok(c, final(self)@),
            forall|c: CtxModel|
                scope_ok(c, scope@) && end_ok(c, end@) ==> #[trigger] sealed_ok(c, r@),
    {
        let ghost m0 = self@;
        match &end {
            BlockScopeEnd::Callsite(output) => {
                self.arms.push(
                    ArmEnd {
                        implicits: scope.implicits.copied(),
                        changed_implicits: copy_vec(&scope.changed_implicits),
                        semantic_variables: scope.semantic_variables.copied(),
                        output: *output,
                    },
                );
                assert(self@.arms =~= m0.arms.push(arm_of(scope@, *output)));
            },
            _ => {},
        }
        proof {
            assert(self@ =~= merger_with(m0, scope@, end@));
            lemma_known_later(m0, scope@, end@);
            assert forall|c: CtxModel|
                merger_ok(c, m0) && scope_ok(c, scope@) && end_ok(c, end@) implies
                #[trigger] merger_ok(c, self@) by {
                reveal(merger_ok);
                reveal(scope_ok);
                assert forall|i: int| 0 <= i < self@.arms.len() implies arm_ok(
                    c,
                    #[trigger] self@.arms[i],
                ) by {
                    if i < m0.arms.len() {
                        assert(self@.arms[i] == m0.arms[i]);
                    }
                }
            }
            assert forall|c: CtxModel| scope_ok(c, scope@) && end_ok(c, end@) implies
                #[trigger] sealed_ok(c, sealed_of(scope@, end@)) by {
                reveal(sealed_ok);
                reveal(scope_ok);
            }
        }
        BlockSealed {
            inputs: scope.inputs,
            initial_refs: scope.initial_refs,
            statements: scope.statements,
            implicits: scope.implicits,
            semantic_variables: scope.semantic_variables,
            end,
        }
    }

    fn implicit_everywhere(&self, ty: TypeId) -> (r: bool)
        ensures
            r == implicit_everywhere(self@.arms, ty),
    {
        let mut i: usize = 0;
        while i < self.arms.len()
            invariant
                i <= self.arms@.len() == self@.arms.len(),
                forall|j: int| 0 <= j < i ==> has_key((#[trigger] self@.arms[j]).implicits, ty),
            decreases self.arms@.len() - i,
        {
            let found = self.arms[i].implicits.get(ty);
            if found.is_none() {
                assert(!has_key(self@.arms[i as int].implicits, ty));
                return false;
            }
            i += 1;
        }
        true
    }

    fn implicit_changed(&self, ty: TypeId) -> (r: bool)
        ensures
            r == implicit_changed(self@.arms, ty),
    {
        let mut i: usize = 0;
        while i < self.arms.len()
            invariant
                i <= self.arms@.len() == self@.arms.len(),
                forall|j: int| 0 <= j < i ==> !(#[trigger] self@.arms[j]).changed.contains(ty),
            decreases self.arms@.len() - i,
        {
            if contains_key(&self.arms[i].changed_implicits, ty) {
                assert(self@.arms[i as int].changed.contains(ty));
                return true;
            }
            i += 1;
        }
        false
    }

    fn alive_everywhere(&self, id: VarId) -> (r: bool)
        ensures
            r == alive_everywhere(self@.arms, id),
    {
        let mut i: usize = 0;
        while i < self.arms.len()
            invariant
                i <= self.arms@.len() == self@.arms.len(),
                forall|j: int|
                    0 <= j < i ==> alive_in((#[trigger] self@.arms[j]).vars, id) is Some,
            decreases self.arms@.len() - i,
        {
            let found = self.arms[i].semantic_variables.get(id);
            let alive = matches!(found, Some(SemanticVariableEntry::Alive(_)));
            if !alive {
                assert(alive_in(self@.arms[i as int].vars, id) is None);
                return false;
            }
            i += 1;
        }
        true
    }

    fn untouched_everywhere(&self, id: VarId, var: LivingVar) -> (r: bool)
        ensures
            r == untouched_everywhere(self@.arms, id, var),
    {
        let mut i: usize = 0;
        while i < self.arms.len()
            invariant
                i <= self.arms@.len() == self@.arms.len(),
                forall|j: int|
                    0 <= j < i ==> alive_in((#[trigger] self@.arms[j]).vars, id) == Some(var),
            decreases self.arms@.len() - i,
        {
            let found = self.arms[i].semantic_variables.get(id);
            let same = match found {
                Some(SemanticVariableEntry::Alive(v)) => v == var,
                _ => false,
            };
            if !same {
                assert(alive_in(self@.arms[i as int].vars, id) != Some(var));
                return false;
            }
            i += 1;
        }
        true
    }

    fn output_everywhere(&self) -> (r: bool)
        ensures
            r == output_everywhere(self@.arms),
    {
        let mut i: usize = 0;
        while i < self.arms.len()
            invariant
                i <= self.arms@.len() == self@.arms.len(),
                forall|j: int| 0 <= j < i ==> (#[trigger] self@.arms[j]).output is Some,
            decreases self.arms@.len() - i,
        {
            if self.arms[i].output.is_none() {
                assert(self@.arms[i as int].output is None);
                return false;
            }
            i += 1;
        }
        true
    }

    fn implicit_info(&self) -> (r: OuterImplicitInfo)
        ensures
            r.pushes@ == implicit_pushes_of(self@),
            r.unchanged@ == self@.implicits.filter(unchanged_test(self@.arms)),
    {
        let ghost m = self@;
        let mut pushes: Vec<TypeId> = Vec::new();
        let mut unchanged: Vec<(TypeId, LivingVar)> = Vec::new();
        let mut i: usize = 0;
        proof {
            reveal(Seq::filter);
            assert(pushes@ =~= keys(m.implicits.take(0).filter(implicit_push_test(m.arms))));
            assert(unchanged@ =~= m.implicits.take(0).filter(unchanged_test(m.arms)));
        }
        while i < self.implicits.entries.len()
            invariant
                m == self@,
                i <= m.implicits.len(),
                pushes@ == keys(
                    m.implicits.take(i as int).filter(implicit_push_test(m.arms)),
                ),
                unchanged@ == m.implicits.take(i as int).filter(unchanged_test(m.arms)),
            decreases m.implicits.len() - i,
        {
            let pair = self.implicits.entries[i];
            let ghost p0 = pushes@;
            if self.implicit_everywhere(pair.0) {
                if self.implicit_changed(pair.0) {
                    pushes.push(pair.0);
                } else {
                    unchanged.push(pair);
                }
            }
            proof {
                lemma_filter_take(m.implicits, implicit_push_test(m.arms), i as int);
                lemma_filter_take(m.implicits, unchanged_test(m.arms), i as int);
                assert(pushes@ =~= keys(
                    m.implicits.take(i + 1).filter(implicit_push_test(m.arms)),
                ));
            }
            i += 1;
        }
        assert(m.implicits.take(i as int) =~= m.implicits);
        OuterImplicitInfo { pushes, unchanged }
    }

    fn var_info(&self) -> (r: OuterVarInfo)
        ensures
            r.pushes@ == var_pushes_of(self@),
            r.bring_back@ == alive_pairs(self@.vars.filter(bring_back_test(self@.arms))),
    {
        let ghost m = self@;
        let mut pushes: Vec<VarId> = Vec::new();
        let mut bring_back: Vec<(VarId, LivingVar)> = Vec::new();
        let mut i: usize = 0;
        proof {
            reveal(Seq::filter);
            assert(pushes@ =~= keys(m.vars.take(0).filter(var_push_test(m.arms))));
            assert(bring_back@ =~= alive_pairs(m.vars.take(0).filter(bring_back_test(m.arms))));
        }
        while i < self.semantic_variables.entries.len()
            invariant
                m == self@,
                i <= m.vars.len(),
                pushes@ == keys(m.vars.take(i as int).filter(var_push_test(m.arms))),
                bring_back@ == alive_pairs(
                    m.vars.take(i as int).filter(bring_back_test(m.arms)),
                ),
            decreases m.vars.len() - i,
        {
            let pair = self.semantic_variables.entries[i];
            let untouched = match pair.1 {
                SemanticVariableEntry::Alive(var) => self.untouched_everywhere(pair.0, var),
                SemanticVariableEntry::Moved => false,
            };
            if untouched {
                match pair.1 {
                    SemanticVariableEntry::Alive(var) => {
                        bring_back.push((pair.0, var));
                    },
                    SemanticVariableEntry::Moved => {},
                }
            } else if self.alive_everywhere(pair.0) {
                pushes.push(pair.0);
            }
            proof {
                lemma_filter_take(m.vars, var_push_test(m.arms), i as int);
                lemma_filter_take(m.vars, bring_back_test(m.arms), i as int);
                assert(pushes@ =~= keys(m.vars.take(i + 1).filter(var_push_test(m.arms))));
                assert(bring_back@ =~= alive_pairs(
                    m.vars.take(i + 1).filter(bring_back_test(m.arms)),
                ));
            }
            i += 1;
        }
        assert(m.vars.take(i as int) =~= m.vars);
        OuterVarInfo { pushes, bring_back }
    }

    /// Finds what comes out of the blocks.
    pub fn finalize(self, ctx: &LoweringContext<'_>) -> (r: BlockMergerFinalized)
        requires
            merger_ok(ctx@, self@),
        ensures
            r@ == finalized(ctx@, self@),
            finalized_ok(ctx@, r@),
            forall|s: SealedModel| known(self@, s) ==> #[trigger] fits(r@, s),
    {
        let ghost m = self@;
        proof {
            reveal(merger_ok);
            lemma_known_fits(ctx@, m);
        }
        if self.arms.len() == 0 {
            return BlockMergerFinalized {
                end_info: BlockEndInfo::End,
                outer_implicit_info: OuterImplicitInfo { pushes: Vec::new(), unchanged: Vec::new() },
                outer_var_info: OuterVarInfo { pushes: Vec::new(), bring_back: Vec::new() },
            };
        }
        let outer_implicit_info = self.implicit_info();
        let outer_var_info = self.var_info();
        let mut push_tys = copy_vec(&outer_implicit_info.pushes);
        let ghost outs = var_outputs(m.arms[0].vars, var_pushes_of(m));
        let mut i: usize = 0;
        assert(m.arms[0] == self.arms@[0]@);
        proof {
            assert(push_tys@ =~= implicit_pushes_of(m) + types_of_vars(ctx@, outs.take(0)));
        }
        while i < outer_var_info.pushes.len()
            invariant
                m == self@,
                self.arms@.len() > 0,
                m.arms[0] == self.arms@[0]@,
                arm_ok(ctx@, m.arms[0]),
                outer_var_info.pushes@ == var_pushes_of(m),
                outs == var_outputs(m.arms[0].vars, var_pushes_of(m)),
                i <= outer_var_info.pushes@.len(),
                push_tys@ == implicit_pushes_of(m) + types_of_vars(ctx@, outs.take(i as int)),
            decreases outer_var_info.pushes@.len() - i,
        {
            let id = outer_var_info.pushes[i];
            proof {
                lemma_filter_member(m.vars, var_push_test(m.arms), i as int);
                assert(alive_in(m.arms[0].vars, id) is Some);
                lemma_alive_ok(ctx@, m.arms[0].vars, id);
            }
            let entry = self.arms[0].semantic_variables.get(id);
            match entry {
                Some(SemanticVariableEntry::Alive(var)) => {
                    push_tys.push(ctx.variables[var.0].ty);
                    assert(outs[i as int] == var);
                },
                _ => {
                    assert(false);
                },
            }
            i += 1;
            assert(push_tys@ =~= implicit_pushes_of(m) + types_of_vars(ctx@, outs.take(i as int)));
        }
        assert(outs.take(i as int) =~= outs);
        let maybe_output_ty = if self.output_everywhere() {
            assert(m.arms[0].output is Some);
            match self.arms[0].output {
                Some(var) => {
                    assert(arm_ok(ctx@, m.arms[0]));
                    Some(ctx.variables[var.0].ty)
                },
                None => None,
            }
        } else {
            None
        };
        let r = BlockMergerFinalized {
            end_info: BlockEndInfo::Callsite { push_tys, maybe_output_ty },
            outer_implicit_info,
            outer_var_info,
        };
        proof {
            let c = ctx@;
            let unchanged = r@.unchanged;
            assert forall|i: int| 0 <= i < unchanged.len() implies var_ok(
                c,
                (#[trigger] unchanged[i]).1,
            ) by {
                lemma_filter_member(m.implicits, unchanged_test(m.arms), i);
                let j = choose|j: int| 0 <= j < m.implicits.len() && m.implicits[j] == unchanged[i];
                assert(var_ok(c, m.implicits[j].1));
            }
            let back = r@.bring_back;
            let kept = m.vars.filter(bring_back_test(m.arms));
            assert forall|i: int| 0 <= i < back.len() implies var_ok(
                c,
                (#[trigger] back[i]).1,
            ) by {
                lemma_filter_member(m.vars, bring_back_test(m.arms), i);
                let j = choose|j: int| 0 <= j < m.vars.len() && m.vars[j] == kept[i];
                assert(m.vars[j].1 is Alive);
                assert(back[i].1 == m.vars[j].1->Alive_0);
            }
        }
        r
    }
}

impl BlockMergerFinalized {
    /// Gives a sealed block its outputs, and adds it to the function.
    pub fn finalize_block(&self, ctx: &mut LoweringContext<'_>, sealed: BlockSealed) -> (r: BlockId)
        requires
            ctx_ok(old(ctx)@),
            sealed_ok(old(ctx)@, sealed@),
            fits(self@, sealed@),
            finalized_ok(old(ctx)@, self@),
        ensures
            r == next_block(old(ctx)@),
            final(ctx)@ == with_block(old(ctx)@, self@, sealed@),
            grew(*old(ctx), *final(ctx)),
            callee_ok(
                final(ctx)@,
                final(ctx)@.blocks.len(),
                r,
                output_tys(self@.info).len(),
            ),
    {
        let ghost c0 = ctx@;
        let ghost s0 = sealed@;
        let ghost f = self@;
        proof {
            reveal(sealed_ok);
        }
        let end = match &sealed.end {
            BlockScopeEnd::Callsite(output) => {
                let mut outputs: Vec<VariableId> = Vec::new();
                let mut i: usize = 0;
                assert(outputs@ =~= implicit_outputs(s0.implicits, f.implicit_pushes.take(0)));
                while i < self.outer_implicit_info.pushes.len()
                    invariant
                        i <= f.implicit_pushes.len(),
                        f == self@,
                        s0 == sealed@,
                        s0.end is Callsite,
                        fits(f, s0),
                        outputs@ == implicit_outputs(
                            s0.implicits,
                            f.implicit_pushes.take(i as int),
                        ),
                    decreases f.implicit_pushes.len() - i,
                {
                    let ty = self.outer_implicit_info.pushes[i];
                    assert(f.implicit_pushes[i as int] == ty);
                    let found = sealed.implicits.get(ty);
                    match found {
                        Some(var) => {
                            outputs.push(var);
                        },
                        None => {
                            assert(false);
                        },
                    }
                    i += 1;
                    assert(outputs@ =~= implicit_outputs(
                        s0.implicits,
                        f.implicit_pushes.take(i as int),
                    ));
                }
                assert(f.implicit_pushes.take(i as int) =~= f.implicit_pushes);
                let ghost imps = outputs@;
                let mut j: usize = 0;
                assert(outputs@ =~= imps + var_outputs(s0.vars, f.var_pushes.take(0)));
                while j < self.outer_var_info.pushes.len()
                    invariant
                        j <= f.var_pushes.len(),
                        f == self@,
                        s0 == sealed@,
                        s0.end is Callsite,
                        fits(f, s0),
                        outputs@ == imps + var_outputs(s0.vars, f.var_pushes.take(j as int)),
                    decreases f.var_pushes.len() - j,
                {
                    let id = self.outer_var_info.pushes[j];
                    assert(f.var_pushes[j as int] == id);
                    let found = sealed.semantic_variables.get(id);
                    match found {
                        Some(SemanticVariableEntry::Alive(var)) => {
                            outputs.push(var);
                        },
                        _ => {
                            assert(false);
                        },
                    }
                    j += 1;
                    assert(outputs@ =~= imps + var_outputs(s0.vars, f.var_pushes.take(j as int)));
                }
                assert(f.var_pushes.take(j as int) =~= f.var_pushes);
                match &self.end_info {
                    BlockEndInfo::Callsite { maybe_output_ty: Some(_), .. } => {
                        match output {
                            Some(var) => {
                                outputs.push(*var);
                            },
                            None => {
                                assert(false);
                            },
                        }
                    },
                    _ => {},
                }
                assert(outputs@ =~= block_end(f, s0)->Callsite_0);
                proof {
                    assert forall|i: int| 0 <= i < outputs@.len() implies var_ok(
                        c0,
                        #[trigger] outputs@[i],
                    ) by {
                        let a: int = f.implicit_pushes.len() as int;
                        let b: int = a + f.var_pushes.len();
                        if i < a {
                            assert(has_key(s0.implicits, f.implicit_pushes[i]));
                            lemma_implicit_ok(c0, s0.implicits, f.implicit_pushes[i]);
                        } else if i < b {
                            assert(alive_in(s0.vars, f.var_pushes[i - a]) is Some);
                            lemma_alive_ok(c0, s0.vars, f.var_pushes[i - a]);
                        }
                    }
                }
                StructuredBlockEnd::Callsite(outputs)
            },
            BlockScopeEnd::Return { refs, returned } => StructuredBlockEnd::Return {
                refs: copy_vec(refs),
                returned: copy_vec(returned),
            },
            BlockScopeEnd::Panic { refs, data } => StructuredBlockEnd::Panic {
                refs: copy_vec(refs),
                data: *data,
            },
            BlockScopeEnd::Unreachable => StructuredBlockEnd::Unreachable,
        };
        let r = BlockId(ctx.blocks.len());
        let block = StructuredBlock {
            inputs: sealed.inputs,
            initial_refs: sealed.initial_refs,
            statements: sealed.statements,
            end,
        };
        let ghost model = block@;
        ctx.blocks.push(block);
        proof {
            assert(ctx@.blocks =~= c0.blocks.push(model));
            assert(ctx@ =~= with_block(c0, f, s0));
            assert(extends(c0, ctx@)) by {
                reveal(extends);
            }
            assert(block_ok(c0, c0.blocks.len(), model));
            lemma_ctx_ok_push(c0, ctx@);
        }
        r
    }
}

} // verus!

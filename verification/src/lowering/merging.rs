//! What the blocks of one statement do to the scope around it.
use crate::collections::{
    assign, has_key, is_first, key_index, keys, lemma_filter_member, lemma_first_unique,
    lemma_lookup_assign, lemma_lookup_pair, lemma_no_key, lemma_unique_keys, lookup, unique_keys,
};
use crate::ids::{ParamId, TypeId, VarId, VariableId};
use crate::lowering::context::LoweringContextBuilder;
use crate::lowering::laws::lemma_filter_unique;
use crate::lowering::model::{
    alive_in, alive_pairs, arm_of, block_end, block_result, bring_back_test, emptied, finalized,
    fresh_vars, implicit_push_test, is_bring_back, is_implicit_push, is_unchanged, is_var_push,
    mark_implicit_changed, merger_with, new_vars, output_tys, put_implicit, put_semantic_variable,
    sealed_of, unchanged_test, var_push_test, with_extra, ArmModel, CtxModel, LoweredExprModel,
    MergerModel, ScopeEndModel, ScopeModel, SemanticVariableEntry,
};
use crate::lowering::objects::{BlockEndModel, BlockModel};
use crate::lowering::steps::{
    after_blocks, output_expr, push_implicits, put_implicit_pairs, put_variable_pairs,
    put_variables,
};
use vstd::prelude::*;

verus! {

// === What comes together ===

/// A block of a statement when it ended: its scope, and how it ended.
pub struct Ending {
    pub s: ScopeModel,
    pub end: ScopeEndModel,
}

impl Ending {
    /// Whether the block comes back to the statement that ran it.
    pub open spec fn comes_back(self) -> bool {
        self.end is Callsite
    }
}

/// Whether the variable of the source has its value in `v`.
pub open spec fn is_in(
    vars: Seq<(VarId, SemanticVariableEntry)>,
    id: VarId,
    v: VariableId,
) -> bool {
    lookup(vars, id) == Some(SemanticVariableEntry::Alive(v))
}

/// Whether the variable of the source has a value.
pub open spec fn has_value(vars: Seq<(VarId, SemanticVariableEntry)>, id: VarId) -> bool {
    exists|v: VariableId| is_in(vars, id, v)
}

/// The outputs of a block that comes back.
pub open spec fn given(block: BlockModel) -> Seq<VariableId> {
    match block.end {
        BlockEndModel::Callsite(outputs) => outputs,
        _ => Seq::empty(),
    }
}

/// Whether the variable of the source is in `v` at the end of every block that comes back.
pub open spec fn stays_in(endings: Seq<Ending>, id: VarId, v: VariableId) -> bool {
    forall|j: int|
        0 <= j < endings.len() && (#[trigger] endings[j]).comes_back() ==> is_in(
            endings[j].s.vars,
            id,
            v,
        )
}

/// Whether the variable of the source has a value at the end of every block that comes back.
pub open spec fn survives(endings: Seq<Ending>, id: VarId) -> bool {
    forall|j: int|
        0 <= j < endings.len() && (#[trigger] endings[j]).comes_back() ==> has_value(
            endings[j].s.vars,
            id,
        )
}

/// Whether every block that comes back gives out, as the output `k`, what the variable of the source
/// is in when it ends.
pub open spec fn gives_variable(
    endings: Seq<Ending>,
    blocks: Seq<BlockModel>,
    id: VarId,
    k: int,
) -> bool {
    forall|j: int|
        0 <= j < endings.len() && (#[trigger] endings[j]).comes_back() ==> is_in(
            endings[j].s.vars,
            id,
            given(blocks[j])[k],
        )
}

/// What becomes of a variable of the source. Where every block that comes back leaves it in the
/// variable that it was in, it is still there. Where it has a value at the end of every such block,
/// but not the old one at the end of all of them, it is in an output of the statement, and each
/// block gives out, in the place of that output, what the variable was in when the block ended.
/// Otherwise it has no value. A variable that was not known before is not known after.
pub open spec fn variable_comes_out(
    before: Seq<(VarId, SemanticVariableEntry)>,
    extra: Seq<VarId>,
    endings: Seq<Ending>,
    blocks: Seq<BlockModel>,
    outputs: Seq<VariableId>,
    after: Seq<(VarId, SemanticVariableEntry)>,
    id: VarId,
) -> bool {
    if lookup(before, id) is None && !extra.contains(id) {
        lookup(after, id) is None
    } else if exists|v: VariableId| #[trigger] is_in(before, id, v) && stays_in(endings, id, v) {
        forall|v: VariableId| #[trigger] is_in(before, id, v) ==> is_in(after, id, v)
    } else if survives(endings, id) {
        exists|k: int|
            0 <= k < outputs.len() && is_in(after, id, #[trigger] outputs[k]) && gives_variable(
                endings,
                blocks,
                id,
                k,
            )
    } else {
        !has_value(after, id)
    }
}

/// Whether every block that comes back still has the implicit.
pub open spec fn implicit_survives(endings: Seq<Ending>, ty: TypeId) -> bool {
    forall|j: int|
        0 <= j < endings.len() && (#[trigger] endings[j]).comes_back() ==> lookup(
            endings[j].s.implicits,
            ty,
        ) is Some
}

/// Whether a block that comes back has changed the implicit.
pub open spec fn implicit_is_changed(endings: Seq<Ending>, ty: TypeId) -> bool {
    exists|j: int|
        0 <= j < endings.len() && (#[trigger] endings[j]).comes_back()
            && endings[j].s.changed.contains(ty)
}

/// Whether every block that comes back gives out, as the output `k`, what the implicit is in when it
/// ends.
pub open spec fn gives_implicit(
    endings: Seq<Ending>,
    blocks: Seq<BlockModel>,
    ty: TypeId,
    k: int,
) -> bool {
    forall|j: int|
        0 <= j < endings.len() && (#[trigger] endings[j]).comes_back() ==> lookup(
            endings[j].s.implicits,
            ty,
        ) == Some(given(blocks[j])[k])
}

/// What becomes of an implicit. Where every block that comes back still has it and none has changed
/// it, it is where it was. Where every such block has it and one has changed it, it is in an output
/// of the statement, and each block gives out, in the place of that output, what the implicit was in
/// when the block ended. Otherwise it is gone.
pub open spec fn implicit_comes_out(
    before: Seq<(TypeId, VariableId)>,
    endings: Seq<Ending>,
    blocks: Seq<BlockModel>,
    outputs: Seq<VariableId>,
    after: Seq<(TypeId, VariableId)>,
    ty: TypeId,
) -> bool {
    if lookup(before, ty) is None || !implicit_survives(endings, ty) {
        lookup(after, ty) is None
    } else if !implicit_is_changed(endings, ty) {
        lookup(after, ty) == lookup(before, ty)
    } else {
        exists|k: int|
            0 <= k < outputs.len() && lookup(after, ty) == Some(#[trigger] outputs[k])
                && gives_implicit(endings, blocks, ty, k)
    }
}

/// Whether every block that comes back ends with a value.
pub open spec fn all_have_values(endings: Seq<Ending>) -> bool {
    forall|j: int|
        0 <= j < endings.len() && (#[trigger] endings[j]).comes_back()
            ==> endings[j].end->Callsite_0 is Some
}

/// The value of the statement. Where every block that comes back ends with a value, it is the last
/// output of the statement, and each such block gives its own value out last. Otherwise it is the
/// empty tuple.
pub open spec fn value_comes_out(
    endings: Seq<Ending>,
    blocks: Seq<BlockModel>,
    outputs: Seq<VariableId>,
    value: LoweredExprModel,
) -> bool {
    if all_have_values(endings) {
        &&& outputs.len() > 0
        &&& value == LoweredExprModel::AtVariable(outputs.last())
        &&& forall|j: int|
            0 <= j < endings.len() && (#[trigger] endings[j]).comes_back()
                ==> endings[j].end->Callsite_0 == Some(given(blocks[j]).last())
    } else {
        value == LoweredExprModel::Tuple(Seq::empty())
    }
}

/// Whether the block is the one that ended so: it has its inputs and statements, and it leaves the
/// function as it ended, or comes back with that many outputs.
pub open spec fn is_block_of(ending: Ending, block: BlockModel, outputs: nat) -> bool {
    &&& block.inputs == ending.s.inputs
    &&& block.initial_refs == ending.s.initial_refs
    &&& block.statements == ending.s.statements
    &&& match ending.end {
        ScopeEndModel::Callsite(_) => block.end is Callsite && given(block).len() == outputs,
        ScopeEndModel::Return { refs, returned } => block.end == (BlockEndModel::Return {
            refs,
            returned,
        }),
        ScopeEndModel::Panic { refs, data } => block.end == (BlockEndModel::Panic { refs, data }),
        ScopeEndModel::Unreachable => block.end is Unreachable,
    }
}

/// Whether the blocks are those that ended so.
pub open spec fn are_blocks_of(
    endings: Seq<Ending>,
    blocks: Seq<BlockModel>,
    outputs: nat,
) -> bool {
    &&& blocks.len() == endings.len()
    &&& forall|j: int|
        0 <= j < endings.len() ==> is_block_of(#[trigger] endings[j], blocks[j], outputs)
}

/// Whether some block comes back.
pub open spec fn some_comes_back(endings: Seq<Ending>) -> bool {
    exists|j: int| 0 <= j < endings.len() && (#[trigger] endings[j]).comes_back()
}

/// What a statement with blocks makes of the scope `before`: every variable of the source, every
/// implicit and the value come out of the blocks as said above. Of the variables of the source those
/// of `extra` are known to the blocks too.
pub open spec fn comes_together(
    before: ScopeModel,
    extra: Seq<VarId>,
    endings: Seq<Ending>,
    blocks: Seq<BlockModel>,
    outputs: Seq<VariableId>,
    after: ScopeModel,
    value: LoweredExprModel,
) -> bool {
    &&& are_blocks_of(endings, blocks, outputs.len())
    &&& forall|id: VarId| #[trigger]
        variable_comes_out(before.vars, extra, endings, blocks, outputs, after.vars, id)
    &&& forall|ty: TypeId| #[trigger]
        implicit_comes_out(before.implicits, endings, blocks, outputs, after.implicits, ty)
    &&& value_comes_out(endings, blocks, outputs, value)
    &&& forall|ty: TypeId| #[trigger]
        after.changed.contains(ty) <==> before.changed.contains(ty) || (lookup(
            before.implicits,
            ty,
        ) is Some && implicit_survives(endings, ty) && implicit_is_changed(endings, ty))
}

/// Whether the outputs are the last new variables of the state. An output that is not an implicit
/// has the type of what a block that comes back gives out in its place.
pub open spec fn outputs_made(
    endings: Seq<Ending>,
    blocks: Seq<BlockModel>,
    outputs: Seq<VariableId>,
    c: CtxModel,
) -> bool {
    let n = c.variables.len() - outputs.len();
    &&& n >= 0
    &&& forall|k: int|
        0 <= k < outputs.len() ==> #[trigger] outputs[k] == VariableId((n + k) as usize)
    &&& outputs.len() > 0 ==> exists|j: int|
        0 <= j < endings.len() && (#[trigger] endings[j]).comes_back() && outputs_typed(
            endings,
            blocks,
            outputs,
            c,
            j,
        )
}

/// Whether each output is an implicit, or has the type of what the block `j` gives out in its place.
pub open spec fn outputs_typed(
    endings: Seq<Ending>,
    blocks: Seq<BlockModel>,
    outputs: Seq<VariableId>,
    c: CtxModel,
    j: int,
) -> bool {
    forall|k: int|
        0 <= k < outputs.len() ==> #[trigger] output_typed(
            endings,
            blocks,
            c,
            c.variables.len() - outputs.len(),
            j,
            k,
        )
}

/// Whether the output `k`, which is the variable `n + k`, is an implicit, or has the type of what
/// the block `j` gives out in its place.
pub open spec fn output_typed(
    endings: Seq<Ending>,
    blocks: Seq<BlockModel>,
    c: CtxModel,
    n: int,
    j: int,
    k: int,
) -> bool {
    let ty = c.variables[n + k].ty;
    ||| gives_implicit(endings, blocks, ty, k)
    ||| given(blocks[j])[k].0 < n ==> ty == c.variables[given(blocks[j])[k].0 as int].ty
}

// === Lists that are bound at once ===

/// Each of the variables of the source from the place `i` on gets its value, and the others keep
/// theirs.
pub proof fn lemma_variables_given(
    s: ScopeModel,
    ids: Seq<VarId>,
    vars: Seq<VariableId>,
    i: int,
    id: VarId,
)
    requires
        0 <= i <= ids.len(),
        ids.no_duplicates(),
    ensures
        ({
            let t = put_variables(s, ids, vars, i);
            &&& t.implicits == s.implicits
            &&& t.changed == s.changed
            &&& t.statements == s.statements
            &&& t.inputs == s.inputs
            &&& forall|k: int|
                i <= k < ids.len() && #[trigger] ids[k] == id ==> is_in(t.vars, id, vars[k])
            &&& (forall|k: int| i <= k < ids.len() ==> #[trigger] ids[k] != id) ==> lookup(
                t.vars,
                id,
            ) == lookup(s.vars, id)
        }),
    decreases ids.len() - i,
{
    if i < ids.len() {
        lemma_lookup_assign(s.vars, ids[i], SemanticVariableEntry::Alive(vars[i]));
        lemma_variables_given(put_semantic_variable(s, ids[i], vars[i]), ids, vars, i + 1, id);
    }
}

/// Each of the implicits from the place `i` on gets its variable, and the others keep theirs.
pub proof fn lemma_implicits_given(
    s: ScopeModel,
    tys: Seq<TypeId>,
    vars: Seq<VariableId>,
    i: int,
    ty: TypeId,
)
    requires
        0 <= i <= tys.len(),
        tys.no_duplicates(),
    ensures
        ({
            let t = push_implicits(s, tys, vars, i);
            &&& t.vars == s.vars
            &&& t.statements == s.statements
            &&& t.inputs == s.inputs
            &&& forall|k: int|
                i <= k < tys.len() && #[trigger] tys[k] == ty ==> lookup(t.implicits, ty) == Some(
                    vars[k],
                )
            &&& (forall|k: int| i <= k < tys.len() ==> #[trigger] tys[k] != ty) ==> lookup(
                t.implicits,
                ty,
            ) == lookup(s.implicits, ty)
            &&& t.changed.contains(ty) <==> s.changed.contains(ty) || exists|k: int|
                i <= k < tys.len() && #[trigger] tys[k] == ty
        }),
    decreases tys.len() - i,
{
    if i < tys.len() {
        lemma_lookup_assign(s.implicits, tys[i], vars[i]);
        let s1 = put_implicit(s, tys[i], vars[i]);
        let s2 = mark_implicit_changed(s1, tys[i]);
        assert(s2.changed.contains(ty) <==> s.changed.contains(ty) || tys[i] == ty) by {
            if !s.changed.contains(tys[i]) {
                assert(s2.changed == s.changed.push(tys[i]));
                assert(s2.changed[s.changed.len() as int] == tys[i]);
                if s.changed.contains(ty) {
                    let k = choose|k: int| 0 <= k < s.changed.len() && s.changed[k] == ty;
                    assert(s2.changed[k] == ty);
                }
                if s2.changed.contains(ty) && tys[i] != ty {
                    let k = choose|k: int| 0 <= k < s2.changed.len() && s2.changed[k] == ty;
                    assert(s.changed[k] == ty);
                }
            }
        }
        lemma_implicits_given(s2, tys, vars, i + 1, ty);
    }
}

proof fn lemma_implicit_pairs_given(
    s: ScopeModel,
    pairs: Seq<(TypeId, VariableId)>,
    i: int,
    ty: TypeId,
)
    requires
        0 <= i <= pairs.len(),
        unique_keys(pairs),
    ensures
        ({
            let t = put_implicit_pairs(s, pairs, i);
            &&& t.vars == s.vars
            &&& t.changed == s.changed
            &&& t.statements == s.statements
            &&& t.inputs == s.inputs
            &&& forall|k: int|
                i <= k < pairs.len() && (#[trigger] pairs[k]).0 == ty ==> lookup(t.implicits, ty)
                    == Some(pairs[k].1)
            &&& (forall|k: int| i <= k < pairs.len() ==> (#[trigger] pairs[k]).0 != ty) ==> lookup(
                t.implicits,
                ty,
            ) == lookup(s.implicits, ty)
        }),
    decreases pairs.len() - i,
{
    if i < pairs.len() {
        lemma_lookup_assign(s.implicits, pairs[i].0, pairs[i].1);
        lemma_implicit_pairs_given(put_implicit(s, pairs[i].0, pairs[i].1), pairs, i + 1, ty);
        if pairs[i].0 == ty {
            assert forall|k: int| i + 1 <= k < pairs.len() implies (#[trigger] pairs[k]).0
                != ty by {
                assert(pairs[i].0 != pairs[k].0);
            }
        }
    }
}

proof fn lemma_variable_pairs_given(
    s: ScopeModel,
    pairs: Seq<(VarId, VariableId)>,
    i: int,
    id: VarId,
)
    requires
        0 <= i <= pairs.len(),
        unique_keys(pairs),
    ensures
        ({
            let t = put_variable_pairs(s, pairs, i);
            &&& t.implicits == s.implicits
            &&& t.changed == s.changed
            &&& t.statements == s.statements
            &&& t.inputs == s.inputs
            &&& forall|k: int|
                i <= k < pairs.len() && (#[trigger] pairs[k]).0 == id ==> is_in(
                    t.vars,
                    id,
                    pairs[k].1,
                )
            &&& (forall|k: int| i <= k < pairs.len() ==> (#[trigger] pairs[k]).0 != id) ==> lookup(
                t.vars,
                id,
            ) == lookup(s.vars, id)
        }),
    decreases pairs.len() - i,
{
    if i < pairs.len() {
        lemma_lookup_assign(s.vars, pairs[i].0, SemanticVariableEntry::Alive(pairs[i].1));
        lemma_variable_pairs_given(
            put_semantic_variable(s, pairs[i].0, pairs[i].1),
            pairs,
            i + 1,
            id,
        );
        if pairs[i].0 == id {
            assert forall|k: int| i + 1 <= k < pairs.len() implies (#[trigger] pairs[k]).0
                != id by {
                assert(pairs[i].0 != pairs[k].0);
            }
        }
    }
}

/// Which keys pass a test, where no two pairs have the same key.
proof fn lemma_passing_keys<K, V>(s: Seq<(K, V)>, test: spec_fn((K, V)) -> bool, k: K)
    requires
        unique_keys(s),
    ensures
        unique_keys(s.filter(test)),
        keys(s.filter(test)).no_duplicates(),
        keys(s.filter(test)).contains(k) <==> lookup(s, k) is Some && test((k, lookup(s, k)->0)),
        forall|i: int|
            0 <= i < s.filter(test).len() && (#[trigger] s.filter(test)[i]).0 == k ==> s.filter(
                test,
            )[i] == (k, lookup(s, k)->0),
{
    let f = s.filter(test);
    if s.len() > 0 {
        lemma_filter_unique(s, test, 0);
    } else {
        reveal(Seq::filter);
    }
    assert forall|i: int, j: int| 0 <= i < keys(f).len() && 0 <= j < keys(f).len() && i
        != j implies keys(f)[i] != keys(f)[j] by {
        if i < j {
            assert(f[i].0 != f[j].0);
        } else {
            assert(f[j].0 != f[i].0);
        }
    }
    assert forall|i: int| 0 <= i < f.len() && (#[trigger] f[i]).0 == k implies f[i] == (
        k,
        lookup(s, k)->0,
    ) && lookup(s, k) is Some && test(f[i]) by {
        lemma_filter_member(s, test, i);
        lemma_lookup_pair(s, k, f[i].1);
    }
    if keys(f).contains(k) {
        let i = choose|i: int| 0 <= i < keys(f).len() && keys(f)[i] == k;
        assert(f[i].0 == k);
    }
    if lookup(s, k) is Some && test((k, lookup(s, k)->0)) {
        let i = key_index(s, k);
        assert(is_first(s, k, i));
        assert(s[i] == (k, lookup(s, k)->0));
        lemma_filter_unique(s, test, i);
        let j = choose|j: int| 0 <= j < f.len() && #[trigger] f[j] == s[i];
        assert(keys(f)[j] == k);
    }
}

// === The start of the blocks ===

/// What the scope knows while its blocks have what it had.
pub proof fn lemma_emptied(s: ScopeModel, id: VarId)
    ensures
        lookup(emptied(s).vars, id) == (match lookup(s.vars, id) {
            Some(_) => Some(SemanticVariableEntry::Moved),
            None => None,
        }),
{
    let t = emptied(s).vars;
    lemma_no_key(s.vars, id);
    lemma_no_key(t, id);
    if has_key(s.vars, id) {
        let i = key_index(s.vars, id);
        assert(is_first(s.vars, id, i));
        assert(t[i].0 == id);
        assert forall|j: int| 0 <= j < i implies (#[trigger] t[j]).0 != id by {
            assert(s.vars[j].0 != id);
        }
        assert(is_first(t, id, i));
        lemma_first_unique(t, id, i);
    } else if has_key(t, id) {
        let i = key_index(t, id);
        assert(is_first(t, id, i));
        assert(s.vars[i].0 == id);
    }
}

/// What the blocks know at their start.
pub proof fn lemma_with_extra(
    vars: Seq<(VarId, SemanticVariableEntry)>,
    extra: Seq<VarId>,
    i: int,
    id: VarId,
)
    requires
        0 <= i <= extra.len(),
        unique_keys(vars),
    ensures
        unique_keys(with_extra(vars, extra, i)),
        lookup(with_extra(vars, extra, i), id) == (if lookup(vars, id) is Some {
            lookup(vars, id)
        } else if exists|k: int| i <= k < extra.len() && #[trigger] extra[k] == id {
            Some(SemanticVariableEntry::Moved)
        } else {
            None
        }),
    decreases extra.len() - i,
{
    if i < extra.len() {
        if has_key(vars, extra[i]) {
            lemma_with_extra(vars, extra, i + 1, id);
        } else {
            let moved = SemanticVariableEntry::Moved;
            assert(assign(vars, extra[i], moved) == vars.push((extra[i], moved)));
            lemma_lookup_assign(vars, extra[i], moved);
            lemma_unique_keys(vars, extra[i], moved);
            lemma_with_extra(vars.push((extra[i], moved)), extra, i + 1, id);
        }
    }
}

// === The arms ===

/// Whether the block is among the arms.
pub open spec fn is_arm(arms: Seq<ArmModel>, e: Ending) -> bool {
    exists|i: int|
        0 <= i < arms.len() && #[trigger] arms[i] == arm_of(e.s, e.end->Callsite_0)
}

/// Whether the arm is one of the blocks that come back.
pub open spec fn is_ending(endings: Seq<Ending>, a: ArmModel) -> bool {
    exists|j: int|
        0 <= j < endings.len() && (#[trigger] endings[j]).comes_back() && a == arm_of(
            endings[j].s,
            endings[j].end->Callsite_0,
        )
}

/// Whether the arms are the blocks that come back.
#[verifier::opaque]
pub open spec fn gathered(arms: Seq<ArmModel>, endings: Seq<Ending>) -> bool {
    &&& forall|j: int|
        0 <= j < endings.len() && (#[trigger] endings[j]).comes_back() ==> is_arm(
            arms,
            endings[j],
        )
    &&& forall|i: int| 0 <= i < arms.len() ==> is_ending(endings, #[trigger] arms[i])
}

/// The arm of a block that comes back.
proof fn lemma_arm_of(arms: Seq<ArmModel>, endings: Seq<Ending>, j: int) -> (i: int)
    requires
        gathered(arms, endings),
        0 <= j < endings.len(),
        endings[j].comes_back(),
    ensures
        0 <= i < arms.len(),
        arms[i].vars == endings[j].s.vars,
        arms[i].implicits == endings[j].s.implicits,
        arms[i].changed == endings[j].s.changed,
        arms[i].output == endings[j].end->Callsite_0,
{
    reveal(gathered);
    assert(is_arm(arms, endings[j]));
    choose|i: int|
        0 <= i < arms.len() && #[trigger] arms[i] == arm_of(
            endings[j].s,
            endings[j].end->Callsite_0,
        )
}

/// The block of an arm.
proof fn lemma_ending_of(arms: Seq<ArmModel>, endings: Seq<Ending>, i: int) -> (j: int)
    requires
        gathered(arms, endings),
        0 <= i < arms.len(),
    ensures
        0 <= j < endings.len(),
        endings[j].comes_back(),
        arms[i].vars == endings[j].s.vars,
        arms[i].implicits == endings[j].s.implicits,
        arms[i].changed == endings[j].s.changed,
        arms[i].output == endings[j].end->Callsite_0,
{
    reveal(gathered);
    assert(is_ending(endings, arms[i]));
    choose|j: int|
        0 <= j < endings.len() && (#[trigger] endings[j]).comes_back() && arms[i] == arm_of(
            endings[j].s,
            endings[j].end->Callsite_0,
        )
}

/// No block has ended yet.
pub proof fn lemma_gathered_none(arms: Seq<ArmModel>)
    requires
        arms.len() == 0,
    ensures
        gathered(arms, Seq::empty()),
{
    reveal(gathered);
}

/// One more block has ended.
pub proof fn lemma_gathered_push(
    m: MergerModel,
    endings: Seq<Ending>,
    s: ScopeModel,
    end: ScopeEndModel,
)
    requires
        gathered(m.arms, endings),
    ensures
        gathered(merger_with(m, s, end).arms, endings.push(Ending { s, end })),
        merger_with(m, s, end).vars == m.vars,
        merger_with(m, s, end).implicits == m.implicits,
{
    let e = Ending { s, end };
    let arms = merger_with(m, s, end).arms;
    let all = endings.push(e);
    assert(gathered(arms, all)) by {
        assert forall|j: int| 0 <= j < all.len() && (
        #[trigger] all[j]).comes_back() implies is_arm(arms, all[j]) by {
            if j < endings.len() {
                assert(all[j] == endings[j]);
                let i = lemma_arm_of(m.arms, endings, j);
                assert(arms[i] == m.arms[i]);
            } else {
                assert(arms[m.arms.len() as int] == arm_of(s, end->Callsite_0));
            }
        }
        assert forall|i: int| 0 <= i < arms.len() implies is_ending(all, #[trigger] arms[i]) by {
            if i < m.arms.len() {
                assert(arms[i] == m.arms[i]);
                let j = lemma_ending_of(m.arms, endings, i);
                assert(all[j] == endings[j]);
            } else {
                assert(all[endings.len() as int] == e);
            }
        }
        reveal(gathered);
    }
}

/// What the tests on the arms say of a variable of the source in the blocks.
proof fn lemma_variable_tests(
    arms: Seq<ArmModel>,
    endings: Seq<Ending>,
    id: VarId,
    entry: SemanticVariableEntry,
)
    requires
        gathered(arms, endings),
    ensures
        is_bring_back(arms, (id, entry)) <==> (entry is Alive && stays_in(
            endings,
            id,
            entry->Alive_0,
        )),
        is_var_push(arms, (id, entry)) <==> survives(endings, id) && !(entry is Alive && stays_in(
            endings,
            id,
            entry->Alive_0,
        )),
{
    if entry is Alive {
        let w = entry->Alive_0;
        if is_bring_back(arms, (id, entry)) {
            assert forall|j: int| 0 <= j < endings.len() && (
            #[trigger] endings[j]).comes_back() implies is_in(endings[j].s.vars, id, w) by {
                let i = lemma_arm_of(arms, endings, j);
                assert(alive_in(arms[i].vars, id) == Some(w));
            }
        }
        if stays_in(endings, id, w) {
            assert forall|i: int| 0 <= i < arms.len() implies alive_in(
                (#[trigger] arms[i]).vars,
                id,
            ) == Some(w) by {
                let j = lemma_ending_of(arms, endings, i);
                assert(is_in(endings[j].s.vars, id, w));
            }
        }
    }
    if survives(endings, id) {
        assert forall|i: int| 0 <= i < arms.len() implies alive_in(
            (#[trigger] arms[i]).vars,
            id,
        ) is Some by {
            let j = lemma_ending_of(arms, endings, i);
            assert(has_value(endings[j].s.vars, id));
        }
    } else {
        let j = choose|j: int|
            0 <= j < endings.len() && (#[trigger] endings[j]).comes_back() && !has_value(
                endings[j].s.vars,
                id,
            );
        let i = lemma_arm_of(arms, endings, j);
        if alive_in(arms[i].vars, id) is Some {
            assert(is_in(endings[j].s.vars, id, alive_in(arms[i].vars, id)->0));
        }
    }
}

/// What the tests on the arms say of an implicit in the blocks.
proof fn lemma_implicit_tests(
    arms: Seq<ArmModel>,
    endings: Seq<Ending>,
    ty: TypeId,
    v: VariableId,
)
    requires
        gathered(arms, endings),
    ensures
        is_unchanged(arms, (ty, v)) <==> implicit_survives(endings, ty) && !implicit_is_changed(
            endings,
            ty,
        ),
        is_implicit_push(arms, (ty, v)) <==> implicit_survives(endings, ty) && implicit_is_changed(
            endings,
            ty,
        ),
{
    if implicit_survives(endings, ty) {
        assert forall|i: int| 0 <= i < arms.len() implies has_key(
            (#[trigger] arms[i]).implicits,
            ty,
        ) by {
            let j = lemma_ending_of(arms, endings, i);
            assert(lookup(endings[j].s.implicits, ty) is Some);
        }
    } else {
        let j = choose|j: int|
            0 <= j < endings.len() && (#[trigger] endings[j]).comes_back() && lookup(
                endings[j].s.implicits,
                ty,
            ) is None;
        let i = lemma_arm_of(arms, endings, j);
        assert(!has_key(arms[i].implicits, ty));
    }
    if implicit_is_changed(endings, ty) {
        let j = choose|j: int|
            0 <= j < endings.len() && (#[trigger] endings[j]).comes_back()
                && endings[j].s.changed.contains(ty);
        let i = lemma_arm_of(arms, endings, j);
        assert(arms[i].changed.contains(ty));
    } else {
        assert forall|i: int| 0 <= i < arms.len() implies !(
        #[trigger] arms[i]).changed.contains(ty) by {
            let j = lemma_ending_of(arms, endings, i);
            assert(!endings[j].s.changed.contains(ty));
        }
    }
}

// === What comes out ===

/// The scope and the result of a statement whose blocks have ended so.
pub proof fn lemma_comes_together(
    c: CtxModel,
    c1: CtxModel,
    m: MergerModel,
    before: ScopeModel,
    extra: Seq<VarId>,
    endings: Seq<Ending>,
    blocks: Seq<BlockModel>,
    s: ScopeModel,
)
    requires
        unique_keys(before.vars),
        unique_keys(before.implicits),
        m.implicits == before.implicits,
        m.vars == with_extra(before.vars, extra, 0),
        gathered(m.arms, endings),
        s.implicits.len() == 0,
        s.vars == emptied(before).vars,
        s.changed == before.changed,
        blocks.len() == endings.len(),
        forall|j: int|
            0 <= j < endings.len() ==> #[trigger] blocks[j] == (BlockModel {
                inputs: endings[j].s.inputs,
                initial_refs: endings[j].s.initial_refs,
                statements: endings[j].s.statements,
                end: block_end(finalized(c, m), sealed_of(endings[j].s, endings[j].end)),
            }),
    ensures
        ({
            let f = finalized(c, m);
            let outputs = fresh_vars(c1, output_tys(f.info).len());
            let (after, r) = after_blocks(s, block_result(c1, f.info), f);
            &&& are_blocks_of(endings, blocks, outputs.len())
            &&& r is Ok <==> some_comes_back(endings)
            &&& r is Ok ==> comes_together(
                before,
                extra,
                endings,
                blocks,
                outputs,
                after,
                output_expr(r->Ok_0),
            )
        }),
{
    let f = finalized(c, m);
    let outputs = fresh_vars(c1, output_tys(f.info).len());
    let (after, r) = after_blocks(s, block_result(c1, f.info), f);
    assert(some_comes_back(endings) <==> m.arms.len() > 0) by {
        if m.arms.len() > 0 {
            let j = lemma_ending_of(m.arms, endings, 0);
        }
        if some_comes_back(endings) {
            let j = choose|j: int| 0 <= j < endings.len() && (#[trigger] endings[j]).comes_back();
            let i = lemma_arm_of(m.arms, endings, j);
        }
    }
    lemma_blocks_of(c, m, endings, blocks);
    lemma_with_extra(before.vars, extra, 0, VarId::Param(ParamId(0)));
    if m.arms.len() > 0 {
        assert forall|id: VarId| #[trigger]
            variable_comes_out(
                before.vars,
                extra,
                endings,
                blocks,
                outputs,
                after.vars,
                id,
            ) by {
            lemma_variable_comes_out(c, c1, m, before, extra, endings, blocks, s, id);
        }
        assert forall|ty: TypeId| #[trigger]
            implicit_comes_out(
                before.implicits,
                endings,
                blocks,
                outputs,
                after.implicits,
                ty,
            ) by {
            lemma_implicit_comes_out(c, c1, m, before, endings, blocks, s, ty);
        }
        assert forall|ty: TypeId| #[trigger]
            after.changed.contains(ty) <==> before.changed.contains(ty) || (lookup(
                before.implicits,
                ty,
            ) is Some && implicit_survives(endings, ty) && implicit_is_changed(endings, ty)) by {
            lemma_implicit_comes_out(c, c1, m, before, endings, blocks, s, ty);
        }
        lemma_value_comes_out(c, c1, m, endings, blocks);
    }
}

proof fn lemma_blocks_of(
    c: CtxModel,
    m: MergerModel,
    endings: Seq<Ending>,
    blocks: Seq<BlockModel>,
)
    requires
        gathered(m.arms, endings),
        blocks.len() == endings.len(),
        forall|j: int|
            0 <= j < endings.len() ==> #[trigger] blocks[j] == (BlockModel {
                inputs: endings[j].s.inputs,
                initial_refs: endings[j].s.initial_refs,
                statements: endings[j].s.statements,
                end: block_end(finalized(c, m), sealed_of(endings[j].s, endings[j].end)),
            }),
    ensures
        are_blocks_of(endings, blocks, output_tys(finalized(c, m).info).len()),
{
    let f = finalized(c, m);
    assert forall|j: int| 0 <= j < endings.len() implies is_block_of(
        #[trigger] endings[j],
        blocks[j],
        output_tys(f.info).len(),
    ) by {
        assert(blocks[j].inputs == endings[j].s.inputs);
        if endings[j].comes_back() {
            let i = lemma_arm_of(m.arms, endings, j);
        }
    }
}

proof fn lemma_value_comes_out(
    c: CtxModel,
    c1: CtxModel,
    m: MergerModel,
    endings: Seq<Ending>,
    blocks: Seq<BlockModel>,
)
    requires
        m.arms.len() > 0,
        gathered(m.arms, endings),
        blocks.len() == endings.len(),
        forall|j: int|
            0 <= j < endings.len() ==> #[trigger] blocks[j] == (BlockModel {
                inputs: endings[j].s.inputs,
                initial_refs: endings[j].s.initial_refs,
                statements: endings[j].s.statements,
                end: block_end(finalized(c, m), sealed_of(endings[j].s, endings[j].end)),
            }),
    ensures
        ({
            let f = finalized(c, m);
            let outputs = fresh_vars(c1, output_tys(f.info).len());
            let r = block_result(c1, f.info);
            value_comes_out(endings, blocks, outputs, output_expr(r->maybe_output))
        }),
{
    let f = finalized(c, m);
    let outputs = fresh_vars(c1, output_tys(f.info).len());
    if all_have_values(endings) {
        assert forall|i: int| 0 <= i < m.arms.len() implies (
        #[trigger] m.arms[i]).output is Some by {
            let j = lemma_ending_of(m.arms, endings, i);
            assert(endings[j].end->Callsite_0 is Some);
        }
        assert forall|j: int| 0 <= j < endings.len() && (
        #[trigger] endings[j]).comes_back() implies endings[j].end->Callsite_0 == Some(
            given(blocks[j]).last(),
        ) by {
            assert(blocks[j].inputs == endings[j].s.inputs);
        }
    } else {
        let j = choose|j: int|
            0 <= j < endings.len() && (#[trigger] endings[j]).comes_back()
                && endings[j].end->Callsite_0 is None;
        let i = lemma_arm_of(m.arms, endings, j);
        assert(m.arms[i].output is None);
    }
}

proof fn lemma_variable_comes_out(
    c: CtxModel,
    c1: CtxModel,
    m: MergerModel,
    before: ScopeModel,
    extra: Seq<VarId>,
    endings: Seq<Ending>,
    blocks: Seq<BlockModel>,
    s: ScopeModel,
    id: VarId,
)
    requires
        m.arms.len() > 0,
        unique_keys(before.vars),
        unique_keys(before.implicits),
        m.implicits == before.implicits,
        m.vars == with_extra(before.vars, extra, 0),
        gathered(m.arms, endings),
        s.vars == emptied(before).vars,
        blocks.len() == endings.len(),
        forall|j: int|
            0 <= j < endings.len() ==> #[trigger] blocks[j] == (BlockModel {
                inputs: endings[j].s.inputs,
                initial_refs: endings[j].s.initial_refs,
                statements: endings[j].s.statements,
                end: block_end(finalized(c, m), sealed_of(endings[j].s, endings[j].end)),
            }),
    ensures
        ({
            let f = finalized(c, m);
            let outputs = fresh_vars(c1, output_tys(f.info).len());
            let after = after_blocks(s, block_result(c1, f.info), f).0;
            variable_comes_out(before.vars, extra, endings, blocks, outputs, after.vars, id)
        }),
{
    let f = finalized(c, m);
    let outputs = fresh_vars(c1, output_tys(f.info).len());
    let r = block_result(c1, f.info);
    let pushes = r->pushes;
    let after = after_blocks(s, r, f).0;
    lemma_emptied(before, id);
    lemma_with_extra(before.vars, extra, 0, id);
    let entry = lookup(m.vars, id)->0;
    lemma_variable_tests(m.arms, endings, id, entry);
    lemma_passing_keys(m.vars, var_push_test(m.arms), id);
    lemma_passing_keys(m.vars, bring_back_test(m.arms), id);
    let any = TypeId(0);
    lemma_passing_keys(m.implicits, implicit_push_test(m.arms), any);
    lemma_passing_keys(m.implicits, unchanged_test(m.arms), any);
    let kept = m.vars.filter(bring_back_test(m.arms));
    let pairs = f.bring_back;
    assert(pairs == alive_pairs(kept));
    assert forall|a: int, b: int| 0 <= a < b < pairs.len() implies (#[trigger] pairs[a]).0 != (
    #[trigger] pairs[b]).0 by {
        assert(kept[a].0 != kept[b].0);
    }
    let n = f.implicit_pushes.len() as int;
    let s1 = push_implicits(s, f.implicit_pushes, pushes, 0);
    let s2 = put_variables(s1, f.var_pushes, pushes.skip(n), 0);
    let s3 = put_implicit_pairs(s2, f.unchanged, 0);
    let s4 = put_variable_pairs(s3, pairs, 0);
    lemma_implicits_given(s, f.implicit_pushes, pushes, 0, any);
    lemma_variables_given(s1, f.var_pushes, pushes.skip(n), 0, id);
    lemma_implicit_pairs_given(s2, f.unchanged, 0, any);
    lemma_variable_pairs_given(s3, pairs, 0, id);
    assert(after.vars == s4.vars);
    if keys(kept).contains(id) {
        let k = choose|k: int| 0 <= k < keys(kept).len() && keys(kept)[k] == id;
        assert(kept[k].0 == id);
        assert(pairs[k].0 == id);
    } else {
        assert forall|k: int| 0 <= k < pairs.len() implies (#[trigger] pairs[k]).0 != id by {
            assert(keys(kept)[k] == kept[k].0);
        }
    }
    if f.var_pushes.contains(id) {
        let k = choose|k: int| 0 <= k < f.var_pushes.len() && f.var_pushes[k] == id;
        let at = n + k;
        assert(pushes.len() == n + f.var_pushes.len());
        assert(pushes.skip(n)[k] == pushes[at]);
        assert(outputs[at] == pushes[at]);
        assert forall|j: int| 0 <= j < endings.len() && (
        #[trigger] endings[j]).comes_back() implies is_in(
            endings[j].s.vars,
            id,
            given(blocks[j])[at],
        ) by {
            assert(blocks[j].inputs == endings[j].s.inputs);
            assert(survives(endings, id));
            assert(has_value(endings[j].s.vars, id));
        }
        assert(is_in(after.vars, id, outputs[at]));
    } else {
        assert forall|k: int| 0 <= k < f.var_pushes.len() implies #[trigger] f.var_pushes[k]
            != id by {}
    }
    assert(extra.contains(id) <==> exists|k: int|
        0 <= k < extra.len() && #[trigger] extra[k] == id);
    let brought = bring_back_test(m.arms);
    let pushed = var_push_test(m.arms);
    assert(brought((id, entry)) == is_bring_back(m.arms, (id, entry)));
    assert(pushed((id, entry)) == is_var_push(m.arms, (id, entry)));
    if lookup(m.vars, id) is None {
        assert(lookup(after.vars, id) is None);
    } else if is_bring_back(m.arms, (id, entry)) {
        assert(is_in(before.vars, id, entry->Alive_0));
        assert(keys(kept).contains(id));
        assert(is_in(after.vars, id, entry->Alive_0));
    } else if is_var_push(m.arms, (id, entry)) {
        assert(f.var_pushes.contains(id));
        assert(!exists|v: VariableId| #[trigger]
            is_in(before.vars, id, v) && stays_in(endings, id, v));
    } else {
        assert(!survives(endings, id));
        assert(!exists|v: VariableId| #[trigger]
            is_in(before.vars, id, v) && stays_in(endings, id, v));
        assert(lookup(after.vars, id) == lookup(s.vars, id));
        assert(!has_value(after.vars, id));
    }
}

proof fn lemma_implicit_comes_out(
    c: CtxModel,
    c1: CtxModel,
    m: MergerModel,
    before: ScopeModel,
    endings: Seq<Ending>,
    blocks: Seq<BlockModel>,
    s: ScopeModel,
    ty: TypeId,
)
    requires
        m.arms.len() > 0,
        unique_keys(m.vars),
        unique_keys(before.implicits),
        m.implicits == before.implicits,
        gathered(m.arms, endings),
        s.implicits.len() == 0,
        s.changed == before.changed,
        blocks.len() == endings.len(),
        forall|j: int|
            0 <= j < endings.len() ==> #[trigger] blocks[j] == (BlockModel {
                inputs: endings[j].s.inputs,
                initial_refs: endings[j].s.initial_refs,
                statements: endings[j].s.statements,
                end: block_end(finalized(c, m), sealed_of(endings[j].s, endings[j].end)),
            }),
    ensures
        ({
            let f = finalized(c, m);
            let outputs = fresh_vars(c1, output_tys(f.info).len());
            let after = after_blocks(s, block_result(c1, f.info), f).0;
            &&& implicit_comes_out(
                before.implicits,
                endings,
                blocks,
                outputs,
                after.implicits,
                ty,
            )
            &&& after.changed.contains(ty) <==> before.changed.contains(ty) || (lookup(
                before.implicits,
                ty,
            ) is Some && implicit_survives(endings, ty) && implicit_is_changed(endings, ty))
        }),
{
    let f = finalized(c, m);
    let outputs = fresh_vars(c1, output_tys(f.info).len());
    let r = block_result(c1, f.info);
    let pushes = r->pushes;
    let after = after_blocks(s, r, f).0;
    lemma_no_key(s.implicits, ty);
    lemma_implicit_tests(m.arms, endings, ty, lookup(m.implicits, ty)->0);
    lemma_passing_keys(m.implicits, implicit_push_test(m.arms), ty);
    lemma_passing_keys(m.implicits, unchanged_test(m.arms), ty);
    let any = VarId::Param(ParamId(0));
    lemma_passing_keys(m.vars, var_push_test(m.arms), any);
    lemma_passing_keys(m.vars, bring_back_test(m.arms), any);
    let kept = m.vars.filter(bring_back_test(m.arms));
    let pairs = f.bring_back;
    assert(pairs == alive_pairs(kept));
    assert forall|a: int, b: int| 0 <= a < b < pairs.len() implies (#[trigger] pairs[a]).0 != (
    #[trigger] pairs[b]).0 by {
        assert(kept[a].0 != kept[b].0);
    }
    let n = f.implicit_pushes.len() as int;
    let s1 = push_implicits(s, f.implicit_pushes, pushes, 0);
    let s2 = put_variables(s1, f.var_pushes, pushes.skip(n), 0);
    let s3 = put_implicit_pairs(s2, f.unchanged, 0);
    let s4 = put_variable_pairs(s3, pairs, 0);
    lemma_implicits_given(s, f.implicit_pushes, pushes, 0, ty);
    lemma_variables_given(s1, f.var_pushes, pushes.skip(n), 0, any);
    lemma_implicit_pairs_given(s2, f.unchanged, 0, ty);
    lemma_variable_pairs_given(s3, pairs, 0, any);
    assert(after.implicits == s4.implicits);
    let unchanged = m.implicits.filter(unchanged_test(m.arms));
    if keys(unchanged).contains(ty) {
        let k = choose|k: int| 0 <= k < keys(unchanged).len() && keys(unchanged)[k] == ty;
        assert(unchanged[k].0 == ty);
    } else {
        assert forall|k: int| 0 <= k < unchanged.len() implies (
        #[trigger] unchanged[k]).0 != ty by {
            assert(keys(unchanged)[k] == unchanged[k].0);
        }
    }
    if f.implicit_pushes.contains(ty) {
        let k = choose|k: int| 0 <= k < f.implicit_pushes.len() && f.implicit_pushes[k] == ty;
        assert(pushes.len() == n + f.var_pushes.len());
        assert(outputs[k] == pushes[k]);
        assert forall|j: int| 0 <= j < endings.len() && (
        #[trigger] endings[j]).comes_back() implies lookup(endings[j].s.implicits, ty) == Some(
            given(blocks[j])[k],
        ) by {
            assert(blocks[j].inputs == endings[j].s.inputs);
            assert(lookup(endings[j].s.implicits, ty) is Some);
        }
        assert(lookup(after.implicits, ty) == Some(outputs[k]));
    } else {
        assert forall|k: int| 0 <= k < f.implicit_pushes.len() implies
            #[trigger] f.implicit_pushes[k] != ty by {}
    }
}

/// The types of the outputs of a statement whose blocks have ended so.
pub proof fn lemma_outputs_made(
    b: &LoweringContextBuilder,
    c: CtxModel,
    c1: CtxModel,
    m: MergerModel,
    endings: Seq<Ending>,
    blocks: Seq<BlockModel>,
)
    requires
        unique_keys(m.implicits),
        gathered(m.arms, endings),
        c1.variables == c.variables,
        blocks.len() == endings.len(),
        forall|j: int|
            0 <= j < endings.len() ==> #[trigger] blocks[j] == (BlockModel {
                inputs: endings[j].s.inputs,
                initial_refs: endings[j].s.initial_refs,
                statements: endings[j].s.statements,
                end: block_end(finalized(c, m), sealed_of(endings[j].s, endings[j].end)),
            }),
    ensures
        ({
            let tys = output_tys(finalized(c, m).info);
            outputs_made(endings, blocks, fresh_vars(c1, tys.len()), new_vars(b, c1, tys))
        }),
{
    let f = finalized(c, m);
    let tys = output_tys(f.info);
    let outputs = fresh_vars(c1, tys.len());
    let after = new_vars(b, c1, tys);
    let n = c.variables.len() as int;
    assert(after.variables.len() == n + outputs.len());
    if outputs.len() > 0 {
        assert(m.arms.len() > 0);
        let j0 = lemma_ending_of(m.arms, endings, 0);
        assert(blocks[j0].inputs == endings[j0].s.inputs);
        let p = f.implicit_pushes.len() as int;
        assert forall|k: int| 0 <= k < outputs.len() implies #[trigger] output_typed(
            endings,
            blocks,
            after,
            n,
            j0,
            k,
        ) by {
            assert(after.variables[n + k].ty == tys[k]);
            if k < p {
                let ty = f.implicit_pushes[k];
                assert(tys[k] == ty);
                lemma_passing_keys(m.implicits, implicit_push_test(m.arms), ty);
                lemma_implicit_tests(m.arms, endings, ty, lookup(m.implicits, ty)->0);
                assert(f.implicit_pushes.contains(ty));
                assert forall|j: int| 0 <= j < endings.len() && (
                #[trigger] endings[j]).comes_back() implies lookup(endings[j].s.implicits, ty)
                    == Some(given(blocks[j])[k]) by {
                    assert(blocks[j].inputs == endings[j].s.inputs);
                    assert(lookup(endings[j].s.implicits, ty) is Some);
                }
            } else {
                let v = given(blocks[j0])[k];
                if v.0 < n {
                    assert(after.variables[v.0 as int] == c.variables[v.0 as int]);
                }
            }
        }
        assert(outputs_typed(endings, blocks, outputs, after, j0));
    }
}

} // verus!

//! What a statement with blocks is: which blocks it runs, and what comes out of them.
use crate::collections::{begins, unique_keys};
use crate::diagnostics::DiagnosticAdded;
use crate::ids::{
    BlockId, ConcreteEnumId, ExprId, SyntaxStablePtrId, TypeId, VarId, VariableId, VariantId,
};
use crate::interner::interning_is_stable;
use crate::lowering::context::{flow_end, LoweringContextBuilder};
use crate::lowering::defined_once::outputs_of;
use crate::lowering::merging::{
    are_blocks_of, comes_together, gathered, lemma_comes_together, lemma_gathered_none,
    lemma_gathered_push, lemma_outputs_made, outputs_made, some_comes_back, Ending,
};
use crate::lowering::model::{
    add_enum_construct, add_match_enum, bind_refs, block_end, block_result, emptied, finalized,
    fresh_vars, id_of_type, mark_implicit_changed, merger_of, merger_with, new_var, new_vars,
    next_block, next_var, output_tys, push_statement, put_implicit, put_semantic_variable,
    sealed_of, subscope_of, with_block, with_extra, with_type, CallBlockResultModel, CtxModel,
    Failure, FinalizedModel, FlowModel, FlowStep, LoweredExprModel, MergerModel, ScopeEndModel,
    ScopeModel, SealedModel, Step,
};
use crate::lowering::objects::{
    BlockModel, LoweringDiagnostic, LoweringDiagnosticKind, StatementModel,
    StructuredStatementModel,
};
use crate::lowering::returning::{a_function_gives_back_implicits_and_references, gives_back};
use crate::lowering::steps::{
    after_blocks, arm_body, concrete_variants_from, err_arm, error_propagate, expr_var, expr_vars,
    finalize_blocks, from_block_result, full_return_vars, leave_with, lower_block, lower_branch,
    lower_branches, lower_enum_arm, lower_enum_arms, lower_expr_block, lower_expr_error_propagate,
    lower_expr_if, lower_expr_match, lower_expr_var, lower_match_felt, lower_pattern,
    lower_tail_expr, matched_enum, ok_arm, push_implicits, put_implicit_pairs, put_variable_pairs,
    put_variables, zip_arms, BranchKind, EndStep, Lowering,
};
use crate::outside::is_zero_bytes;
use crate::semantic::expr::{ExprBlock, ExprIf, ExprMatch, ExprPropagateError, MatchArm, Pattern};
use crate::semantic::types::{type_of, ConcreteTypeId, ConcreteVariant, TypeModel};
use vstd::prelude::*;

verus! {

// === A statement and its blocks ===

/// The scope that a block starts with, with inputs of the types: everything that the scope `s`
/// around the statement has, and no statements yet.
pub open spec fn starts(c: CtxModel, s: ScopeModel, tys: Seq<TypeId>) -> ScopeModel {
    ScopeModel {
        inputs: Seq::new(tys.len(), |i: int| VariableId((c.variables.len() + i) as usize)),
        initial_refs: s.implicits,
        statements: Seq::empty(),
        implicits: s.implicits,
        changed: Seq::empty(),
        vars: s.vars,
    }
}

/// Whether the lowering of a block ended so, in the state `c1`.
pub open spec fn ends_so(step: EndStep, c1: CtxModel, ending: Ending) -> bool {
    &&& step.c == c1
    &&& step.s == ending.s
    &&& step.r == Ok::<_, Failure>(ending.end)
}

/// The outputs of the last statement of the scope.
pub open spec fn last_outputs(s: ScopeModel) -> Seq<VariableId> {
    outputs_of(s.statements.last().statement)
}

/// Whether the step adds the statement, which runs the blocks that ended so, to the scope `before`,
/// and takes over what comes out of them. Its outputs are new variables. If none of the blocks comes
/// back, the flow ends.
pub open spec fn runs_blocks(
    before: ScopeModel,
    extra: Seq<VarId>,
    endings: Seq<Ending>,
    blocks: Seq<BlockModel>,
    statement: StatementModel,
    last: FlowStep<LoweredExprModel>,
) -> bool {
    let outputs = outputs_of(statement);
    &&& last.s.statements == before.statements.push(
        StructuredStatementModel { statement, refs: last.s.implicits },
    )
    &&& last.s.inputs == before.inputs
    &&& outputs_made(endings, blocks, outputs, last.c)
    &&& match last.r {
        Ok(value) => some_comes_back(endings) && comes_together(
            before,
            extra,
            endings,
            blocks,
            outputs,
            last.s,
            value,
        ),
        Err(f) => f is Unreachable && !some_comes_back(endings) && are_blocks_of(
            endings,
            blocks,
            outputs.len(),
        ),
    }
}

proof fn lemma_lists_frame(
    s: ScopeModel,
    tys: Seq<TypeId>,
    ids: Seq<VarId>,
    vars: Seq<VariableId>,
    implicits: Seq<(TypeId, VariableId)>,
    pairs: Seq<(VarId, VariableId)>,
    i: int,
)
    ensures
        push_implicits(s, tys, vars, i).statements == s.statements,
        push_implicits(s, tys, vars, i).inputs == s.inputs,
        put_variables(s, ids, vars, i).statements == s.statements,
        put_variables(s, ids, vars, i).inputs == s.inputs,
        put_implicit_pairs(s, implicits, i).statements == s.statements,
        put_implicit_pairs(s, implicits, i).inputs == s.inputs,
        put_variable_pairs(s, pairs, i).statements == s.statements,
        put_variable_pairs(s, pairs, i).inputs == s.inputs,
    decreases tys.len() + ids.len() + implicits.len() + pairs.len() - i,
{
    let n = tys.len() + ids.len() + implicits.len() + pairs.len();
    if 0 <= i < n {
        let s1 = mark_implicit_changed(
            put_implicit(s, tys[i], vars[i]),
            tys[i],
        );
        lemma_lists_frame(s1, tys, ids, vars, implicits, pairs, i + 1);
        let s2 = put_semantic_variable(s, ids[i], vars[i]);
        lemma_lists_frame(s2, tys, ids, vars, implicits, pairs, i + 1);
        let s3 = put_implicit(s, implicits[i].0, implicits[i].1);
        lemma_lists_frame(s3, tys, ids, vars, implicits, pairs, i + 1);
        let s4 = put_semantic_variable(s, pairs[i].0, pairs[i].1);
        lemma_lists_frame(s4, tys, ids, vars, implicits, pairs, i + 1);
    }
}

proof fn lemma_after_blocks_frame(s: ScopeModel, r: CallBlockResultModel, f: FinalizedModel)
    requires
        s.statements.len() > 0,
    ensures
        after_blocks(s, r, f).0.inputs == s.inputs,
        after_blocks(s, r, f).0.statements == s.statements.drop_last().push(
            StructuredStatementModel {
                statement: s.statements.last().statement,
                refs: after_blocks(s, r, f).0.implicits,
            },
        ),
{
    match r {
        CallBlockResultModel::Callsite { maybe_output, pushes } => {
            let n = f.implicit_pushes.len() as int;
            let s1 = push_implicits(s, f.implicit_pushes, pushes, 0);
            let s2 = put_variables(s1, f.var_pushes, pushes.skip(n), 0);
            let s3 = put_implicit_pairs(s2, f.unchanged, 0);
            lemma_lists_frame(
                s,
                f.implicit_pushes,
                f.var_pushes,
                pushes,
                f.unchanged,
                f.bring_back,
                0,
            );
            lemma_lists_frame(
                s1,
                f.implicit_pushes,
                f.var_pushes,
                pushes.skip(n),
                f.unchanged,
                f.bring_back,
                0,
            );
            lemma_lists_frame(
                s2,
                f.implicit_pushes,
                f.var_pushes,
                pushes,
                f.unchanged,
                f.bring_back,
                0,
            );
            lemma_lists_frame(
                s3,
                f.implicit_pushes,
                f.var_pushes,
                pushes,
                f.unchanged,
                f.bring_back,
                0,
            );
        },
        CallBlockResultModel::End => {},
    }
}

/// The block that is added for a sealed one.
pub open spec fn added_block(f: FinalizedModel, sealed: SealedModel) -> BlockModel {
    BlockModel {
        inputs: sealed.inputs,
        initial_refs: sealed.initial_refs,
        statements: sealed.statements,
        end: block_end(f, sealed),
    }
}

/// A statement that runs the blocks that ended so.
pub proof fn lemma_runs_blocks(
    b: &LoweringContextBuilder,
    c: CtxModel,
    c1: CtxModel,
    m: MergerModel,
    before: ScopeModel,
    extra: Seq<VarId>,
    endings: Seq<Ending>,
    blocks: Seq<BlockModel>,
    statement: StatementModel,
    step: Step<CallBlockResultModel>,
)
    requires
        unique_keys(before.vars),
        unique_keys(before.implicits),
        m.implicits == before.implicits,
        m.vars == with_extra(before.vars, extra, 0),
        gathered(m.arms, endings),
        blocks.len() == endings.len(),
        forall|j: int|
            0 <= j < endings.len() ==> #[trigger] blocks[j] == added_block(
                finalized(c, m),
                sealed_of(endings[j].s, endings[j].end),
            ),
        c1.variables == c.variables,
        step.c == new_vars(b, c1, output_tys(finalized(c, m).info)),
        step.s == push_statement(emptied(before), statement),
        step.r == block_result(c1, finalized(c, m).info),
        outputs_of(statement) == fresh_vars(c1, output_tys(finalized(c, m).info).len()),
    ensures
        ({
            let last = from_block_result(step, finalized(c, m));
            &&& last.c == step.c
            &&& last_outputs(last.s) == outputs_of(statement)
            &&& runs_blocks(before, extra, endings, blocks, statement, last)
        }),
{
    let f = finalized(c, m);
    lemma_after_blocks_frame(step.s, step.r, f);
    lemma_comes_together(c, c1, m, before, extra, endings, blocks, step.s);
    lemma_outputs_made(b, c, c1, m, endings, blocks);
    assert(step.s.statements.drop_last() =~= before.statements);
}

pub proof fn lemma_finalize_blocks(
    c: CtxModel,
    f: FinalizedModel,
    sealed: Seq<SealedModel>,
    i: int,
    ids: Seq<BlockId>,
)
    requires
        0 <= i <= sealed.len(),
        ids.len() == i,
    ensures
        ({
            let (c1, all) = finalize_blocks(c, f, sealed, i, ids);
            let rest = Seq::new(
                (sealed.len() - i) as nat,
                |j: int| added_block(f, sealed[i + j]),
            );
            &&& c1 == (CtxModel { blocks: c.blocks + rest, ..c })
            &&& all.len() == sealed.len()
            &&& forall|j: int| 0 <= j < i ==> all[j] == ids[j]
            &&& forall|j: int|
                i <= j < sealed.len() ==> #[trigger] all[j] == BlockId(
                    (c.blocks.len() + j - i) as usize,
                )
        }),
    decreases sealed.len() - i,
{
    let rest = Seq::new((sealed.len() - i) as nat, |j: int| added_block(f, sealed[i + j]));
    if i < sealed.len() {
        let c1 = with_block(c, f, sealed[i]);
        let ids1 = ids.push(next_block(c));
        lemma_finalize_blocks(c1, f, sealed, i + 1, ids1);
        let rest1 = Seq::new(
            (sealed.len() - i - 1) as nat,
            |j: int| added_block(f, sealed[i + 1 + j]),
        );
        assert(c.blocks + rest =~= c1.blocks + rest1);
        let all = finalize_blocks(c, f, sealed, i, ids).1;
        assert(all[i] == ids1[i]);
        assert forall|j: int| 0 <= j < i implies all[j] == ids[j] by {
            assert(ids1[j] == ids[j]);
        }
    } else {
        assert(c.blocks + rest =~= c.blocks);
    }
}

// === Two branches ===

/// Whether the expression, in a block of its own, ended so.
pub open spec fn branch_ends(
    b: &LoweringContextBuilder,
    c: CtxModel,
    s: ScopeModel,
    l: Lowering,
    tys: Seq<TypeId>,
    e: ExprId,
    c1: CtxModel,
    ending: Ending,
) -> bool {
    ends_so(
        lower_tail_expr(b, new_vars(b, c, tys), starts(c, s, tys), l, Some(e), false),
        c1,
        ending,
    )
}

/// The statement that decides between two blocks, of which the first is that of the first branch.
pub open spec fn deciding(
    b: &LoweringContextBuilder,
    kind: BranchKind,
    first: BlockId,
    second: BlockId,
    outputs: Seq<VariableId>,
) -> StatementModel {
    match kind {
        BranchKind::FeltZero { input } => StatementModel::MatchExtern {
            function: b.db.core.jump_nz_func,
            inputs: seq![input],
            arms: seq![
                (b.db.core.jump_nz_zero_variant, first),
                (b.db.core.jump_nz_nonzero_variant, second),
            ],
            outputs,
        },
        BranchKind::If { input } => StatementModel::MatchEnum {
            concrete_enum_id: b.db.core.bool_enum,
            input,
            arms: seq![(b.db.core.false_variant, second), (b.db.core.true_variant, first)],
            outputs,
        },
    }
}

/// Whether the two branches are lowered to blocks of their own, each from the scope `s` and one
/// after the other, and a statement that decides between them.
pub open spec fn two_branches(
    b: &LoweringContextBuilder,
    c: CtxModel,
    s: ScopeModel,
    l: Lowering,
    first: (Seq<TypeId>, ExprId),
    second: (Seq<TypeId>, ExprId),
    kind: BranchKind,
    last: FlowStep<LoweredExprModel>,
) -> bool {
    exists|c1: CtxModel, one: Ending, c2: CtxModel, two: Ending|
        {
            &&& #[trigger] branch_ends(b, c, s, l, first.0, first.1, c1, one)
            &&& #[trigger] branch_ends(b, c1, s, l, second.0, second.1, c2, two)
            &&& begins(c2.blocks, last.c.blocks)
            &&& runs_blocks(
                s,
                Seq::empty(),
                seq![one, two],
                last.c.blocks.skip(c2.blocks.len() as int),
                deciding(
                    b,
                    kind,
                    BlockId(c2.blocks.len() as usize),
                    BlockId((c2.blocks.len() + 1) as usize),
                    last_outputs(last.s),
                ),
                last,
            )
        }
}

/// Two branches that do not fail come together: the first one runs for zero, or for true, and what
/// they do to the variables of the source and the implicits comes out of the statement.
pub proof fn two_branches_come_together(
    b: &LoweringContextBuilder,
    c: CtxModel,
    s: ScopeModel,
    l: Lowering,
    first: (Seq<TypeId>, ExprId),
    second: (Seq<TypeId>, ExprId),
    kind: BranchKind,
)
    requires
        unique_keys(s.vars),
        unique_keys(s.implicits),
        lower_branches(b, c, s, l, first, second, kind).r matches Err(f) ==> f !is Failed,
    ensures
        two_branches(
            b,
            c,
            s,
            l,
            first,
            second,
            kind,
            lower_branches(b, c, s, l, first, second, kind),
        ),
{
    reveal(lower_branches);
    reveal(lower_branch);
    let last = lower_branches(b, c, s, l, first, second, kind);
    let m0 = merger_of(s, Seq::empty());
    assert(with_extra(s.vars, Seq::empty(), 0) == s.vars);
    let step1 = lower_tail_expr(
        b,
        new_vars(b, c, first.0),
        starts(c, s, first.0),
        l,
        Some(first.1),
        false,
    );
    let end1 = step1.r->Ok_0;
    let one = lower_branch(b, c, m0, l, first.0, first.1);
    assert(starts(c, s, first.0).inputs =~= fresh_vars(c, first.0.len()));
    let e1 = Ending { s: step1.s, end: end1 };
    let two = lower_branch(b, one.c, one.m, l, second.0, second.1);
    let step2 = lower_tail_expr(
        b,
        new_vars(b, one.c, second.0),
        starts(one.c, s, second.0),
        l,
        Some(second.1),
        false,
    );
    let end2 = step2.r->Ok_0;
    let e2 = Ending { s: step2.s, end: end2 };
    assert(starts(one.c, s, second.0).inputs =~= fresh_vars(one.c, second.0.len()));
    lemma_gathered_none(m0.arms);
    lemma_gathered_push(m0, Seq::empty(), step1.s, end1);
    assert(one.r is Ok && two.r is Ok);
    assert(one.m == merger_with(m0, step1.s, end1));
    lemma_gathered_push(one.m, Seq::empty().push(e1), step2.s, end2);
    assert(Seq::<Ending>::empty().push(e1).push(e2) =~= seq![e1, e2]);
    let f = finalized(two.c, two.m);
    let x = sealed_of(step1.s, end1);
    let y = sealed_of(step2.s, end2);
    let c1 = with_block(two.c, f, x);
    let c2 = with_block(c1, f, y);
    let n = two.c.blocks.len();
    let outputs = fresh_vars(c2, output_tys(f.info).len());
    let blocks = seq![added_block(f, x), added_block(f, y)];
    let statement = deciding(
        b,
        kind,
        BlockId(n as usize),
        BlockId((n + 1) as usize),
        outputs,
    );
    let step = Step {
        c: new_vars(b, c2, output_tys(f.info)),
        s: push_statement(emptied(s), statement),
        r: block_result(c2, f.info),
    };
    assert(last == from_block_result(step, f));
    lemma_runs_blocks(b, two.c, c2, two.m, s, Seq::empty(), seq![e1, e2], blocks, statement, step);
    assert(blocks =~= last.c.blocks.skip(n as int));
    assert(branch_ends(b, c, s, l, first.0, first.1, one.c, e1));
    assert(branch_ends(b, one.c, s, l, second.0, second.1, two.c, e2));
}

/// A condition runs its first block if it is true, and the other one if it is false.
pub proof fn a_condition_runs_one_of_its_blocks(
    b: &LoweringContextBuilder,
    c: CtxModel,
    s: ScopeModel,
    l: Lowering,
    e: ExprIf,
)
    requires
        unique_keys(lower_expr_var(b, c, s, l, e.condition).s.vars),
        unique_keys(lower_expr_var(b, c, s, l, e.condition).s.implicits),
        lower_expr_if(b, c, s, l, e).r matches Err(f) ==> f !is Failed,
    ensures
        ({
            let cond = lower_expr_var(b, c, s, l, e.condition);
            let unit = seq![b.db.core.unit_ty];
            match cond.r {
                Err(f) => lower_expr_if(b, c, s, l, e) == (Step {
                    c: cond.c,
                    s: cond.s,
                    r: Err::<LoweredExprModel, FlowModel>(f),
                }),
                Ok(v) => two_branches(
                    b,
                    cond.c,
                    cond.s,
                    l,
                    (unit, e.if_block),
                    (unit, e.else_block),
                    BranchKind::If { input: v },
                    lower_expr_if(b, c, s, l, e),
                ),
            }
        }),
{
    reveal(lower_expr_if);
    let cond = lower_expr_var(b, c, s, l, e.condition);
    let unit = seq![b.db.core.unit_ty];
    if let Ok(v) = cond.r {
        two_branches_come_together(
            b,
            cond.c,
            cond.s,
            l,
            (unit, e.if_block),
            (unit, e.else_block),
            BranchKind::If { input: v },
        );
    }
}

/// A match of a felt has a lowering only if its arms are a literal and a wildcard, and the literal
/// is zero. Then the first arm runs for zero and the second one for any other value, which it gets.
/// Otherwise it is reported what is wrong, and where.
pub proof fn a_felt_is_matched_with_zero(
    b: &LoweringContextBuilder,
    c: CtxModel,
    s: ScopeModel,
    l: Lowering,
    e: ExprMatch,
    v: VariableId,
)
    requires
        unique_keys(s.vars),
        unique_keys(s.implicits),
    ensures
        ({
            let last = lower_match_felt(b, c, s, l, e, v);
            let arms = e.arms@;
            let reported = |ptr: SyntaxStablePtrId, kind: LoweringDiagnosticKind|
                {
                    &&& last.r == Err::<LoweredExprModel, FlowModel>(
                        FlowModel::Failed(Failure::Diagnosed),
                    )
                    &&& last.s == s
                    &&& last.c == (CtxModel {
                        diagnostics: c.diagnostics.push(
                            LoweringDiagnostic { stable_ptr: ptr, kind },
                        ),
                        ..c
                    })
                };
            if arms.len() == 2 && arms[0].pattern is Literal && arms[1].pattern is Otherwise {
                let literal = arms[0].pattern->Literal_0.literal;
                if exists|i: int|
                    0 <= i < literal.value@.len() && #[trigger] literal.value@[i] != 0 {
                    reported(literal.stable_ptr, LoweringDiagnosticKind::NonZeroValueInMatch)
                } else {
                    (last.r matches Err(f) ==> f !is Failed) ==> two_branches(
                        b,
                        c,
                        s,
                        l,
                        (Seq::empty(), arms[0].expression),
                        (seq![b.db.core.nonzero_felt_ty], arms[1].expression),
                        BranchKind::FeltZero { input: v },
                        last,
                    )
                }
            } else {
                reported(e.stable_ptr, LoweringDiagnosticKind::OnlyMatchZeroIsSupported)
            }
        }),
{
    reveal(lower_match_felt);
    let arms = e.arms@;
    let last = lower_match_felt(b, c, s, l, e, v);
    if arms.len() == 2 && arms[0].pattern is Literal && arms[1].pattern is Otherwise {
        let literal = arms[0].pattern->Literal_0.literal;
        if is_zero_bytes(literal.value@) && (last.r matches Err(f) ==> f !is Failed) {
            two_branches_come_together(
                b,
                c,
                s,
                l,
                (Seq::empty(), arms[0].expression),
                (seq![b.db.core.nonzero_felt_ty], arms[1].expression),
                BranchKind::FeltZero { input: v },
            );
        }
    }
}

// === A block ===

/// A block expression is lowered to a block of its own, from the scope around it, and a statement
/// that runs it.
pub proof fn a_block_runs_once(
    b: &LoweringContextBuilder,
    c: CtxModel,
    s: ScopeModel,
    l: Lowering,
    e: ExprBlock,
)
    requires
        unique_keys(s.vars),
        unique_keys(s.implicits),
        lower_expr_block(b, c, s, l, e).r matches Err(f) ==> f !is Failed,
    ensures
        ({
            let last = lower_expr_block(b, c, s, l, e);
            exists|c1: CtxModel, one: Ending|
                {
                    &&& #[trigger] ends_so(
                        lower_block(b, c, starts(c, s, Seq::empty()), l, e, false, 0),
                        c1,
                        one,
                    )
                    &&& begins(c1.blocks, last.c.blocks)
                    &&& runs_blocks(
                        s,
                        Seq::empty(),
                        seq![one],
                        last.c.blocks.skip(c1.blocks.len() as int),
                        StatementModel::CallBlock {
                            block: BlockId(c1.blocks.len() as usize),
                            outputs: last_outputs(last.s),
                        },
                        last,
                    )
                }
        }),
{
    reveal(lower_expr_block);
    let last = lower_expr_block(b, c, s, l, e);
    let m0 = merger_of(s, Seq::empty());
    assert(with_extra(s.vars, Seq::empty(), 0) == s.vars);
    let start = starts(c, s, Seq::empty());
    assert(start.inputs =~= fresh_vars(c, 0));
    assert(start == bind_refs(subscope_of(c, m0, Seq::empty())));
    assert(new_vars(b, c, Seq::empty()).variables =~= c.variables);
    assert(new_vars(b, c, Seq::empty()) == c);
    let step1 = lower_block(b, c, start, l, e, false, 0);
    let end = step1.r->Ok_0;
    let e1 = Ending { s: step1.s, end };
    lemma_gathered_none(m0.arms);
    lemma_gathered_push(m0, Seq::empty(), step1.s, end);
    assert(Seq::<Ending>::empty().push(e1) =~= seq![e1]);
    let m = merger_with(m0, step1.s, end);
    let f = finalized(step1.c, m);
    let x = sealed_of(step1.s, end);
    let c1 = with_block(step1.c, f, x);
    let n = step1.c.blocks.len();
    let outputs = fresh_vars(c1, output_tys(f.info).len());
    let blocks = seq![added_block(f, x)];
    let statement = StatementModel::CallBlock { block: BlockId(n as usize), outputs };
    let step = Step {
        c: new_vars(b, c1, output_tys(f.info)),
        s: push_statement(emptied(s), statement),
        r: block_result(c1, f.info),
    };
    assert(last == from_block_result(step, f));
    lemma_runs_blocks(b, step1.c, c1, m, s, Seq::empty(), seq![e1], blocks, statement, step);
    assert(blocks =~= last.c.blocks.skip(n as int));
    assert(ends_so(step1, step1.c, e1));
}

// === Error propagation ===

/// The statement that goes on with the value in the first block and leaves the function in the
/// second.
pub open spec fn propagating(
    ok_variant: ConcreteVariant,
    err_variant: ConcreteVariant,
    input: VariableId,
    n: nat,
    outputs: Seq<VariableId>,
) -> StatementModel {
    StatementModel::MatchEnum {
        concrete_enum_id: ok_variant.concrete_enum_id,
        input,
        arms: seq![
            (ok_variant, BlockId(n as usize)),
            (err_variant, BlockId((n + 1) as usize)),
        ],
        outputs,
    }
}

/// Whether the block, when it ended so, has made the value of the variant out of `input` with its
/// last statement, and leaves the function with this value and nothing else.
pub open spec fn leaves_with(
    c: CtxModel,
    ending: Ending,
    input: VariableId,
    variant: ConcreteVariant,
) -> bool {
    let statements = ending.s.statements;
    &&& statements.len() > 0
    &&& match statements.last().statement {
        StatementModel::EnumConstruct { variant: made, input: from, output } => {
            &&& made == variant
            &&& from == input
            &&& ending.end is Return
            &&& ending.end->returned == seq![output]
            &&& output.0 < c.variables.len()
            &&& type_of(c.types, c.variables[output.0 as int].ty) == Some(
                TypeModel::Concrete(ConcreteTypeId::Enum(variant.concrete_enum_id)),
            )
        },
        _ => false,
    }
}

/// Whether the state has a variable of the type in `v`.
pub open spec fn is_of_type(c: CtxModel, v: VariableId, ty: TypeId) -> bool {
    v.0 < c.variables.len() && c.variables[v.0 as int].ty == ty
}

/// The block of an error: it makes the value of the variant of the function, and returns it.
pub proof fn lemma_leave_with(
    b: &LoweringContextBuilder,
    c: CtxModel,
    s: ScopeModel,
    m: MergerModel,
    input: VariableId,
    variant: ConcreteVariant,
) -> (ending: Ending)
    requires
        b.implicits@.no_duplicates(),
        leave_with(b, c, s, m, input, variant).r is Ok,
    ensures
        ({
            let step = leave_with(b, c, s, m, input, variant);
            let t = TypeModel::Concrete(ConcreteTypeId::Enum(variant.concrete_enum_id));
            &&& step.r->Ok_0 == sealed_of(ending.s, ending.end)
            &&& step.m == merger_with(m, ending.s, ending.end)
            &&& !ending.comes_back()
            &&& step.c == new_var(b, with_type(c, t), id_of_type(c, t))
            &&& ending.s.inputs == s.inputs
            &&& ending.s.statements == s.statements.push(
                StructuredStatementModel {
                    statement: StatementModel::EnumConstruct {
                        variant,
                        input,
                        output: next_var(c),
                    },
                    refs: s.implicits,
                },
            )
            &&& ending.end is Return
            &&& ending.end->returned == seq![next_var(c)]
            &&& gives_back(b, s, ending.end->Return_refs)
        }),
{
    let value = add_enum_construct(b, c, s, input, variant);
    let at = LoweredExprModel::AtVariable(value.r);
    let full = full_return_vars(b, value.c, value.s, at);
    reveal(expr_var);
    reveal(expr_vars);
    a_function_gives_back_implicits_and_references(b, value.c, value.s, at);
    let (refs, returned) = full.r->Ok_0;
    Ending { s: full.s, end: ScopeEndModel::Return { refs, returned } }
}

pub proof fn lemma_new_enum_type(b: &LoweringContextBuilder, c: CtxModel, variant: ConcreteVariant)
    requires
        with_type(
            c,
            TypeModel::Concrete(ConcreteTypeId::Enum(variant.concrete_enum_id)),
        ).types.len() <= usize::MAX,
    ensures
        ({
            let t = TypeModel::Concrete(ConcreteTypeId::Enum(variant.concrete_enum_id));
            type_of(with_type(c, t).types, id_of_type(c, t)) == Some(t)
        }),
{
    let t = TypeModel::Concrete(ConcreteTypeId::Enum(variant.concrete_enum_id));
    interning_is_stable(c.types, t);
}

/// Whether the step propagates the error of the value in `v`. It runs one of two blocks. The one for
/// the variant of the value gets the value and comes back with it. The one for the variant of the
/// error gets the error, makes the error of the function's own type out of it, and returns this and
/// nothing else, with what the function gives back.
pub open spec fn leaves_on_error(
    b: &LoweringContextBuilder,
    c: CtxModel,
    s: ScopeModel,
    v: VariableId,
    ok_variant: ConcreteVariant,
    err_variant: ConcreteVariant,
    func_err_variant: ConcreteVariant,
    last: FlowStep<LoweredExprModel>,
) -> bool {
    let n = c.variables.len();
    let at = c.blocks.len();
    let ok_input = VariableId(n as usize);
    let err_input = VariableId((n + 1) as usize);
    let one = Ending {
        s: starts(c, s, seq![ok_variant.ty]),
        end: ScopeEndModel::Callsite(Some(ok_input)),
    };
    exists|two: Ending|
        {
            &&& begins(c.blocks, last.c.blocks)
            &&& #[trigger] runs_blocks(
                s,
                Seq::empty(),
                seq![one].push(two),
                last.c.blocks.skip(at as int),
                propagating(ok_variant, err_variant, v, at, last_outputs(last.s)),
                last,
            )
            &&& is_of_type(last.c, ok_input, ok_variant.ty)
            &&& is_of_type(last.c, err_input, err_variant.ty)
            &&& two.s.inputs == seq![err_input]
            &&& two.s.statements.len() == 1
            &&& leaves_with(last.c, two, err_input, func_err_variant)
            &&& gives_back(b, s, two.end->Return_refs)
        }
}

/// The error of a value that is in a variable, or can be stored in one, leaves the function.
pub proof fn an_error_leaves_the_function(
    b: &LoweringContextBuilder,
    c: CtxModel,
    s: ScopeModel,
    e: LoweredExprModel,
    ok_variant: ConcreteVariant,
    err_variant: ConcreteVariant,
    func_err_variant: ConcreteVariant,
)
    requires
        e !is ExternEnum,
        unique_keys(expr_var(b, c, s, e).s.vars),
        unique_keys(expr_var(b, c, s, e).s.implicits),
        b.implicits@.no_duplicates(),
        ({
            let last = error_propagate(b, c, s, e, ok_variant, err_variant, func_err_variant);
            &&& last.r matches Err(f) ==> f !is Failed
            &&& last.c.variables.len() <= usize::MAX
            &&& last.c.types.len() <= usize::MAX
        }),
    ensures
        ({
            let value = expr_var(b, c, s, e);
            let last = error_propagate(b, c, s, e, ok_variant, err_variant, func_err_variant);
            match value.r {
                Err(f) => last.r == Err::<LoweredExprModel, FlowModel>(f),
                Ok(v) => leaves_on_error(
                    b,
                    value.c,
                    value.s,
                    v,
                    ok_variant,
                    err_variant,
                    func_err_variant,
                    last,
                ),
            }
        }),
{
    reveal(error_propagate);
    let last = error_propagate(b, c, s, e, ok_variant, err_variant, func_err_variant);
    let value = expr_var(b, c, s, e);
    if let Ok(v) = value.r {
        let n = value.c.variables.len();
        let c0 = value.c;
        let at = c0.blocks.len();
        let m0 = merger_of(value.s, Seq::empty());
        assert(with_extra(value.s.vars, Seq::empty(), 0) == value.s.vars);
        let ok_tys = seq![ok_variant.ty];
        let err_tys = seq![err_variant.ty];
        let start = starts(c0, value.s, ok_tys);
        assert(start.inputs =~= fresh_vars(c0, 1));
        assert(start == bind_refs(subscope_of(c0, m0, ok_tys)));
        let end = ScopeEndModel::Callsite(Some(start.inputs[0]));
        let e1 = Ending { s: start, end };
        lemma_gathered_none(m0.arms);
        lemma_gathered_push(m0, Seq::empty(), start, end);
        let one = ok_arm(b, c0, m0, ok_variant);
        let c1 = new_vars(b, c0, ok_tys);
        let start2 = starts(c1, value.s, err_tys);
        assert(start2.inputs =~= fresh_vars(c1, 1));
        assert(start2 == bind_refs(subscope_of(c1, one.m, err_tys)));
        let c2 = new_vars(b, c1, err_tys);
        let two = err_arm(b, one.c, one.m, err_variant, func_err_variant);
        let e2 = lemma_leave_with(
            b,
            c2,
            start2,
            one.m,
            start2.inputs[0],
            func_err_variant,
        );
        lemma_gathered_push(one.m, Seq::empty().push(e1), e2.s, e2.end);
        let endings = seq![e1].push(e2);
        assert(Seq::<Ending>::empty().push(e1).push(e2) =~= endings);
        let f = finalized(two.c, two.m);
        let sealed = seq![sealed_of(start, end), sealed_of(e2.s, e2.end)];
        assert(sealed =~= seq![one.r->Ok_0, two.r->Ok_0]);
        lemma_finalize_blocks(two.c, f, sealed, 0, Seq::empty());
        let (c3, ids) = finalize_blocks(two.c, f, sealed, 0, Seq::empty());
        let blocks = seq![added_block(f, sealed[0]), added_block(f, sealed[1])];
        assert(c3.blocks =~= c0.blocks + blocks);
        let variants = seq![ok_variant, err_variant];
        let outputs = fresh_vars(c3, output_tys(f.info).len());
        let statement = propagating(ok_variant, err_variant, v, at, outputs);
        assert(zip_arms(variants, ids) =~= statement->MatchEnum_arms);
        let step = add_match_enum(
            b,
            c3,
            emptied(value.s),
            ok_variant.concrete_enum_id,
            v,
            zip_arms(variants, ids),
            f.info,
        );
        assert(last == from_block_result(step, f));
        lemma_runs_blocks(
            b,
            two.c,
            c3,
            two.m,
            value.s,
            Seq::empty(),
            endings,
            blocks,
            statement,
            step,
        );
        assert(blocks =~= last.c.blocks.skip(at as int));
        lemma_new_enum_type(b, c2, func_err_variant);
        assert(last.c.types == two.c.types);
        assert(last.c.variables[n as int] == two.c.variables[n as int]);
        assert(last.c.variables[(n + 1) as int] == two.c.variables[(n + 1) as int]);
        assert(last.c.variables[(n + 2) as int] == two.c.variables[(n + 2) as int]);
        assert(e2.s.inputs =~= seq![VariableId((n + 1) as usize)]);
        assert(gives_back(b, value.s, e2.end->Return_refs));
        assert(leaves_with(last.c, e2, VariableId((n + 1) as usize), func_err_variant));
    }
}

/// The expression `e?` propagates the error of `e`, from the variants of the type of `e` to the
/// variant of the error of the function.
pub proof fn a_question_mark_propagates_the_error(
    b: &LoweringContextBuilder,
    c: CtxModel,
    s: ScopeModel,
    l: Lowering,
    e: ExprPropagateError,
)
    requires
        b.implicits@.no_duplicates(),
        ({
            let inner = l(c, s, e.inner);
            let value = expr_var(b, inner.c, inner.s, inner.r->Ok_0);
            let last = lower_expr_error_propagate(b, c, s, l, e);
            &&& inner.r matches Ok(x) ==> x !is ExternEnum
            &&& unique_keys(value.s.vars)
            &&& unique_keys(value.s.implicits)
            &&& last.r matches Err(f) ==> f !is Failed
            &&& last.c.variables.len() <= usize::MAX
            &&& last.c.types.len() <= usize::MAX
        }),
    ensures
        ({
            let inner = l(c, s, e.inner);
            let value = expr_var(b, inner.c, inner.s, inner.r->Ok_0);
            let last = lower_expr_error_propagate(b, c, s, l, e);
            match inner.r {
                Err(f) => last.r == Err::<LoweredExprModel, FlowModel>(f),
                Ok(_) => match value.r {
                    Err(f) => last.r == Err::<LoweredExprModel, FlowModel>(f),
                    Ok(v) => leaves_on_error(
                        b,
                        value.c,
                        value.s,
                        v,
                        e.ok_variant,
                        e.err_variant,
                        e.func_err_variant,
                        last,
                    ),
                },
            }
        }),
{
    reveal(lower_expr_error_propagate);
    let inner = l(c, s, e.inner);
    if let Ok(x) = inner.r {
        an_error_leaves_the_function(
            b,
            inner.c,
            inner.s,
            x,
            e.ok_variant,
            e.err_variant,
            e.func_err_variant,
        );
    }
}

// === A match on an enum ===

/// Whether the block of an arm ended so: what comes in is bound to the pattern, and the expression
/// of the arm is lowered after that.
pub open spec fn arm_goes(
    b: &LoweringContextBuilder,
    c: CtxModel,
    s: ScopeModel,
    l: Lowering,
    inner: Pattern,
    value: LoweredExprModel,
    expression: ExprId,
    c1: CtxModel,
    ending: Ending,
) -> bool {
    let bound = lower_pattern(b, c, s, inner, value);
    match bound.r {
        Ok(_) => ends_so(
            lower_tail_expr(b, bound.c, bound.s, l, Some(expression), false),
            c1,
            ending,
        ),
        Err(f) => bound.c == c1 && bound.s == ending.s && flow_end(f) == Ok::<_, Failure>(
            ending.end,
        ),
    }
}

/// Whether the block of the arm for the variant ended so. It has one input, of the type of the
/// variant, and the pattern of the arm is that variant.
pub open spec fn arm_ends(
    b: &LoweringContextBuilder,
    c: CtxModel,
    s: ScopeModel,
    l: Lowering,
    variant: ConcreteVariant,
    arm: MatchArm,
    c1: CtxModel,
    ending: Ending,
) -> bool {
    let start = starts(c, s, seq![variant.ty]);
    &&& arm.pattern is EnumVariant
    &&& arm.pattern->EnumVariant_0.variant == variant
    &&& arm_goes(
        b,
        new_vars(b, c, seq![variant.ty]),
        start,
        l,
        *arm.pattern->EnumVariant_0.inner_pattern,
        LoweredExprModel::AtVariable(start.inputs[0]),
        arm.expression,
        c1,
        ending,
    )
}

/// Whether the blocks of the arms ended so, one after the other: that of the arm `i`, which is for
/// the variant `i`, takes the state `i` to the next one.
pub open spec fn arms_end(
    b: &LoweringContextBuilder,
    s: ScopeModel,
    l: Lowering,
    variants: Seq<ConcreteVariant>,
    arms: Seq<MatchArm>,
    states: Seq<CtxModel>,
    endings: Seq<Ending>,
) -> bool {
    &&& states.len() == endings.len() + 1
    &&& forall|i: int|
        0 <= i < endings.len() ==> arm_ends(
            b,
            states[i],
            s,
            l,
            variants[i],
            arms[i],
            states[i + 1],
            #[trigger] endings[i],
        )
}

/// The pairs of the variants and the blocks from the number `n` on.
pub open spec fn in_turn(variants: Seq<ConcreteVariant>, n: nat) -> Seq<
    (ConcreteVariant, BlockId),
> {
    Seq::new(variants.len(), |i: int| (variants[i], BlockId((n + i) as usize)))
}

/// The sealed blocks of those that ended so.
pub open spec fn all_sealed(endings: Seq<Ending>) -> Seq<SealedModel> {
    endings.map_values(|e: Ending| sealed_of(e.s, e.end))
}

proof fn lemma_enum_arm(
    b: &LoweringContextBuilder,
    c: CtxModel,
    s: ScopeModel,
    m: MergerModel,
    l: Lowering,
    variant: ConcreteVariant,
    arm: MatchArm,
    ptr: SyntaxStablePtrId,
) -> (ending: Ending)
    requires
        m.vars == s.vars,
        m.implicits == s.implicits,
        lower_enum_arm(b, c, m, l, variant, arm, ptr).r is Ok,
    ensures
        ({
            let step = lower_enum_arm(b, c, m, l, variant, arm, ptr);
            &&& arm_ends(b, c, s, l, variant, arm, step.c, ending)
            &&& step.r->Ok_0 == sealed_of(ending.s, ending.end)
            &&& step.m == merger_with(m, ending.s, ending.end)
        }),
{
    reveal(lower_enum_arm);
    reveal(arm_body);
    let tys = seq![variant.ty];
    let start = starts(c, s, tys);
    assert(start.inputs =~= fresh_vars(c, 1));
    assert(start == bind_refs(subscope_of(c, m, tys)));
    let p = arm.pattern->EnumVariant_0;
    let body = arm_body(
        b,
        new_vars(b, c, tys),
        start,
        l,
        *p.inner_pattern,
        LoweredExprModel::AtVariable(start.inputs[0]),
        arm.expression,
    );
    Ending { s: body.s, end: body.r->Ok_0 }
}

proof fn lemma_enum_arms(
    b: &LoweringContextBuilder,
    s: ScopeModel,
    m: MergerModel,
    l: Lowering,
    variants: Seq<ConcreteVariant>,
    arms: Seq<MatchArm>,
    ptr: SyntaxStablePtrId,
    states: Seq<CtxModel>,
    endings: Seq<Ending>,
) -> (r: (Seq<CtxModel>, Seq<Ending>))
    requires
        m.vars == s.vars,
        m.implicits == s.implicits,
        gathered(m.arms, endings),
        endings.len() <= variants.len(),
        arms_end(b, s, l, variants, arms, states, endings),
        lower_enum_arms(
            b,
            states.last(),
            m,
            l,
            variants,
            arms,
            ptr,
            endings.len() as int,
            all_sealed(endings),
        ).r is Ok,
    ensures
        ({
            let step = lower_enum_arms(
                b,
                states.last(),
                m,
                l,
                variants,
                arms,
                ptr,
                endings.len() as int,
                all_sealed(endings),
            );
            &&& arms_end(b, s, l, variants, arms, r.0, r.1)
            &&& r.0[0] == states[0]
            &&& r.0.last() == step.c
            &&& r.1.len() == variants.len()
            &&& step.r->Ok_0 == all_sealed(r.1)
            &&& gathered(step.m.arms, r.1)
            &&& step.m.vars == s.vars
            &&& step.m.implicits == s.implicits
        }),
    decreases variants.len() - endings.len(),
{
    reveal(lower_enum_arms);
    let i = endings.len() as int;
    let c = states.last();
    if i < variants.len() {
        let step = lower_enum_arm(b, c, m, l, variants[i], arms[i], ptr);
        let e = lemma_enum_arm(b, c, s, m, l, variants[i], arms[i], ptr);
        let states1 = states.push(step.c);
        let endings1 = endings.push(e);
        assert forall|k: int| 0 <= k < endings1.len() implies arm_ends(
            b,
            states1[k],
            s,
            l,
            variants[k],
            arms[k],
            states1[k + 1],
            #[trigger] endings1[k],
        ) by {
            if k < i {
                assert(endings1[k] == endings[k]);
                assert(states1[k] == states[k] && states1[k + 1] == states[k + 1]);
            }
        }
        lemma_gathered_push(m, endings, e.s, e.end);
        assert(all_sealed(endings).push(step.r->Ok_0) =~= all_sealed(endings1));
        lemma_enum_arms(b, s, step.m, l, variants, arms, ptr, states1, endings1)
    } else {
        (states, endings)
    }
}

/// The variants of an enum are those that it declares, in their order, each with the arguments of
/// the enum.
pub open spec fn are_variants_of(
    b: &LoweringContextBuilder,
    id: ConcreteEnumId,
    variants: Seq<ConcreteVariant>,
) -> bool {
    let enum_id = b.db.concrete_enums@[id.0 as int].enum_id;
    b.db.enum_variants_of(enum_id) matches Ok(ids) && {
        &&& variants.len() == ids.len()
        &&& forall|i: int|
            0 <= i < ids.len() ==> match b.db.variant_semantic_of(enum_id, #[trigger] ids[i]) {
                Ok(variant) => b.db.concrete_enum_variant_of(id, variant) == Ok::<_, DiagnosticAdded>(
                    variants[i],
                ),
                Err(_) => false,
            }
    }
}

proof fn lemma_concrete_variants(
    b: &LoweringContextBuilder,
    id: ConcreteEnumId,
    ids: Seq<VariantId>,
    i: int,
    found: Seq<ConcreteVariant>,
)
    requires
        found.len() == i,
        i <= ids.len(),
    ensures
        concrete_variants_from(b, id, ids, i, found) matches Some(all) ==> {
            let enum_id = b.db.concrete_enums@[id.0 as int].enum_id;
            &&& all.len() == ids.len()
            &&& forall|k: int| 0 <= k < i ==> #[trigger] all[k] == found[k]
            &&& forall|k: int|
                i <= k < ids.len() ==> match b.db.variant_semantic_of(enum_id, #[trigger] ids[k]) {
                    Ok(variant) => b.db.concrete_enum_variant_of(id, variant) == Ok::<
                        _,
                        DiagnosticAdded,
                    >(all[k]),
                    Err(_) => false,
                }
        },
    decreases ids.len() - i,
{
    if i < ids.len() {
        let enum_id = b.db.concrete_enums@[id.0 as int].enum_id;
        if let Ok(variant) = b.db.variant_semantic_of(enum_id, ids[i]) {
            if let Ok(concrete) = b.db.concrete_enum_variant_of(id, variant) {
                let next = found.push(concrete);
                lemma_concrete_variants(b, id, ids, i + 1, next);
                if let Some(all) = concrete_variants_from(b, id, ids, i, found) {
                    assert(all[i] == next[i]);
                    assert forall|k: int| 0 <= k < i implies #[trigger] all[k] == found[k] by {
                        assert(all[k] == next[k]);
                    }
                }
            }
        }
    }
}

/// Whether the step matches the value in `v` with the arms: it runs the block of the arm of the
/// variant that the value is. The arms are in the order of the variants of the enum.
pub open spec fn matches_enum(
    b: &LoweringContextBuilder,
    c: CtxModel,
    s: ScopeModel,
    l: Lowering,
    id: ConcreteEnumId,
    v: VariableId,
    arms: Seq<MatchArm>,
    last: FlowStep<LoweredExprModel>,
) -> bool {
    exists|variants: Seq<ConcreteVariant>, states: Seq<CtxModel>, endings: Seq<Ending>|
        {
            let n = states.last().blocks.len();
            &&& are_variants_of(b, id, variants)
            &&& arms.len() == variants.len()
            &&& endings.len() == variants.len()
            &&& #[trigger] arms_end(b, s, l, variants, arms, states, endings)
            &&& states[0] == c
            &&& begins(states.last().blocks, last.c.blocks)
            &&& runs_blocks(
                s,
                Seq::empty(),
                endings,
                last.c.blocks.skip(n as int),
                StatementModel::MatchEnum {
                    concrete_enum_id: id,
                    input: v,
                    arms: in_turn(variants, n),
                    outputs: last_outputs(last.s),
                },
                last,
            )
        }
}

/// A match on a value of an enum runs the block of the arm of its variant.
pub proof fn a_match_runs_the_block_of_the_variant(
    b: &LoweringContextBuilder,
    c: CtxModel,
    s: ScopeModel,
    l: Lowering,
    e: ExprMatch,
)
    requires
        e.matched_expr.0 < b.function_def.exprs@.len(),
        ({
            let ty = b.function_def.exprs@[e.matched_expr.0 as int].ty_of();
            let inner = l(c, s, e.matched_expr);
            let value = expr_var(b, inner.c, inner.s, inner.r->Ok_0);
            &&& ty != b.db.core.felt_ty
            &&& inner.r is Ok
            &&& inner.r->Ok_0 !is ExternEnum
            &&& unique_keys(value.s.vars)
            &&& unique_keys(value.s.implicits)
            &&& value.r is Ok
        }),
        lower_expr_match(b, c, s, l, e).r matches Err(f) ==> f !is Failed,
    ensures
        ({
            let ty = b.function_def.exprs@[e.matched_expr.0 as int].ty_of();
            let inner = l(c, s, e.matched_expr);
            let value = expr_var(b, inner.c, inner.s, inner.r->Ok_0);
            type_of(inner.c.types, ty) matches Some(
                TypeModel::Concrete(ConcreteTypeId::Enum(id)),
            ) && matches_enum(
                b,
                value.c,
                value.s,
                l,
                id,
                value.r->Ok_0,
                e.arms@,
                lower_expr_match(b, c, s, l, e),
            )
        }),
{
    reveal(lower_expr_match);
    reveal(matched_enum);
    let ty = b.function_def.exprs@[e.matched_expr.0 as int].ty_of();
    let inner = l(c, s, e.matched_expr);
    let (c1, found) = matched_enum(b, inner.c, e, ty);
    let (id, variants) = found->Ok_0;
    assert(c1 == inner.c);
    let enum_id = b.db.concrete_enums@[id.0 as int].enum_id;
    let ids = b.db.enum_variants_of(enum_id)->Ok_0;
    lemma_concrete_variants(b, id, ids, 0, Seq::empty());
    let value = expr_var(b, inner.c, inner.s, inner.r->Ok_0);
    let v = value.r->Ok_0;
    let last = lower_expr_match(b, c, s, l, e);
    let m0 = merger_of(value.s, Seq::empty());
    assert(with_extra(value.s.vars, Seq::empty(), 0) == value.s.vars);
    lemma_gathered_none(m0.arms);
    let none = Seq::<Ending>::empty();
    assert(all_sealed(none) =~= Seq::empty());
    let step0 = lower_enum_arms(
        b,
        value.c,
        m0,
        l,
        variants,
        e.arms@,
        e.stable_ptr,
        0,
        Seq::empty(),
    );
    let (states, endings) = lemma_enum_arms(
        b,
        value.s,
        m0,
        l,
        variants,
        e.arms@,
        e.stable_ptr,
        seq![value.c],
        none,
    );
    let f = finalized(step0.c, step0.m);
    let sealed = all_sealed(endings);
    lemma_finalize_blocks(step0.c, f, sealed, 0, Seq::empty());
    let (c3, block_ids) = finalize_blocks(step0.c, f, sealed, 0, Seq::empty());
    let blocks = Seq::new(sealed.len(), |j: int| added_block(f, sealed[j]));
    let n = step0.c.blocks.len();
    assert(c3.blocks =~= step0.c.blocks + blocks);
    assert(zip_arms(variants, block_ids) =~= in_turn(variants, n));
    let outputs = fresh_vars(c3, output_tys(f.info).len());
    let statement = StatementModel::MatchEnum {
        concrete_enum_id: id,
        input: v,
        arms: in_turn(variants, n),
        outputs,
    };
    let step = add_match_enum(
        b,
        c3,
        emptied(value.s),
        id,
        v,
        zip_arms(variants, block_ids),
        f.info,
    );
    assert(last == from_block_result(step, f));
    lemma_runs_blocks(
        b,
        step0.c,
        c3,
        step0.m,
        value.s,
        Seq::empty(),
        endings,
        blocks,
        statement,
        step,
    );
    assert(blocks =~= last.c.blocks.skip(n as int));
    assert(arms_end(b, value.s, l, variants, e.arms@, states, endings));
}

} // verus!

//! The blocks of statements that have some.
use crate::collections::{copy_vec, extend_copies, has_key, lookup};
use crate::diagnostics::Maybe;
use crate::ids::{BlockId, ConcreteEnumId, FunctionId, TypeId};
use crate::lowering::bind::{
    push_implicits, put_implicit_pairs, put_implicits, put_variable_pairs, put_variables,
};
use crate::lowering::context::{
    expr_result, grew, LivingVar, LoweredExpr, LoweredExprExternEnum, LoweringContext,
    LoweringFlowError,
};
use crate::lowering::external::extern_facade_return_tys;
use crate::lowering::generators::{result_ok, went_on, CallBlockResult, MatchEnum, MatchExtern};
use crate::lowering::keeps::{lemma_extends_refl, lemma_extends_trans, lemma_later};
use crate::lowering::lowered_expr::{expr_models, lemma_tuple_model};
use crate::lowering::merge::{BlockFlowMerger, BlockMergerFinalized, BlockSealed};
use crate::lowering::model::{
    arms_ok, callee_ok, ctx_ok, expr_ok, extends, finalized_ok, fits, known, mark_implicit_changed,
    merger_ok, output_tys, put_implicit, scope_ok, sealed_ok, var_ok, vars_ok, CtxModel, Failure,
    FinalizedModel, LoweredExprModel, MergerModel, ScopeModel, SealedModel, Step,
};
use crate::lowering::scope::BlockScope;
use crate::lowering::steps;
use crate::lowering::steps::{defined_tys, extern_arm_tys, extern_bind, extern_rest, zip_arms};
use crate::outside::zip_eq;
use crate::semantic::types::ConcreteVariant;
use vstd::prelude::*;

verus! {

/// Takes the first `n` elements out of the vector.
pub fn drain_front<T>(v: &mut Vec<T>, n: usize) -> (r: Vec<T>)
    requires
        n <= old(v)@.len(),
    ensures
        r@ == old(v)@.take(n as int),
        final(v)@ == old(v)@.skip(n as int),
{
    let mut other = v.split_off(n);
    std::mem::swap(v, &mut other);
    assert(other@ =~= old(v)@.take(n as int));
    assert(v@ =~= old(v)@.skip(n as int));
    other
}

/// Returns the input types for an extern match variant arm.
pub fn match_extern_variant_arm_input_types(
    ctx: &LoweringContext<'_>,
    ty: TypeId,
    extern_enum: &LoweredExprExternEnum,
) -> (r: Vec<TypeId>)
    requires
        extern_arm_tys(ctx@, ty, extern_enum@) is Some,
    ensures
        extern_arm_tys(ctx@, ty, extern_enum@) == Some(r@),
{
    let ghost ids = extern_enum.ref_args@;
    let variant_input_tys = extern_facade_return_tys(ctx, ty);
    let mut ref_tys: Vec<TypeId> = Vec::new();
    let mut i: usize = 0;
    while i < extern_enum.ref_args.len()
        invariant
            i <= ids.len(),
            ids == extern_enum.ref_args@,
            defined_tys(ctx@, ids) is Some,
            ref_tys@.len() == i,
            forall|j: int|
                0 <= j < i ==> (#[trigger] ref_tys@[j]) == lookup(ctx@.semantic_defs, ids[j])->0,
        decreases ids.len() - i,
    {
        assert(has_key(ctx@.semantic_defs, ids[i as int]));
        match ctx.semantic_defs.get(extern_enum.ref_args[i]) {
            Some(ref_ty) => {
                ref_tys.push(ref_ty);
            },
            None => {},
        }
        i += 1;
    }
    assert(ref_tys@ =~= defined_tys(ctx@, ids)->0);
    let mut r = copy_vec(&extern_enum.implicits);
    extend_copies(&mut r, &ref_tys);
    extend_copies(&mut r, &variant_input_tys);
    r
}

/// Binds input references and implicits when matching on extern functions.
pub fn match_extern_arm_ref_args_bind(
    arm_inputs: &mut Vec<LivingVar>,
    extern_enum: &LoweredExprExternEnum,
    subscope: &mut BlockScope,
)
    requires
        extern_enum.implicits@.len() + extern_enum.ref_args@.len() <= old(arm_inputs)@.len(),
    ensures
        final(subscope)@ == extern_bind(old(subscope)@, extern_enum@, old(arm_inputs)@),
        final(arm_inputs)@ == extern_rest(extern_enum@, old(arm_inputs)@),
        forall|c: CtxModel|
            scope_ok(c, old(subscope)@) && vars_ok(c, old(arm_inputs)@) ==> #[trigger] scope_ok(
                c,
                final(subscope)@,
            ),
        forall|c: CtxModel|
            vars_ok(c, old(arm_inputs)@) ==> #[trigger] vars_ok(c, final(arm_inputs)@),
{
    let ghost inputs = arm_inputs@;
    let ghost s0 = subscope@;
    let ghost n = extern_enum.implicits@.len() as int;
    let ghost m = n + extern_enum.ref_args@.len();
    // Bind the implicits.
    let implicit_outputs = drain_front(arm_inputs, extern_enum.implicits.len());
    put_implicits(subscope, copy_vec(&extern_enum.implicits), implicit_outputs);
    let ghost s1 = subscope@;
    // Bind the ref variables.
    let ref_outputs = drain_front(arm_inputs, extern_enum.ref_args.len());
    let ghost refs = ref_outputs@;
    assert(refs =~= inputs.subrange(n, m));
    put_variables(subscope, copy_vec(&extern_enum.ref_args), ref_outputs);
    let ghost s2 = subscope@;
    subscope.bind_refs();
    proof {
        assert(arm_inputs@ =~= extern_rest(extern_enum@, inputs));
        assert forall|c: CtxModel| scope_ok(c, s0) && vars_ok(c, inputs) implies #[trigger] scope_ok(
            c,
            subscope@,
        ) by {
            assert(vars_ok(c, inputs.take(n)));
            assert(scope_ok(c, s1));
            assert(vars_ok(c, refs));
            assert(scope_ok(c, s2));
        }
    }
}

/// Converts a CallBlockResult for a LoweredExpr.
/// Some statements end with a CallBlockResult (CallBlock, Match, etc..), which represents all
/// the information of the "ending" of the call.
/// Binds the semantic variables from the call
/// Returns the proper flow error if needed.
pub fn lowered_expr_from_block_result(
    ctx: &LoweringContext<'_>,
    scope: &mut BlockScope,
    block_result: CallBlockResult,
    finalized_merger: BlockMergerFinalized,
) -> (r: Result<LoweredExpr, LoweringFlowError>)
    requires
        scope_ok(ctx@, old(scope)@),
        finalized_ok(ctx@, finalized_merger@),
        result_ok(ctx@, finalized_merger@.info, block_result@),
    ensures
        steps::from_block_result(
            Step { c: ctx@, s: old(scope)@, r: block_result@ },
            finalized_merger@,
        ) == (Step { c: ctx@, s: final(scope)@, r: expr_result(r) }),
        scope_ok(ctx@, final(scope)@),
        r is Ok ==> expr_ok(ctx@, r->Ok_0@),
        r is Ok ==> r->Ok_0 !is ExternEnum,
        r is Err ==> r->Err_0 is Unreachable,
{
    let ghost f = finalized_merger@;
    match block_result {
        CallBlockResult::Callsite { maybe_output, pushes } => {
            let mut var_pushes = pushes;
            let ghost all = var_pushes@;
            let n: usize = finalized_merger.outer_implicit_info.pushes.len();
            let implicit_pushes = drain_front(&mut var_pushes, n);
            let ghost firsts = implicit_pushes@;
            proof {
                lemma_push_prefix(scope@, f.implicit_pushes, all, firsts, 0);
                assert(vars_ok(ctx@, firsts));
                assert(vars_ok(ctx@, all.skip(n as int)));
            }
            push_implicits(scope, finalized_merger.outer_implicit_info.pushes, implicit_pushes);
            put_variables(scope, finalized_merger.outer_var_info.pushes, var_pushes);
            // Bring back the unused implicits.
            put_implicit_pairs(scope, &finalized_merger.outer_implicit_info.unchanged);
            // Bring back the untouched semantic vars.
            put_variable_pairs(scope, &finalized_merger.outer_var_info.bring_back);
            // Finalize the statement after ref rebinding.
            scope.finalize_statement();
            match maybe_output {
                Some(output) => {
                    proof {
                        reveal(expr_ok);
                    }
                    Ok(LoweredExpr::AtVariable(output))
                },
                None => {
                    let items: Vec<LoweredExpr> = Vec::new();
                    proof {
                        lemma_unit_model(items);
                        lemma_unit_ok(ctx@);
                    }
                    Ok(LoweredExpr::Tuple(items))
                },
            }
        },
        CallBlockResult::End => {
            scope.finalize_statement();
            Err(LoweringFlowError::Unreachable)
        },
    }
}

/// The counterpart of the empty tuple.
pub proof fn lemma_unit_model(items: Vec<LoweredExpr>)
    requires
        items@.len() == 0,
    ensures
        LoweredExpr::Tuple(items)@ == LoweredExprModel::Tuple(Seq::empty()),
{
    lemma_tuple_model(items);
    assert(expr_models(items@) =~= Seq::empty());
}

/// The empty tuple speaks of no variable.
pub proof fn lemma_unit_ok(c: CtxModel)
    ensures
        expr_ok(c, LoweredExprModel::Tuple(Seq::empty())),
{
    reveal(expr_ok);
}

/// Only as many variables count as there are implicits.
proof fn lemma_push_prefix(
    s: ScopeModel,
    tys: Seq<TypeId>,
    all: Seq<LivingVar>,
    firsts: Seq<LivingVar>,
    i: int,
)
    requires
        0 <= i,
        tys.len() <= all.len(),
        firsts == all.take(tys.len() as int),
    ensures
        steps::push_implicits(s, tys, all, i) == steps::push_implicits(s, tys, firsts, i),
    decreases tys.len() - i,
{
    if i < tys.len() {
        let s1 = mark_implicit_changed(
            put_implicit(s, tys[i], all[i]),
            tys[i],
        );
        lemma_push_prefix(s1, tys, all, firsts, i + 1);
    }
}

/// The counterparts of sealed blocks.
pub open spec fn sealed_models(sealed: Seq<BlockSealed>) -> Seq<SealedModel> {
    sealed.map_values(|s: BlockSealed| s@)
}

/// Whether the sealed blocks speak of what exists and were all seen by the merger.
pub open spec fn all_known(
    c: CtxModel,
    m: MergerModel,
    sealed: Seq<SealedModel>,
) -> bool {
    forall|i: int|
        0 <= i < sealed.len() ==> sealed_ok(c, #[trigger] sealed[i]) && known(m, sealed[i])
}

/// The counterpart of a sealed block or a failure.
pub open spec fn sealed_result(r: Maybe<BlockSealed>) -> Result<SealedModel, Failure> {
    match r {
        Ok(block) => Ok(block@),
        Err(_) => Err(Failure::Diagnosed),
    }
}

/// Whether the lowering of a block went from `c0` to `c1` and lost nothing, and the merger that
/// went from `m0` to `m1` knows of the block.
pub open spec fn arm_went(
    c0: LoweringContext,
    c1: LoweringContext,
    m0: MergerModel,
    m1: MergerModel,
    r: Maybe<BlockSealed>,
) -> bool {
    &&& grew(c0, c1)
    &&& merger_ok(c1@, m1)
    &&& forall|s: SealedModel| known(m0, s) ==> #[trigger] known(m1, s)
    &&& r is Ok ==> sealed_ok(c1@, r->Ok_0@) && known(m1, r->Ok_0@)
}

/// The sealed blocks stay as [all_known] says when one more is sealed.
pub proof fn lemma_known_push(
    c0: CtxModel,
    c1: CtxModel,
    m0: MergerModel,
    m1: MergerModel,
    sealed: Seq<SealedModel>,
    block: SealedModel,
)
    requires
        all_known(c0, m0, sealed),
        extends(c0, c1),
        forall|s: SealedModel| known(m0, s) ==> #[trigger] known(m1, s),
        sealed_ok(c1, block),
        known(m1, block),
    ensures
        all_known(c1, m1, sealed.push(block)),
{
    lemma_later(c0, c1);
    let all = sealed.push(block);
    assert forall|i: int| 0 <= i < all.len() implies sealed_ok(c1, #[trigger] all[i]) && known(
        m1,
        all[i],
    ) by {
        if i < sealed.len() {
            assert(all[i] == sealed[i]);
        }
    }
}

/// Adds the sealed blocks to the function.
fn finalize_blocks(
    ctx: &mut LoweringContext<'_>,
    finalized_merger: &BlockMergerFinalized,
    sealed: Vec<BlockSealed>,
) -> (r: Vec<BlockId>)
    requires
        ctx_ok(old(ctx)@),
        finalized_ok(old(ctx)@, finalized_merger@),
        forall|i: int|
            0 <= i < sealed@.len() ==> sealed_ok(old(ctx)@, (#[trigger] sealed@[i])@) && fits(
                finalized_merger@,
                sealed@[i]@,
            ),
    ensures
        steps::finalize_blocks(
            old(ctx)@,
            finalized_merger@,
            sealed_models(sealed@),
            0,
            Seq::empty(),
        ) == (final(ctx)@, r@),
        r@.len() == sealed@.len(),
        grew(*old(ctx), *final(ctx)),
        final(ctx)@.variables == old(ctx)@.variables,
        forall|i: int|
            0 <= i < r@.len() ==> callee_ok(
                final(ctx)@,
                final(ctx)@.blocks.len(),
                #[trigger] r@[i],
                output_tys(finalized_merger@.info).len(),
            ),
{
    let ghost all = sealed_models(sealed@);
    let ghost f = finalized_merger@;
    let mut rest = sealed;
    let mut r: Vec<BlockId> = Vec::new();
    let ghost mut i: int = 0;
    proof {
        lemma_extends_refl(ctx@);
        assert(r@ =~= Seq::empty());
        assert(sealed_models(rest@) =~= all.skip(0));
        assert forall|j: int| 0 <= j < all.len() implies sealed_ok(old(ctx)@, #[trigger] all[j])
            && fits(f, all[j]) by {
            assert(all[j] == sealed@[j]@);
        }
    }
    while rest.len() > 0
        invariant
            0 <= i <= all.len(),
            f == finalized_merger@,
            sealed_models(rest@) == all.skip(i),
            rest@.len() == all.len() - i,
            r@.len() == i,
            ctx_ok(old(ctx)@),
            grew(*old(ctx), *ctx),
            ctx@.variables == old(ctx)@.variables,
            finalized_ok(old(ctx)@, f),
            forall|j: int|
                0 <= j < all.len() ==> sealed_ok(old(ctx)@, #[trigger] all[j]) && fits(f, all[j]),
            steps::finalize_blocks(old(ctx)@, f, all, 0, Seq::empty()) == steps::finalize_blocks(
                ctx@,
                f,
                all,
                i,
                r@,
            ),
            forall|j: int|
                0 <= j < r@.len() ==> callee_ok(
                    ctx@,
                    ctx@.blocks.len(),
                    #[trigger] r@[j],
                    output_tys(f.info).len(),
                ),
        decreases rest@.len(),
    {
        let ghost c1 = ctx@;
        let ghost r1 = r@;
        let ghost rest1 = rest@;
        let block = rest.remove(0);
        proof {
            assert(block@ == sealed_models(rest1)[0]);
            assert(block@ == all[i]);
            lemma_later(old(ctx)@, c1);
        }
        let id = finalized_merger.finalize_block(ctx, block);
        r.push(id);
        proof {
            lemma_extends_trans(old(ctx)@, c1, ctx@);
            assert forall|j: int| 0 <= j < rest@.len() implies #[trigger] sealed_models(rest@)[j]
                == all.skip(i + 1)[j] by {
                assert(sealed_models(rest1)[j + 1] == all.skip(i)[j + 1]);
                assert(rest@[j] == rest1[j + 1]);
            }
            assert(sealed_models(rest@) =~= all.skip(i + 1));
            assert forall|j: int| 0 <= j < r@.len() implies callee_ok(
                ctx@,
                ctx@.blocks.len(),
                #[trigger] r@[j],
                output_tys(f.info).len(),
            ) by {
                if j < i {
                    assert(callee_ok(c1, c1.blocks.len(), r1[j], output_tys(f.info).len()));
                    assert(ctx@.blocks[r1[j].0 as int] == c1.blocks[r1[j].0 as int]);
                }
            }
            i = i + 1;
        }
    }
    r
}

/// What comes out of the blocks still exists when no variable was lost.
pub proof fn lemma_finalized_later(c0: CtxModel, c1: CtxModel, f: FinalizedModel)
    requires
        finalized_ok(c0, f),
        extends(c0, c1),
    ensures
        finalized_ok(c1, f),
{
    reveal(extends);
}

/// The blocks of the arms are as the blocks.
proof fn lemma_arms_ok(
    c: CtxModel,
    variants: Seq<ConcreteVariant>,
    blocks: Seq<BlockId>,
    outputs: nat,
)
    requires
        variants.len() == blocks.len(),
        forall|i: int|
            0 <= i < blocks.len() ==> callee_ok(c, c.blocks.len(), #[trigger] blocks[i], outputs),
    ensures
        arms_ok(c, c.blocks.len(), zip_arms(variants, blocks), outputs),
{
    let arms = zip_arms(variants, blocks);
    assert forall|i: int| 0 <= i < arms.len() implies callee_ok(
        c,
        c.blocks.len(),
        (#[trigger] arms[i]).1,
        outputs,
    ) by {
        assert(arms[i].1 == blocks[i]);
    }
}

/// Adds a match on an enum whose blocks are all there.
pub fn finish_match_enum(
    ctx: &mut LoweringContext<'_>,
    scope: &mut BlockScope,
    merger: BlockFlowMerger,
    sealed: Vec<BlockSealed>,
    concrete_enum_id: ConcreteEnumId,
    input: LivingVar,
    concrete_variants: Vec<ConcreteVariant>,
) -> (r: Result<LoweredExpr, LoweringFlowError>)
    requires
        ctx_ok(old(ctx)@),
        scope_ok(old(ctx)@, old(scope)@),
        merger_ok(old(ctx)@, merger@),
        all_known(old(ctx)@, merger@, sealed_models(sealed@)),
        var_ok(old(ctx)@, input),
        sealed@.len() == concrete_variants@.len(),
    ensures
        steps::finish_match_enum(
            old(ctx).builder,
            old(ctx)@,
            old(scope)@,
            merger@,
            sealed_models(sealed@),
            concrete_enum_id,
            input,
            concrete_variants@,
        ) == (Step { c: final(ctx)@, s: final(scope)@, r: expr_result(r) }),
        went_on(*old(ctx), *final(ctx), *final(scope)),
        r is Ok ==> expr_ok(final(ctx)@, r->Ok_0@) && r->Ok_0 !is ExternEnum,
        r is Err ==> r->Err_0 is Unreachable,
{
    let ghost c0 = ctx@;
    let ghost m = merger@;
    let ghost variants = concrete_variants@;
    let finalized_merger = merger.finalize(ctx);
    let ghost f = finalized_merger@;
    proof {
        assert forall|i: int| 0 <= i < sealed@.len() implies sealed_ok(c0, (#[trigger] sealed@[i])@)
            && fits(f, sealed@[i]@) by {
            assert(sealed_models(sealed@)[i] == sealed@[i]@);
        }
    }
    let blocks = finalize_blocks(ctx, &finalized_merger, sealed);
    let ghost c1 = ctx@;
    let ghost blocks0 = blocks@;
    let arms = zip_eq(concrete_variants, blocks);
    proof {
        assert(arms@ =~= zip_arms(variants, blocks0));
        lemma_arms_ok(c1, variants, blocks0, output_tys(f.info).len());
        lemma_later(c0, c1);
    }
    let block_result = MatchEnum {
        input,
        concrete_enum_id,
        arms,
        end_info: &finalized_merger.end_info,
    }.add(ctx, scope);
    proof {
        lemma_extends_trans(c0, c1, ctx@);
        lemma_finalized_later(c0, ctx@, f);
    }
    lowered_expr_from_block_result(ctx, scope, block_result, finalized_merger)
}

/// Adds a match on an external function whose blocks are all there.
pub fn finish_match_extern(
    ctx: &mut LoweringContext<'_>,
    scope: &mut BlockScope,
    merger: BlockFlowMerger,
    sealed: Vec<BlockSealed>,
    function: FunctionId,
    inputs: Vec<LivingVar>,
    concrete_variants: Vec<ConcreteVariant>,
) -> (r: Result<LoweredExpr, LoweringFlowError>)
    requires
        ctx_ok(old(ctx)@),
        scope_ok(old(ctx)@, old(scope)@),
        merger_ok(old(ctx)@, merger@),
        all_known(old(ctx)@, merger@, sealed_models(sealed@)),
        vars_ok(old(ctx)@, inputs@),
        sealed@.len() == concrete_variants@.len(),
    ensures
        steps::finish_match_extern(
            old(ctx).builder,
            old(ctx)@,
            old(scope)@,
            merger@,
            sealed_models(sealed@),
            function,
            inputs@,
            concrete_variants@,
        ) == (Step { c: final(ctx)@, s: final(scope)@, r: expr_result(r) }),
        went_on(*old(ctx), *final(ctx), *final(scope)),
        r is Ok ==> expr_ok(final(ctx)@, r->Ok_0@) && r->Ok_0 !is ExternEnum,
        r is Err ==> r->Err_0 is Unreachable,
{
    let ghost c0 = ctx@;
    let ghost m = merger@;
    let ghost variants = concrete_variants@;
    let finalized_merger = merger.finalize(ctx);
    let ghost f = finalized_merger@;
    proof {
        assert forall|i: int| 0 <= i < sealed@.len() implies sealed_ok(c0, (#[trigger] sealed@[i])@)
            && fits(f, sealed@[i]@) by {
            assert(sealed_models(sealed@)[i] == sealed@[i]@);
        }
    }
    let blocks = finalize_blocks(ctx, &finalized_merger, sealed);
    let ghost c1 = ctx@;
    let ghost blocks0 = blocks@;
    let arms = zip_eq(concrete_variants, blocks);
    proof {
        assert(arms@ =~= zip_arms(variants, blocks0));
        lemma_arms_ok(c1, variants, blocks0, output_tys(f.info).len());
        lemma_later(c0, c1);
    }
    let block_result = MatchExtern {
        function,
        inputs,
        arms,
        end_info: &finalized_merger.end_info,
    }.add(ctx, scope);
    proof {
        lemma_extends_trans(c0, c1, ctx@);
        lemma_finalized_later(c0, ctx@, f);
    }
    lowered_expr_from_block_result(ctx, scope, block_result, finalized_merger)
}

} // verus!

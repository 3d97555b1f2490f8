//! Error propagation.
use crate::collections::copy_vec;
use crate::diagnostics::{skip_diagnostic, Maybe};
use crate::lowering::arms::{
    all_known, arm_went, finish_match_enum, finish_match_extern, match_extern_arm_ref_args_bind,
    match_extern_variant_arm_input_types, sealed_models, sealed_result,
};
use crate::lowering::context::{
    expr_result, BlockScopeEnd, LivingVar, LoweredExpr, LoweredExprExternEnum, LoweringContext,
    LoweringFlowError,
};
use crate::lowering::external::extern_facade_expr;
use crate::lowering::generators::{went_on, EnumConstruct};
use crate::lowering::keeps::{lemma_extends_refl, lemma_extends_trans, lemma_later};
use crate::lowering::leave::get_full_return_vars;
use crate::lowering::merge::{BlockFlowMerger, BlockSealed};
use crate::lowering::model::{
    ctx_ok, defined, end_defined, expr_ok, flow_ok, merger_ok, scope_ok, var_ok, vars_ok, Step,
};
use crate::lowering::scope::BlockScope;
use crate::lowering::steps::{
    err_arm, error_propagate, extern_err_arm, extern_error_propagate, extern_ok_arm, facade_tys,
    leave_with, ok_arm, ArmStep,
};
use crate::semantic::types::ConcreteVariant;
use vstd::prelude::*;

verus! {

/// Makes the block that carries the value on.
fn lower_ok_arm(
    ctx: &mut LoweringContext<'_>,
    merger: &mut BlockFlowMerger,
    ok_variant: &ConcreteVariant,
) -> (r: BlockSealed)
    requires
        ctx_ok(old(ctx)@),
        merger_ok(old(ctx)@, old(merger)@),
    ensures
        ok_arm(old(ctx).builder, old(ctx)@, old(merger)@, *ok_variant) == (ArmStep {
            c: final(ctx)@,
            m: final(merger)@,
            r: Ok(r@),
        }),
        arm_went(*old(ctx), *final(ctx), old(merger)@, final(merger)@, Ok(r)),
{
    let input_tys = vec![ok_variant.ty];
    assert(input_tys@ =~= seq![ok_variant.ty]);
    let mut subscope = merger.start_subscope(ctx, &input_tys);
    subscope.bind_refs();
    assert(var_ok(ctx@, subscope.inputs@[0]));
    let var = subscope.inputs[0];
    merger.seal(subscope, BlockScopeEnd::Callsite(Some(var)))
}

/// Ends the block by leaving the function with the error in `input`.
fn lower_leave_with(
    ctx: &mut LoweringContext<'_>,
    merger: &mut BlockFlowMerger,
    scope: BlockScope,
    input: LivingVar,
    func_err_variant: &ConcreteVariant,
) -> (r: Maybe<BlockSealed>)
    requires
        ctx_ok(old(ctx)@),
        scope_ok(old(ctx)@, scope@),
        merger_ok(old(ctx)@, old(merger)@),
        var_ok(old(ctx)@, input),
        end_defined(
            leave_with(
                old(ctx).builder,
                old(ctx)@,
                scope@,
                old(merger)@,
                input,
                *func_err_variant,
            ).r,
        ),
    ensures
        leave_with(
            old(ctx).builder,
            old(ctx)@,
            scope@,
            old(merger)@,
            input,
            *func_err_variant,
        ) == (ArmStep { c: final(ctx)@, m: final(merger)@, r: sealed_result(r) }),
        arm_went(*old(ctx), *final(ctx), old(merger)@, final(merger)@, r),
{
    let ghost c0 = ctx@;
    let mut subscope = scope;
    let value_var = EnumConstruct { input, variant: *func_err_variant }.add(ctx, &mut subscope);
    let ghost c1 = ctx@;
    proof {
        reveal(expr_ok);
    }
    let full = get_full_return_vars(ctx, &mut subscope, LoweredExpr::AtVariable(value_var));
    proof {
        lemma_extends_trans(c0, c1, ctx@);
        lemma_later(c0, ctx@);
    }
    match full {
        Ok((refs, returned)) => Ok(merger.seal(subscope, BlockScopeEnd::Return { refs, returned })),
        Err(_) => Err(skip_diagnostic()),
    }
}

/// Makes the block that leaves the function.
fn lower_err_arm(
    ctx: &mut LoweringContext<'_>,
    merger: &mut BlockFlowMerger,
    err_variant: &ConcreteVariant,
    func_err_variant: &ConcreteVariant,
) -> (r: Maybe<BlockSealed>)
    requires
        ctx_ok(old(ctx)@),
        merger_ok(old(ctx)@, old(merger)@),
        end_defined(
            err_arm(
                old(ctx).builder,
                old(ctx)@,
                old(merger)@,
                *err_variant,
                *func_err_variant,
            ).r,
        ),
    ensures
        err_arm(old(ctx).builder, old(ctx)@, old(merger)@, *err_variant, *func_err_variant) == (
        ArmStep { c: final(ctx)@, m: final(merger)@, r: sealed_result(r) }),
        arm_went(*old(ctx), *final(ctx), old(merger)@, final(merger)@, r),
{
    let ghost c0 = ctx@;
    let input_tys = vec![err_variant.ty];
    assert(input_tys@ =~= seq![err_variant.ty]);
    let mut subscope = merger.start_subscope(ctx, &input_tys);
    let ghost c1 = ctx@;
    subscope.bind_refs();
    assert(var_ok(ctx@, subscope.inputs@[0]));
    let var = subscope.inputs[0];
    let r = lower_leave_with(ctx, merger, subscope, var, func_err_variant);
    proof {
        lemma_extends_trans(c0, c1, ctx@);
    }
    r
}

/// Lowers an error propagation.
pub fn lower_error_propagate(
    ctx: &mut LoweringContext<'_>,
    scope: &mut BlockScope,
    lowered_expr: LoweredExpr,
    ok_variant: &ConcreteVariant,
    err_variant: &ConcreteVariant,
    func_err_variant: &ConcreteVariant,
) -> (r: Result<LoweredExpr, LoweringFlowError>)
    requires
        ctx_ok(old(ctx)@),
        scope_ok(old(ctx)@, old(scope)@),
        expr_ok(old(ctx)@, lowered_expr@),
        defined(
            error_propagate(
                old(ctx).builder,
                old(ctx)@,
                old(scope)@,
                lowered_expr@,
                *ok_variant,
                *err_variant,
                *func_err_variant,
            ).r,
        ),
    ensures
        error_propagate(
            old(ctx).builder,
            old(ctx)@,
            old(scope)@,
            lowered_expr@,
            *ok_variant,
            *err_variant,
            *func_err_variant,
        ) == (Step { c: final(ctx)@, s: final(scope)@, r: expr_result(r) }),
        went_on(*old(ctx), *final(ctx), *final(scope)),
        r is Ok ==> expr_ok(final(ctx)@, r->Ok_0@),
        r is Err ==> flow_ok(final(ctx)@, r->Err_0@),
{
    let ghost c0 = ctx@;
    proof {
        reveal(error_propagate);
    }
    if let LoweredExpr::ExternEnum(extern_enum) = lowered_expr {
        proof {
            reveal(expr_ok);
        }
        return lower_optimized_extern_error_propagate(
            ctx,
            scope,
            extern_enum,
            ok_variant,
            err_variant,
            func_err_variant,
        );
    }
    let var = match lowered_expr.var(ctx, scope) {
        Ok(var) => var,
        Err(err) => {
            return Err(err);
        },
    };
    let ghost c1 = ctx@;
    // Merge arm blocks.
    let none = Vec::new();
    assert(none@ =~= Seq::empty());
    let mut merger = BlockFlowMerger::with(scope, &none);
    let ok_block = lower_ok_arm(ctx, &mut merger, ok_variant);
    let ghost c2 = ctx@;
    let ghost m2 = merger@;
    let ghost one = ok_block@;
    let err_block = lower_err_arm(ctx, &mut merger, err_variant, func_err_variant);
    proof {
        lemma_extends_trans(c1, c2, ctx@);
        lemma_extends_trans(c0, c1, ctx@);
        lemma_later(c1, ctx@);
        lemma_later(c2, ctx@);
    }
    let err_block = match err_block {
        Ok(block) => block,
        Err(diag_added) => {
            return Err(LoweringFlowError::Failed(diag_added));
        },
    };
    let ghost two = err_block@;
    let ghost c3 = ctx@;
    let sealed = vec![ok_block, err_block];
    let concrete_variants = vec![*ok_variant, *err_variant];
    proof {
        assert(sealed_models(sealed@) =~= seq![one, two]);
        assert(concrete_variants@ =~= seq![*ok_variant, *err_variant]);
        assert(all_known(ctx@, merger@, seq![one, two]));
    }
    let r = finish_match_enum(
        ctx,
        scope,
        merger,
        sealed,
        ok_variant.concrete_enum_id,
        var,
        concrete_variants,
    );
    proof {
        lemma_extends_trans(c0, c3, ctx@);
    }
    r
}

/// Makes the block that carries the value of an external function on.
fn lower_extern_ok_arm(
    ctx: &mut LoweringContext<'_>,
    merger: &mut BlockFlowMerger,
    extern_enum: &LoweredExprExternEnum,
    ok_variant: &ConcreteVariant,
) -> (r: Maybe<BlockSealed>)
    requires
        ctx_ok(old(ctx)@),
        merger_ok(old(ctx)@, old(merger)@),
        end_defined(
            extern_ok_arm(
                old(ctx).builder,
                old(ctx)@,
                old(merger)@,
                extern_enum@,
                *ok_variant,
            ).r,
        ),
    ensures
        extern_ok_arm(old(ctx).builder, old(ctx)@, old(merger)@, extern_enum@, *ok_variant) == (
        ArmStep { c: final(ctx)@, m: final(merger)@, r: sealed_result(r) }),
        arm_went(*old(ctx), *final(ctx), old(merger)@, final(merger)@, r),
{
    let ghost c0 = ctx@;
    let input_tys = match_extern_variant_arm_input_types(ctx, ok_variant.ty, extern_enum);
    let mut subscope = merger.start_subscope(ctx, &input_tys);
    let ghost c1 = ctx@;
    let mut arm_inputs = copy_vec(&subscope.inputs);
    match_extern_arm_ref_args_bind(&mut arm_inputs, extern_enum, &mut subscope);
    assert(facade_tys(c1, ok_variant.ty) == facade_tys(c0, ok_variant.ty));
    let variant_expr = extern_facade_expr(ctx, ok_variant.ty, arm_inputs);
    let var = variant_expr.var(ctx, &mut subscope);
    proof {
        lemma_extends_trans(c0, c1, ctx@);
        lemma_later(c0, ctx@);
    }
    match var {
        Ok(var) => Ok(merger.seal(subscope, BlockScopeEnd::Callsite(Some(var)))),
        Err(_) => Err(skip_diagnostic()),
    }
}

/// Makes the block that leaves the function with the error of an external function.
fn lower_extern_err_arm(
    ctx: &mut LoweringContext<'_>,
    merger: &mut BlockFlowMerger,
    extern_enum: &LoweredExprExternEnum,
    err_variant: &ConcreteVariant,
    func_err_variant: &ConcreteVariant,
) -> (r: Maybe<BlockSealed>)
    requires
        ctx_ok(old(ctx)@),
        merger_ok(old(ctx)@, old(merger)@),
        end_defined(
            extern_err_arm(
                old(ctx).builder,
                old(ctx)@,
                old(merger)@,
                extern_enum@,
                *err_variant,
                *func_err_variant,
            ).r,
        ),
    ensures
        extern_err_arm(
            old(ctx).builder,
            old(ctx)@,
            old(merger)@,
            extern_enum@,
            *err_variant,
            *func_err_variant,
        ) == (ArmStep { c: final(ctx)@, m: final(merger)@, r: sealed_result(r) }),
        arm_went(*old(ctx), *final(ctx), old(merger)@, final(merger)@, r),
{
    let ghost c0 = ctx@;
    let input_tys = match_extern_variant_arm_input_types(ctx, err_variant.ty, extern_enum);
    let mut subscope = merger.start_subscope(ctx, &input_tys);
    let ghost c1 = ctx@;
    let mut arm_inputs = copy_vec(&subscope.inputs);
    match_extern_arm_ref_args_bind(&mut arm_inputs, extern_enum, &mut subscope);
    assert(facade_tys(c1, err_variant.ty) == facade_tys(c0, err_variant.ty));
    let variant_expr = extern_facade_expr(ctx, err_variant.ty, arm_inputs);
    let input = variant_expr.var(ctx, &mut subscope);
    let ghost c2 = ctx@;
    proof {
        lemma_extends_trans(c0, c1, c2);
        lemma_later(c0, c2);
    }
    match input {
        Ok(input) => {
            let r = lower_leave_with(ctx, merger, subscope, input, func_err_variant);
            proof {
                lemma_extends_trans(c0, c2, ctx@);
            }
            r
        },
        Err(_) => Err(skip_diagnostic()),
    }
}

/// Lowers an error propagation expression on a LoweredExpr::ExternEnum lowered expression.
pub fn lower_optimized_extern_error_propagate(
    ctx: &mut LoweringContext<'_>,
    scope: &mut BlockScope,
    extern_enum: LoweredExprExternEnum,
    ok_variant: &ConcreteVariant,
    err_variant: &ConcreteVariant,
    func_err_variant: &ConcreteVariant,
) -> (r: Result<LoweredExpr, LoweringFlowError>)
    requires
        ctx_ok(old(ctx)@),
        scope_ok(old(ctx)@, old(scope)@),
        vars_ok(old(ctx)@, extern_enum.inputs@),
        defined(
            extern_error_propagate(
                old(ctx).builder,
                old(ctx)@,
                old(scope)@,
                extern_enum@,
                *ok_variant,
                *err_variant,
                *func_err_variant,
            ).r,
        ),
    ensures
        extern_error_propagate(
            old(ctx).builder,
            old(ctx)@,
            old(scope)@,
            extern_enum@,
            *ok_variant,
            *err_variant,
            *func_err_variant,
        ) == (Step { c: final(ctx)@, s: final(scope)@, r: expr_result(r) }),
        went_on(*old(ctx), *final(ctx), *final(scope)),
        r is Ok ==> expr_ok(final(ctx)@, r->Ok_0@),
        r is Err ==> flow_ok(final(ctx)@, r->Err_0@),
{
    let ghost c0 = ctx@;
    proof {
        reveal(extern_error_propagate);
        lemma_extends_refl(c0);
    }
    let mut merger = BlockFlowMerger::with(scope, &extern_enum.ref_args);
    let ok_block = lower_extern_ok_arm(ctx, &mut merger, &extern_enum, ok_variant);
    let ghost c1 = ctx@;
    proof {
        lemma_later(c0, c1);
    }
    let ok_block = match ok_block {
        Ok(block) => block,
        Err(diag_added) => {
            return Err(LoweringFlowError::Failed(diag_added));
        },
    };
    let ghost one = ok_block@;
    let err_block = lower_extern_err_arm(
        ctx,
        &mut merger,
        &extern_enum,
        err_variant,
        func_err_variant,
    );
    let ghost c2 = ctx@;
    proof {
        lemma_extends_trans(c0, c1, c2);
        lemma_later(c0, c2);
        lemma_later(c1, c2);
    }
    let err_block = match err_block {
        Ok(block) => block,
        Err(diag_added) => {
            return Err(LoweringFlowError::Failed(diag_added));
        },
    };
    let ghost two = err_block@;
    let sealed = vec![ok_block, err_block];
    let concrete_variants = vec![*ok_variant, *err_variant];
    proof {
        assert(sealed_models(sealed@) =~= seq![one, two]);
        assert(concrete_variants@ =~= seq![*ok_variant, *err_variant]);
        assert(all_known(ctx@, merger@, seq![one, two]));
    }
    let r = finish_match_extern(
        ctx,
        scope,
        merger,
        sealed,
        extern_enum.function,
        extern_enum.inputs,
        concrete_variants,
    );
    proof {
        lemma_extends_trans(c0, c2, ctx@);
    }
    r
}

} // verus!

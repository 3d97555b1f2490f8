//! The reading of variables of the source, and the ways out of a block.
use crate::collections::extend_copies;
use crate::diagnostics::{to_maybe, Maybe};
use crate::ids::{SyntaxStablePtrId, VarId};
use crate::lowering::bind::take_implicits;
use crate::lowering::context::{
    end_result, expr_result, flow_result, lowering_flow_error_to_block_scope_end, BlockScopeEnd,
    LivingVar, LoweredExpr, LoweringContext, LoweringFlowError,
};
use crate::lowering::generators::went_on;
use crate::lowering::keeps::{lemma_extends_refl, lemma_extends_trans, lemma_later};
use crate::lowering::lowered_expr::lemma_tuple_model;
use crate::lowering::model::{
    ctx_ok, defined, done, end_defined, end_ok, ended, expr_ok, extends, flow_ok, return_ok,
    scope_ok, var_ok, vars_ok, FlowModel, Step,
};
use crate::lowering::objects::LoweringDiagnosticKind;
use crate::lowering::scope::BlockScope;
use crate::lowering::steps;
use crate::lowering::steps::{expr_end, full_return_vars, is_unit, use_ref_params};
use vstd::pervasive::unreached;
use vstd::prelude::*;

verus! {

/// Retrieves a LivingVar that corresponds to a semantic var in the current scope.
/// Moves it if necessary. If it is already moved, fails and emits a diagnostic.
pub fn use_semantic_var(
    ctx: &mut LoweringContext<'_>,
    scope: &mut BlockScope,
    semantic_var: VarId,
    stable_ptr: SyntaxStablePtrId,
) -> (r: Result<LivingVar, LoweringFlowError>)
    requires
        scope_ok(old(ctx)@, old(scope)@),
    ensures
        steps::use_var(old(ctx)@, old(scope)@, semantic_var, stable_ptr) == (Step {
            c: final(ctx)@,
            s: final(scope)@,
            r: flow_result(r),
        }),
        went_on(*old(ctx), *final(ctx), *final(scope)),
        r is Ok ==> var_ok(final(ctx)@, r->Ok_0),
        r is Err ==> r->Err_0 is Failed,
{
    proof {
        lemma_extends_refl(ctx@);
    }
    let var = scope.use_semantic_variable(ctx, semantic_var).take_var();
    match var {
        Some(var) => Ok(var),
        None => {
            let diag_added = ctx.report(stable_ptr, LoweringDiagnosticKind::VariableMoved);
            proof {
                lemma_later(old(ctx)@, ctx@);
            }
            Err(LoweringFlowError::Failed(diag_added))
        },
    }
}

/// Retrieves a LivingVar that corresponds to a semantic var in the current scope.
/// Always moves. If it is already moved, fails and emits a diagnostic.
pub fn take_semantic_var(
    ctx: &mut LoweringContext<'_>,
    scope: &mut BlockScope,
    semantic_var: VarId,
    stable_ptr: SyntaxStablePtrId,
) -> (r: Result<LivingVar, LoweringFlowError>)
    requires
        scope_ok(old(ctx)@, old(scope)@),
    ensures
        steps::take_var(old(ctx)@, old(scope)@, semantic_var, stable_ptr) == (Step {
            c: final(ctx)@,
            s: final(scope)@,
            r: flow_result(r),
        }),
        went_on(*old(ctx), *final(ctx), *final(scope)),
        r is Ok ==> var_ok(final(ctx)@, r->Ok_0),
        r is Err ==> r->Err_0 is Failed,
{
    proof {
        lemma_extends_refl(ctx@);
    }
    let var = scope.take_semantic_variable(semantic_var).take_var();
    match var {
        Some(var) => Ok(var),
        None => {
            let diag_added = ctx.report(stable_ptr, LoweringDiagnosticKind::VariableMoved);
            proof {
                lemma_later(old(ctx)@, ctx@);
            }
            Err(LoweringFlowError::Failed(diag_added))
        },
    }
}

/// The counterpart of two lists of variables or the end of the flow.
pub open spec fn pair_result(r: Result<(Vec<LivingVar>, Vec<LivingVar>), LoweringFlowError>) -> Result<
    (Seq<LivingVar>, Seq<LivingVar>),
    FlowModel,
> {
    match r {
        Ok((a, b)) => Ok((a@, b@)),
        Err(f) => Err(f@),
    }
}

/// Whether the lowered expression is the empty tuple.
pub fn is_empty_tuple(e: &LoweredExpr) -> (r: bool)
    ensures
        r == is_unit(e@),
{
    match e {
        LoweredExpr::Tuple(items) => {
            proof {
                lemma_tuple_model(*items);
            }
            items.len() == 0
        },
        _ => false,
    }
}

/// Returns the return variables, prefixed by the reference params.
pub fn get_full_return_vars(
    ctx: &mut LoweringContext<'_>,
    scope: &mut BlockScope,
    value_expr: LoweredExpr,
) -> (r: Result<(Vec<LivingVar>, Vec<LivingVar>), LoweringFlowError>)
    requires
        ctx_ok(old(ctx)@),
        scope_ok(old(ctx)@, old(scope)@),
        expr_ok(old(ctx)@, value_expr@),
        defined(full_return_vars(old(ctx).builder, old(ctx)@, old(scope)@, value_expr@).r),
    ensures
        full_return_vars(old(ctx).builder, old(ctx)@, old(scope)@, value_expr@) == (Step {
            c: final(ctx)@,
            s: final(scope)@,
            r: pair_result(r),
        }),
        went_on(*old(ctx), *final(ctx), *final(scope)),
        r is Ok ==> return_ok(final(ctx)@, r->Ok_0.0@, r->Ok_0.1@),
        r is Ok && !is_unit(value_expr@) ==> r->Ok_0.1@.len() == 1,
        r is Err ==> flow_ok(final(ctx)@, r->Err_0@),
{
    let b = ctx.builder;
    let ghost c0 = ctx@;
    let ghost whole = full_return_vars(b, c0, scope@, value_expr@);
    proof {
        reveal(full_return_vars);
        lemma_extends_refl(c0);
    }
    let mut value_vars: Vec<LivingVar> = Vec::new();
    if !is_empty_tuple(&value_expr) {
        match value_expr.var(ctx, scope) {
            Ok(var) => {
                value_vars.push(var);
                assert(value_vars@ =~= seq![var]);
            },
            Err(err) => {
                return Err(err);
            },
        }
    } else {
        assert(value_vars@ =~= Seq::empty());
    }
    let ghost c1 = ctx@;
    assert(vars_ok(c1, value_vars@));
    let taken = take_implicits(scope, b.implicits);
    let implicit_vars = match to_maybe(taken) {
        Ok(vars) => vars,
        Err(diag_added) => {
            return Err(LoweringFlowError::Failed(diag_added));
        },
    };
    assert(vars_ok(c1, implicit_vars@));
    let ghost s2 = scope@;
    let ghost all = use_ref_params(b, c1, s2, 0, Seq::empty());
    let mut ref_vars: Vec<LivingVar> = Vec::new();
    let mut i: usize = 0;
    proof {
        lemma_extends_refl(c1);
        assert(ref_vars@ =~= Seq::empty());
    }
    while i < b.ref_params.len()
        invariant
            i <= b.ref_params@.len(),
            b == ctx.builder,
            b == old(ctx).builder,
            c0 == old(ctx)@,
            ctx_ok(c0),
            extends(c0, c1),
            extends(c1, ctx@),
            ctx_ok(ctx@),
            scope_ok(ctx@, scope@),
            all == use_ref_params(b, ctx@, scope@, i as int, ref_vars@),
            defined(all.r),
            vars_ok(ctx@, ref_vars@),
            ref_vars@.len() == i,
            whole == (match all.r {
                Err(f) => ended(all.c, all.s, f),
                Ok(vars) => done(all.c, all.s, (implicit_vars@ + vars, value_vars@)),
            }),
            whole == full_return_vars(b, c0, old(scope)@, value_expr@),
        decreases b.ref_params@.len() - i,
    {
        let ghost c2 = ctx@;
        let semantic_var_id = b.ref_params[i];
        let stable_ptr = match b.db.variable_ptrs.get(semantic_var_id) {
            Some(stable_ptr) => stable_ptr,
            None => unreached(),
        };
        let var = use_semantic_var(ctx, scope, semantic_var_id, stable_ptr);
        proof {
            lemma_later(c2, ctx@);
            lemma_extends_trans(c1, c2, ctx@);
            lemma_extends_trans(c0, c1, ctx@);
        }
        match var {
            Ok(var) => {
                ref_vars.push(var);
            },
            Err(err) => {
                return Err(err);
            },
        }
        i += 1;
    }
    proof {
        lemma_later(c1, ctx@);
        lemma_extends_trans(c0, c1, ctx@);
    }
    let mut refs = implicit_vars;
    extend_copies(&mut refs, &ref_vars);
    Ok((refs, value_vars))
}

/// Converts [Result<LoweredExpr, LoweringFlowError>] into `BlockScopeEnd`.
pub fn lowered_expr_to_block_scope_end(
    ctx: &mut LoweringContext<'_>,
    scope: &mut BlockScope,
    lowered_expr: Result<LoweredExpr, LoweringFlowError>,
    root: bool,
) -> (r: Maybe<BlockScopeEnd>)
    requires
        ctx_ok(old(ctx)@),
        scope_ok(old(ctx)@, old(scope)@),
        lowered_expr is Ok ==> expr_ok(old(ctx)@, lowered_expr->Ok_0@),
        lowered_expr is Err ==> flow_ok(old(ctx)@, lowered_expr->Err_0@),
        end_defined(
            expr_end(old(ctx).builder, old(ctx)@, old(scope)@, expr_result(lowered_expr), root).r,
        ),
    ensures
        expr_end(old(ctx).builder, old(ctx)@, old(scope)@, expr_result(lowered_expr), root) == (
        Step { c: final(ctx)@, s: final(scope)@, r: end_result(r) }),
        went_on(*old(ctx), *final(ctx), *final(scope)),
        r is Ok ==> end_ok(final(ctx)@, r->Ok_0@),
        root && r is Ok ==> r->Ok_0 !is Callsite,
{
    let ghost c0 = ctx@;
    proof {
        reveal(expr_end);
        lemma_extends_refl(c0);
    }
    match lowered_expr {
        Ok(lowered_expr) => {
            if !root && is_empty_tuple(&lowered_expr) {
                return Ok(BlockScopeEnd::Callsite(None));
            }
            match lowered_expr.var(ctx, scope) {
                Ok(var) => {
                    if !root {
                        return Ok(BlockScopeEnd::Callsite(Some(var)));
                    }
                    let ghost c1 = ctx@;
                    proof {
                        reveal(expr_ok);
                    }
                    let full = get_full_return_vars(ctx, scope, LoweredExpr::AtVariable(var));
                    proof {
                        lemma_extends_trans(c0, c1, ctx@);
                    }
                    match full {
                        Ok((refs, returned)) => Ok(BlockScopeEnd::Return { refs, returned }),
                        Err(err) => lowering_flow_error_to_block_scope_end(err),
                    }
                },
                Err(err) => lowering_flow_error_to_block_scope_end(err),
            }
        },
        Err(err) => lowering_flow_error_to_block_scope_end(err),
    }
}

} // verus!

//! The calls of functions whose inputs are there.
use crate::collections::copy_vec;
use crate::ids::{ConcreteEnumId, FunctionId, SyntaxStablePtrId, TypeId, VarId};
use crate::lowering::bind::{put_implicits, put_variables};
use crate::lowering::context::{
    expr_result, grew, LivingVar, LoweredExpr, LoweredExprExternEnum, LoweringContext,
    LoweringFlowError,
};
use crate::lowering::external::{extern_facade_expr, extern_facade_return_tys};
use crate::lowering::generators::{went_on, Call};
use crate::lowering::keeps::{lemma_extends_refl, lemma_extends_trans, lemma_later};
use crate::lowering::leave::{get_full_return_vars, take_semantic_var};
use crate::lowering::model::{
    ctx_ok, defined, expr_ok, flow_ok, scope_ok, var_ok, vars_ok, FlowModel, Step,
};
use crate::lowering::scope::BlockScope;
use crate::lowering::steps;
use crate::lowering::steps::{finish_call, perform_call};
use crate::semantic::expr::ExprFunctionCall;
use crate::semantic::types::{ConcreteTypeId, TypeLongId};
use vstd::pervasive::unreached;
use vstd::prelude::*;

verus! {

/// Moves the arguments that are passed by reference. Gives their types and their variables.
pub fn take_ref_args(
    ctx: &mut LoweringContext<'_>,
    scope: &mut BlockScope,
    ref_args: &Vec<VarId>,
    stable_ptr: SyntaxStablePtrId,
) -> (r: Result<(Vec<TypeId>, Vec<LivingVar>), LoweringFlowError>)
    requires
        scope_ok(old(ctx)@, old(scope)@),
        defined(
            steps::take_ref_args(
                old(ctx)@,
                old(scope)@,
                ref_args@,
                stable_ptr,
                0,
                Seq::empty(),
                Seq::empty(),
            ).r,
        ),
    ensures
        ({
            let step = steps::take_ref_args(
                old(ctx)@,
                old(scope)@,
                ref_args@,
                stable_ptr,
                0,
                Seq::empty(),
                Seq::empty(),
            );
            &&& step.c == final(ctx)@
            &&& step.s == final(scope)@
            &&& match r {
                Ok((tys, vars)) => step.r == Ok::<_, FlowModel>(
                    (tys@, vars@),
                ),
                Err(f) => step.r == Err::<(Seq<TypeId>, Seq<LivingVar>), _>(f@),
            }
        }),
        went_on(*old(ctx), *final(ctx), *final(scope)),
        r is Ok ==> r->Ok_0.0@.len() == ref_args@.len() && vars_ok(final(ctx)@, r->Ok_0.1@),
        r is Err ==> flow_ok(final(ctx)@, r->Err_0@),
{
    let ghost c0 = ctx@;
    let ghost all = steps::take_ref_args(
        c0,
        scope@,
        ref_args@,
        stable_ptr,
        0,
        Seq::empty(),
        Seq::empty(),
    );
    let mut tys: Vec<TypeId> = Vec::new();
    let mut vars: Vec<LivingVar> = Vec::new();
    let mut i: usize = 0;
    proof {
        lemma_extends_refl(c0);
        assert(tys@ =~= Seq::empty());
        assert(vars@ =~= Seq::empty());
    }
    while i < ref_args.len()
        invariant
            i <= ref_args@.len(),
            tys@.len() == i,
            c0 == old(ctx)@,
            grew(*old(ctx), *ctx),
            scope_ok(ctx@, scope@),
            vars_ok(ctx@, vars@),
            defined(all.r),
            all == steps::take_ref_args(
                ctx@,
                scope@,
                ref_args@,
                stable_ptr,
                i as int,
                tys@,
                vars@,
            ),
            all == steps::take_ref_args(
                old(ctx)@,
                old(scope)@,
                ref_args@,
                stable_ptr,
                0,
                Seq::empty(),
                Seq::empty(),
            ),
        decreases ref_args@.len() - i,
    {
        let ghost c1 = ctx@;
        let semantic_var_id = ref_args[i];
        let ty = match ctx.semantic_defs.get(semantic_var_id) {
            Some(ty) => ty,
            None => unreached(),
        };
        let var = take_semantic_var(ctx, scope, semantic_var_id, stable_ptr);
        proof {
            lemma_extends_trans(c0, c1, ctx@);
            lemma_later(c1, ctx@);
        }
        match var {
            Ok(var) => {
                tys.push(ty);
                vars.push(var);
            },
            Err(err) => {
                return Err(err);
            },
        }
        i += 1;
    }
    Ok((tys, vars))
}

/// Creates a LoweredExpr for a function call, taking into consideration external function facades:
/// For external functions, sometimes the high level signature doesn't exactly correspond to the
/// external function returned variables / branches.
pub fn perform_function_call(
    ctx: &mut LoweringContext<'_>,
    scope: &mut BlockScope,
    function: FunctionId,
    inputs: Vec<LivingVar>,
    implicit_tys: Vec<TypeId>,
    ref_tys: Vec<TypeId>,
    ret_ty: TypeId,
) -> (r: (Vec<LivingVar>, Vec<LivingVar>, LoweredExpr))
    requires
        scope_ok(old(ctx)@, old(scope)@),
        vars_ok(old(ctx)@, inputs@),
    ensures
        perform_call(
            old(ctx).builder,
            old(ctx)@,
            old(scope)@,
            function,
            inputs@,
            implicit_tys@,
            ref_tys@,
            ret_ty,
        ) == (Step { c: final(ctx)@, s: final(scope)@, r: (r.0@, r.1@, r.2@) }),
        r.0@.len() == implicit_tys@.len(),
        r.1@.len() == ref_tys@.len(),
        went_on(*old(ctx), *final(ctx), *final(scope)),
        vars_ok(final(ctx)@, r.0@),
        vars_ok(final(ctx)@, r.1@),
        expr_ok(final(ctx)@, r.2@),
{
    let b = ctx.builder;
    let ghost c0 = ctx@;
    // If the function is not extern, simply call it.
    if b.db.try_get_extern_function_id(function).is_none() {
        let ret_tys = vec![ret_ty];
        assert(ret_tys@ =~= seq![ret_ty]);
        let call_result = Call { function, inputs, implicit_tys, ref_tys, ret_tys }.add(ctx, scope);
        proof {
            reveal(expr_ok);
        }
        let res = LoweredExpr::AtVariable(call_result.returned[0]);
        return (call_result.implicit_outputs, call_result.ref_outputs, res);
    }
    // Extern function.
    let ret_tys = extern_facade_return_tys(ctx, ret_ty);
    let call_result = Call { function, inputs, implicit_tys, ref_tys, ret_tys }.add(ctx, scope);
    assert(ctx@.types == c0.types);
    let res = extern_facade_expr(ctx, ret_ty, call_result.returned);
    (call_result.implicit_outputs, call_result.ref_outputs, res)
}

/// The enum that the type is, if it is one.
fn enum_of_type(ctx: &LoweringContext<'_>, ty: TypeId) -> (r: Option<ConcreteEnumId>)
    ensures
        r == steps::enum_of_type(ctx@, ty),
{
    match ctx.lookup_intern_type(ty) {
        Some(TypeLongId::Concrete(ConcreteTypeId::Enum(concrete_enum_id))) => Some(
            *concrete_enum_id,
        ),
        _ => None,
    }
}

/// Lowers a function call whose inputs are lowered.
pub fn finish_function_call(
    ctx: &mut LoweringContext<'_>,
    scope: &mut BlockScope,
    expr: &ExprFunctionCall,
    inputs: Vec<LivingVar>,
    callee_implicit_types: Vec<TypeId>,
    ref_tys: Vec<TypeId>,
) -> (r: Result<LoweredExpr, LoweringFlowError>)
    requires
        ctx_ok(old(ctx)@),
        scope_ok(old(ctx)@, old(scope)@),
        vars_ok(old(ctx)@, inputs@),
        ref_tys@.len() == expr.ref_args@.len(),
        defined(
            finish_call(
                old(ctx).builder,
                old(ctx)@,
                old(scope)@,
                *expr,
                inputs@,
                callee_implicit_types@,
                ref_tys@,
            ).r,
        ),
    ensures
        finish_call(
            old(ctx).builder,
            old(ctx)@,
            old(scope)@,
            *expr,
            inputs@,
            callee_implicit_types@,
            ref_tys@,
        ) == (Step { c: final(ctx)@, s: final(scope)@, r: expr_result(r) }),
        went_on(*old(ctx), *final(ctx), *final(scope)),
        r is Ok ==> expr_ok(final(ctx)@, r->Ok_0@),
        r is Err ==> flow_ok(final(ctx)@, r->Err_0@),
{
    let b = ctx.builder;
    let ghost c0 = ctx@;
    proof {
        reveal(finish_call);
        reveal(expr_ok);
        lemma_extends_refl(c0);
    }
    // If the function is panic(), do something special.
    if expr.function == b.db.core.panic_func {
        assert(var_ok(c0, inputs@[0]));
        let input = inputs[0];
        return match get_full_return_vars(ctx, scope, LoweredExpr::AtVariable(input)) {
            Ok((refs, returned)) => {
                assert(var_ok(ctx@, returned@[0]));
                let data = returned[0];
                Err(LoweringFlowError::Panic { refs, data })
            },
            Err(err) => Err(err),
        };
    }
    // The following is relevant only to extern functions.
    let extern_function = b.db.try_get_extern_function_id(expr.function);
    if let Some(extern_function_id) = extern_function {
        if let Some(concrete_enum_id) = enum_of_type(ctx, expr.ty) {
            let lowered_expr = LoweredExprExternEnum {
                function: expr.function,
                concrete_enum_id,
                inputs,
                ref_args: copy_vec(&expr.ref_args),
                implicits: callee_implicit_types,
                stable_ptr: expr.stable_ptr,
            };
            if let Ok(refs) = b.db.extern_function_declaration_refs(extern_function_id) {
                if refs.len() != 0 {
                    // Don't optimize in case the extern function has ref parameters.
                    return match lowered_expr.var(ctx, scope) {
                        Ok(var) => Ok(LoweredExpr::AtVariable(var)),
                        Err(err) => Err(err),
                    };
                }
            }
            // It is still unknown whether we directly match on this enum result, or store it to a
            // variable. Thus we can't perform the call. Performing it and pushing/bringing-back
            // variables are done on the 2 places where this result is used: the optimized match
            // and error propagation, and the storing in a variable.

            return Ok(LoweredExpr::ExternEnum(lowered_expr));
        }
    }
    let implicit_tys = copy_vec(&callee_implicit_types);
    let (implicit_outputs, ref_outputs, res) = perform_function_call(
        ctx,
        scope,
        expr.function,
        inputs,
        implicit_tys,
        ref_tys,
        expr.ty,
    );
    // Rebind the implicits.
    put_implicits(scope, callee_implicit_types, implicit_outputs);
    // Rebind the ref variables.
    put_variables(scope, copy_vec(&expr.ref_args), ref_outputs);
    // Finalize call statement after ref rebinding.
    scope.finalize_statement();
    Ok(res)
}

} // verus!

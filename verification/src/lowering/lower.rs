//! The lowering of function bodies.
use crate::collections::{copy_vec, extend_copies};
use crate::diagnostics::{skip_diagnostic, to_maybe, Maybe};
use crate::ids::{ConcreteEnumId, ExprId, MemberId, SyntaxStablePtrId, TypeId};
use crate::lowering::arms::{
    all_known, arm_went, finish_match_enum, finish_match_extern, lemma_finalized_later,
    lemma_known_push, lemma_unit_model, lemma_unit_ok, lowered_expr_from_block_result,
    match_extern_arm_ref_args_bind, match_extern_variant_arm_input_types, sealed_models,
    sealed_result,
};
use crate::lowering::bind::take_implicits;
use crate::lowering::calls::{finish_function_call, take_ref_args};
use crate::lowering::context::{
    end_result, expr_result, flow_result, grew, lowering_flow_error_to_block_scope_end, vars_result,
    BlockScopeEnd, LivingVar, LoweredExpr, LoweredExprExternEnum, LoweringContext,
    LoweringContextBuilder, LoweringFlowError,
};
use crate::lowering::external::extern_facade_expr;
use crate::lowering::generators::{
    went_on, CallBlock, EnumConstruct, Literal, MatchEnum, MatchExtern, StructConstruct,
    StructMemberAccess,
};
use crate::lowering::keeps::{lemma_extends_refl, lemma_extends_trans, lemma_later};
use crate::lowering::leave::{
    get_full_return_vars, lowered_expr_to_block_scope_end, use_semantic_var,
};
use crate::lowering::lowered_expr::{expr_models, lemma_tuple_model};
use crate::lowering::merge::{BlockFlowMerger, BlockSealed};
use crate::lowering::model::{
    ctx_ok, defined, end_defined, end_ok, ended, expr_ok, exprs_ok, extends, flow_ok, merger_ok,
    scope_ok, stuck, var_ok, vars_ok, CtxModel, Failure, FlowModel, LoweredExprModel, ScopeModel,
    Step,
};
use crate::lowering::objects::LoweringDiagnosticKind;
use crate::lowering::pattern::lower_single_pattern;
use crate::lowering::propagate::lower_error_propagate;
use crate::lowering::scope::BlockScope;
use crate::lowering::steps;
use crate::lowering::steps::{
    arm_body, earlier, facade_tys, last_member_expr, lower_branch, lower_branches, lower_enum_arm,
    lower_enum_arms, lower_extern_arm, lower_extern_arms, lower_kind, matched_enum, member_position,
    optimized_extern_match, ArmStep, BranchKind,
};
use crate::outside::{is_zero, zip_eq};
use crate::semantic::expr::{
    Expr, ExprAssignment, ExprBlock, ExprEnumVariantCtor, ExprFunctionCall, ExprIf, ExprMatch,
    ExprMemberAccess, ExprPropagateError, ExprStructCtor, ExprTuple, MatchArm, Pattern, Statement,
};
use crate::semantic::types::{member_types, ConcreteTypeId, ConcreteVariant, Member, TypeLongId};
use vstd::pervasive::unreached;
use vstd::prelude::*;

verus! {

/// What the lowering of the earlier expressions is.
proof fn lemma_earlier(
    b: &LoweringContextBuilder,
    bound: nat,
    c: CtxModel,
    s: ScopeModel,
    e: ExprId,
)
    ensures
        e.0 < bound ==> earlier(b, bound)(c, s, e) == steps::lower_expr(b, c, s, e.0 as nat),
        e.0 >= bound ==> earlier(b, bound)(c, s, e) == stuck::<LoweredExprModel>(c, s),
{
    reveal(earlier);
    reveal(steps::lower_expr);
}

/// Lowers a semantic expression.
pub fn lower_expr(
    ctx: &mut LoweringContext<'_>,
    scope: &mut BlockScope,
    expr_id: ExprId,
) -> (r: Result<LoweredExpr, LoweringFlowError>)
    requires
        ctx_ok(old(ctx)@),
        scope_ok(old(ctx)@, old(scope)@),
        defined(steps::lower_expr(old(ctx).builder, old(ctx)@, old(scope)@, expr_id.0 as nat).r),
    ensures
        steps::lower_expr(old(ctx).builder, old(ctx)@, old(scope)@, expr_id.0 as nat) == (Step {
            c: final(ctx)@,
            s: final(scope)@,
            r: expr_result(r),
        }),
        went_on(*old(ctx), *final(ctx), *final(scope)),
        r is Ok ==> expr_ok(final(ctx)@, r->Ok_0@),
        r is Err ==> flow_ok(final(ctx)@, r->Err_0@),
    decreases expr_id.0, 9nat,
{
    let b = ctx.builder;
    let bound: usize = expr_id.0;
    proof {
        reveal(steps::lower_expr);
        reveal(earlier);
        reveal(lower_kind);
        reveal(expr_ok);
        lemma_extends_refl(ctx@);
    }
    let expr: &Expr = b.function_def.exprs[expr_id.0];
    match expr {
        Expr::Tuple(expr) => lower_expr_tuple(ctx, expr, scope, bound),
        Expr::Assignment(expr) => lower_expr_assignment(ctx, expr, scope, bound),
        Expr::Block(expr) => lower_expr_block(ctx, scope, expr, bound),
        Expr::FunctionCall(expr) => lower_expr_function_call(ctx, expr, scope, bound),
        Expr::Match(expr) => lower_expr_match(ctx, expr, scope, bound),
        Expr::If(expr) => lower_expr_if(ctx, scope, expr, bound),
        Expr::Var(expr) => match use_semantic_var(ctx, scope, expr.var, expr.stable_ptr) {
            Ok(var) => Ok(LoweredExpr::AtVariable(var)),
            Err(err) => Err(err),
        },
        Expr::Literal(expr) => Ok(
            LoweredExpr::AtVariable(
                Literal { value: copy_vec(&expr.value), ty: expr.ty }.add(ctx, scope),
            ),
        ),
        Expr::MemberAccess(expr) => lower_expr_member_access(ctx, expr, scope, bound),
        Expr::StructCtor(expr) => lower_expr_struct_ctor(ctx, expr, scope, bound),
        Expr::EnumVariantCtor(expr) => lower_expr_enum_ctor(ctx, expr, scope, bound),
        Expr::PropagateError(expr) => lower_expr_error_propagate(ctx, expr, scope, bound),
        Expr::Missing(expr) => Err(LoweringFlowError::Failed(expr.diag_added)),
    }
}

/// Lowers an expression before `bound`.
fn lower_earlier(
    ctx: &mut LoweringContext<'_>,
    scope: &mut BlockScope,
    expr_id: ExprId,
    bound: usize,
) -> (r: Result<LoweredExpr, LoweringFlowError>)
    requires
        ctx_ok(old(ctx)@),
        scope_ok(old(ctx)@, old(scope)@),
        defined(earlier(old(ctx).builder, bound as nat)(old(ctx)@, old(scope)@, expr_id).r),
    ensures
        earlier(old(ctx).builder, bound as nat)(old(ctx)@, old(scope)@, expr_id) == (Step {
            c: final(ctx)@,
            s: final(scope)@,
            r: expr_result(r),
        }),
        went_on(*old(ctx), *final(ctx), *final(scope)),
        r is Ok ==> expr_ok(final(ctx)@, r->Ok_0@),
        r is Err ==> flow_ok(final(ctx)@, r->Err_0@),
    decreases bound, 0nat,
{
    proof {
        lemma_earlier(ctx.builder, bound as nat, ctx@, scope@, expr_id);
    }
    lower_expr(ctx, scope, expr_id)
}

/// Lowers an expression before `bound` and stores it in a variable.
fn lower_expr_as_var(
    ctx: &mut LoweringContext<'_>,
    scope: &mut BlockScope,
    expr_id: ExprId,
    bound: usize,
) -> (r: Result<LivingVar, LoweringFlowError>)
    requires
        ctx_ok(old(ctx)@),
        scope_ok(old(ctx)@, old(scope)@),
        defined(
            steps::lower_expr_var(
                old(ctx).builder,
                old(ctx)@,
                old(scope)@,
                earlier(old(ctx).builder, bound as nat),
                expr_id,
            ).r,
        ),
    ensures
        steps::lower_expr_var(
            old(ctx).builder,
            old(ctx)@,
            old(scope)@,
            earlier(old(ctx).builder, bound as nat),
            expr_id,
        ) == (Step {
            c: final(ctx)@,
            s: final(scope)@,
            r: flow_result(r),
        }),
        went_on(*old(ctx), *final(ctx), *final(scope)),
        r is Ok ==> var_ok(final(ctx)@, r->Ok_0),
        r is Err ==> flow_ok(final(ctx)@, r->Err_0@),
    decreases bound, 1nat,
{
    let ghost c0 = ctx@;
    proof {
        reveal(steps::lower_expr_var);
    }
    match lower_earlier(ctx, scope, expr_id, bound) {
        Ok(lowered_expr) => {
            let ghost c1 = ctx@;
            let r = lowered_expr.var(ctx, scope);
            proof {
                lemma_extends_trans(c0, c1, ctx@);
            }
            r
        },
        Err(err) => Err(err),
    }
}

/// Lowers an expression of type [ExprTuple].
fn lower_expr_tuple(
    ctx: &mut LoweringContext<'_>,
    expr: &ExprTuple,
    scope: &mut BlockScope,
    bound: usize,
) -> (r: Result<LoweredExpr, LoweringFlowError>)
    requires
        ctx_ok(old(ctx)@),
        scope_ok(old(ctx)@, old(scope)@),
        defined(
            steps::lower_expr_tuple(
                old(ctx)@,
                old(scope)@,
                earlier(old(ctx).builder, bound as nat),
                *expr,
            ).r,
        ),
    ensures
        steps::lower_expr_tuple(
            old(ctx)@,
            old(scope)@,
            earlier(old(ctx).builder, bound as nat),
            *expr,
        ) == (Step {
            c: final(ctx)@,
            s: final(scope)@,
            r: expr_result(r),
        }),
        went_on(*old(ctx), *final(ctx), *final(scope)),
        r is Ok ==> expr_ok(final(ctx)@, r->Ok_0@),
        r is Err ==> flow_ok(final(ctx)@, r->Err_0@),
    decreases bound, 2nat,
{
    let b = ctx.builder;
    let ghost c0 = ctx@;
    let ghost l = earlier(b, bound as nat);
    let ghost whole = steps::lower_expr_tuple(c0, scope@, l, *expr);
    let ghost all = steps::lower_exprs(c0, scope@, l, expr.items@, 0, Seq::empty());
    let mut inputs: Vec<LoweredExpr> = Vec::new();
    let mut i: usize = 0;
    proof {
        reveal(steps::lower_expr_tuple);
        lemma_extends_refl(c0);
        assert(expr_models(inputs@) =~= Seq::empty());
    }
    while i < expr.items.len()
        invariant
            i <= expr.items@.len(),
            b == ctx.builder,
            b == old(ctx).builder,
            l == earlier(b, bound as nat),
            c0 == old(ctx)@,
            ctx_ok(c0),
            grew(*old(ctx), *ctx),
            scope_ok(ctx@, scope@),
            exprs_ok(ctx@, expr_models(inputs@)),
            all == steps::lower_exprs(
                ctx@,
                scope@,
                l,
                expr.items@,
                i as int,
                expr_models(inputs@),
            ),
            defined(all.r),
            whole == steps::lower_expr_tuple(c0, old(scope)@, l, *expr),
            all.r is Err ==> whole == ended::<LoweredExprModel>(
                all.c,
                all.s,
                all.r->Err_0,
            ),
        decreases expr.items@.len() - i,
    {
        let ghost c1 = ctx@;
        let ghost es = expr_models(inputs@);
        proof {
            reveal(steps::lower_exprs);
        }
        let lowered = lower_earlier(ctx, scope, expr.items[i], bound);
        proof {
            lemma_extends_trans(c0, c1, ctx@);
            lemma_later(c1, ctx@);
        }
        match lowered {
            Ok(lowered_expr) => {
                proof {
                    assert(exprs_ok(ctx@, es));
                    assert(expr_models(inputs@.push(lowered_expr)) =~= es.push(lowered_expr@));
                }
                inputs.push(lowered_expr);
            },
            Err(err) => {
                return Err(err);
            },
        }
        i += 1;
    }
    proof {
        reveal(steps::lower_exprs);
        lemma_tuple_model(inputs);
        reveal_with_fuel(expr_ok, 2);
    }
    Ok(LoweredExpr::Tuple(inputs))
}

/// Lowers a sequence of expressions and return them all. If the flow ended in the middle,
/// propagates that flow error without returning any variable.
fn lower_exprs_as_vars(
    ctx: &mut LoweringContext<'_>,
    exprs: &Vec<ExprId>,
    scope: &mut BlockScope,
    bound: usize,
) -> (r: Result<Vec<LivingVar>, LoweringFlowError>)
    requires
        ctx_ok(old(ctx)@),
        scope_ok(old(ctx)@, old(scope)@),
        defined(
            steps::lower_exprs_as_vars(
                old(ctx).builder,
                old(ctx)@,
                old(scope)@,
                earlier(old(ctx).builder, bound as nat),
                exprs@,
                0,
                Seq::empty(),
            ).r,
        ),
    ensures
        steps::lower_exprs_as_vars(
            old(ctx).builder,
            old(ctx)@,
            old(scope)@,
            earlier(old(ctx).builder, bound as nat),
            exprs@,
            0,
            Seq::empty(),
        ) == (Step {
            c: final(ctx)@,
            s: final(scope)@,
            r: vars_result(r),
        }),
        went_on(*old(ctx), *final(ctx), *final(scope)),
        r is Ok ==> vars_ok(final(ctx)@, r->Ok_0@),
        r is Err ==> flow_ok(final(ctx)@, r->Err_0@),
    decreases bound, 2nat,
{
    let b = ctx.builder;
    let ghost c0 = ctx@;
    let ghost l = earlier(b, bound as nat);
    let ghost all = steps::lower_exprs_as_vars(b, c0, scope@, l, exprs@, 0, Seq::empty());
    let mut vars: Vec<LivingVar> = Vec::new();
    let mut i: usize = 0;
    proof {
        lemma_extends_refl(c0);
        assert(vars@ =~= Seq::empty());
    }
    while i < exprs.len()
        invariant
            i <= exprs@.len(),
            b == ctx.builder,
            b == old(ctx).builder,
            l == earlier(b, bound as nat),
            c0 == old(ctx)@,
            ctx_ok(c0),
            grew(*old(ctx), *ctx),
            scope_ok(ctx@, scope@),
            vars_ok(ctx@, vars@),
            all == steps::lower_exprs_as_vars(b, ctx@, scope@, l, exprs@, i as int, vars@),
            defined(all.r),
            all == steps::lower_exprs_as_vars(b, c0, old(scope)@, l, exprs@, 0, Seq::empty()),
        decreases exprs@.len() - i,
    {
        let ghost c1 = ctx@;
        proof {
            reveal(steps::lower_exprs_as_vars);
        }
        let var = lower_expr_as_var(ctx, scope, exprs[i], bound);
        proof {
            lemma_extends_trans(c0, c1, ctx@);
            lemma_later(c1, ctx@);
        }
        match var {
            Ok(var) => {
                vars.push(var);
            },
            Err(err) => {
                return Err(err);
            },
        }
        i += 1;
    }
    proof {
        reveal(steps::lower_exprs_as_vars);
    }
    Ok(vars)
}

/// Lowers an expression of type [ExprAssignment].
fn lower_expr_assignment(
    ctx: &mut LoweringContext<'_>,
    expr: &ExprAssignment,
    scope: &mut BlockScope,
    bound: usize,
) -> (r: Result<LoweredExpr, LoweringFlowError>)
    requires
        ctx_ok(old(ctx)@),
        scope_ok(old(ctx)@, old(scope)@),
        defined(
            steps::lower_expr_assignment(
                old(ctx).builder,
                old(ctx)@,
                old(scope)@,
                earlier(old(ctx).builder, bound as nat),
                *expr,
            ).r,
        ),
    ensures
        steps::lower_expr_assignment(
            old(ctx).builder,
            old(ctx)@,
            old(scope)@,
            earlier(old(ctx).builder, bound as nat),
            *expr,
        ) == (Step {
            c: final(ctx)@,
            s: final(scope)@,
            r: expr_result(r),
        }),
        went_on(*old(ctx), *final(ctx), *final(scope)),
        r is Ok ==> expr_ok(final(ctx)@, r->Ok_0@),
        r is Err ==> flow_ok(final(ctx)@, r->Err_0@),
    decreases bound, 2nat,
{
    proof {
        reveal(steps::lower_expr_assignment);
    }
    scope.try_ensure_semantic_variable(expr.var);
    match lower_expr_as_var(ctx, scope, expr.rhs, bound) {
        Ok(var) => {
            scope.put_semantic_variable(expr.var, var);
            let items: Vec<LoweredExpr> = Vec::new();
            proof {
                lemma_unit_model(items);
                lemma_unit_ok(ctx@);
            }
            Ok(LoweredExpr::Tuple(items))
        },
        Err(err) => Err(err),
    }
}

/// Lowers an expression of type [ExprEnumVariantCtor].
fn lower_expr_enum_ctor(
    ctx: &mut LoweringContext<'_>,
    expr: &ExprEnumVariantCtor,
    scope: &mut BlockScope,
    bound: usize,
) -> (r: Result<LoweredExpr, LoweringFlowError>)
    requires
        ctx_ok(old(ctx)@),
        scope_ok(old(ctx)@, old(scope)@),
        defined(
            steps::lower_expr_enum_ctor(
                old(ctx).builder,
                old(ctx)@,
                old(scope)@,
                earlier(old(ctx).builder, bound as nat),
                *expr,
            ).r,
        ),
    ensures
        steps::lower_expr_enum_ctor(
            old(ctx).builder,
            old(ctx)@,
            old(scope)@,
            earlier(old(ctx).builder, bound as nat),
            *expr,
        ) == (Step {
            c: final(ctx)@,
            s: final(scope)@,
            r: expr_result(r),
        }),
        went_on(*old(ctx), *final(ctx), *final(scope)),
        r is Ok ==> expr_ok(final(ctx)@, r->Ok_0@),
        r is Err ==> flow_ok(final(ctx)@, r->Err_0@),
    decreases bound, 2nat,
{
    let ghost c0 = ctx@;
    proof {
        reveal(steps::lower_expr_enum_ctor);
        reveal(expr_ok);
    }
    match lower_expr_as_var(ctx, scope, expr.value_expr, bound) {
        Ok(input) => {
            let ghost c1 = ctx@;
            let var = EnumConstruct { input, variant: expr.variant }.add(ctx, scope);
            proof {
                lemma_extends_trans(c0, c1, ctx@);
            }
            Ok(LoweredExpr::AtVariable(var))
        },
        Err(err) => Err(err),
    }
}

/// The place of the first member with the identifier.
fn find_member(members: &Vec<Member>, member: MemberId) -> (r: Option<usize>)
    ensures
        match r {
            Some(k) => k < members@.len() && member_position(members@, member, 0) == Some(k as int),
            None => member_position(members@, member, 0) is None,
        },
{
    let mut i: usize = 0;
    while i < members.len()
        invariant
            i <= members@.len(),
            member_position(members@, member, 0) == member_position(members@, member, i as int),
        decreases members@.len() - i,
    {
        if members[i].id == member {
            return Some(i);
        }
        i += 1;
    }
    None
}

/// Lowers an expression of type [ExprMemberAccess].
fn lower_expr_member_access(
    ctx: &mut LoweringContext<'_>,
    expr: &ExprMemberAccess,
    scope: &mut BlockScope,
    bound: usize,
) -> (r: Result<LoweredExpr, LoweringFlowError>)
    requires
        ctx_ok(old(ctx)@),
        scope_ok(old(ctx)@, old(scope)@),
        defined(
            steps::lower_expr_member_access(
                old(ctx).builder,
                old(ctx)@,
                old(scope)@,
                earlier(old(ctx).builder, bound as nat),
                *expr,
            ).r,
        ),
    ensures
        steps::lower_expr_member_access(
            old(ctx).builder,
            old(ctx)@,
            old(scope)@,
            earlier(old(ctx).builder, bound as nat),
            *expr,
        ) == (Step {
            c: final(ctx)@,
            s: final(scope)@,
            r: expr_result(r),
        }),
        went_on(*old(ctx), *final(ctx), *final(scope)),
        r is Ok ==> expr_ok(final(ctx)@, r->Ok_0@),
        r is Err ==> flow_ok(final(ctx)@, r->Err_0@),
    decreases bound, 2nat,
{
    let b = ctx.builder;
    let ghost c0 = ctx@;
    proof {
        reveal(steps::lower_expr_member_access);
        reveal(expr_ok);
        lemma_extends_refl(c0);
    }
    let members = match b.db.struct_members(expr.struct_id) {
        Ok(members) => members,
        Err(diag_added) => {
            return Err(LoweringFlowError::Failed(diag_added));
        },
    };
    let member_idx = match to_maybe(find_member(&members, expr.member)) {
        Ok(member_idx) => member_idx,
        Err(diag_added) => {
            return Err(LoweringFlowError::Failed(diag_added));
        },
    };
    match lower_expr_as_var(ctx, scope, expr.expr, bound) {
        Ok(input) => {
            let ghost c1 = ctx@;
            let member_tys = member_types(&members);
            let var = StructMemberAccess { input, member_tys, member_idx }.add(ctx, scope);
            proof {
                lemma_extends_trans(c0, c1, ctx@);
            }
            Ok(LoweredExpr::AtVariable(var))
        },
        Err(err) => Err(err),
    }
}

/// The value of the member.
fn find_member_expr(values: &Vec<(MemberId, ExprId)>, member: MemberId) -> (r:
    Option<ExprId>)
    ensures
        r == last_member_expr(values@, member, values@.len() as int),
{
    let mut i: usize = values.len();
    while i > 0
        invariant
            i <= values@.len(),
            last_member_expr(values@, member, values@.len() as int) == last_member_expr(
                values@,
                member,
                i as int,
            ),
        decreases i,
    {
        if values[i - 1].0 == member {
            return Some(values[i - 1].1);
        }
        i -= 1;
    }
    None
}

/// Lowers an expression of type [ExprStructCtor].
fn lower_expr_struct_ctor(
    ctx: &mut LoweringContext<'_>,
    expr: &ExprStructCtor,
    scope: &mut BlockScope,
    bound: usize,
) -> (r: Result<LoweredExpr, LoweringFlowError>)
    requires
        ctx_ok(old(ctx)@),
        scope_ok(old(ctx)@, old(scope)@),
        defined(
            steps::lower_expr_struct_ctor(
                old(ctx).builder,
                old(ctx)@,
                old(scope)@,
                earlier(old(ctx).builder, bound as nat),
                *expr,
            ).r,
        ),
    ensures
        steps::lower_expr_struct_ctor(
            old(ctx).builder,
            old(ctx)@,
            old(scope)@,
            earlier(old(ctx).builder, bound as nat),
            *expr,
        ) == (Step {
            c: final(ctx)@,
            s: final(scope)@,
            r: expr_result(r),
        }),
        went_on(*old(ctx), *final(ctx), *final(scope)),
        r is Ok ==> expr_ok(final(ctx)@, r->Ok_0@),
        r is Err ==> flow_ok(final(ctx)@, r->Err_0@),
    decreases bound, 2nat,
{
    let b = ctx.builder;
    let ghost c0 = ctx@;
    let ghost l = earlier(b, bound as nat);
    let ghost whole = steps::lower_expr_struct_ctor(b, c0, scope@, l, *expr);
    proof {
        reveal(steps::lower_expr_struct_ctor);
        reveal(expr_ok);
        lemma_extends_refl(c0);
    }
    let members = match b.db.struct_members(expr.struct_id) {
        Ok(members) => members,
        Err(diag_added) => {
            return Err(LoweringFlowError::Failed(diag_added));
        },
    };
    let mut inputs: Vec<LivingVar> = Vec::new();
    let mut i: usize = 0;
    let ghost all = steps::lower_members(
        b,
        c0,
        scope@,
        l,
        members@,
        expr.members@,
        0,
        Seq::empty(),
    );
    proof {
        assert(inputs@ =~= Seq::empty());
    }
    while i < members.len()
        invariant
            i <= members@.len(),
            b == ctx.builder,
            b == old(ctx).builder,
            l == earlier(b, bound as nat),
            c0 == old(ctx)@,
            ctx_ok(c0),
            grew(*old(ctx), *ctx),
            scope_ok(ctx@, scope@),
            vars_ok(ctx@, inputs@),
            all == steps::lower_members(
                b,
                ctx@,
                scope@,
                l,
                members@,
                expr.members@,
                i as int,
                inputs@,
            ),
            defined(all.r),
            whole == steps::lower_expr_struct_ctor(b, c0, old(scope)@, l, *expr),
            all.r is Err ==> whole == ended::<LoweredExprModel>(
                all.c,
                all.s,
                all.r->Err_0,
            ),
        decreases members@.len() - i,
    {
        let ghost c1 = ctx@;
        proof {
            reveal(steps::lower_members);
        }
        let member_expr = match find_member_expr(&expr.members, members[i].id) {
            Some(member_expr) => member_expr,
            None => unreached(),
        };
        let var = lower_expr_as_var(ctx, scope, member_expr, bound);
        proof {
            lemma_extends_trans(c0, c1, ctx@);
            lemma_later(c1, ctx@);
        }
        match var {
            Ok(var) => {
                inputs.push(var);
            },
            Err(err) => {
                return Err(err);
            },
        }
        i += 1;
    }
    let ghost c1 = ctx@;
    let var = StructConstruct { inputs, ty: expr.ty }.add(ctx, scope);
    proof {
        reveal(steps::lower_members);
        lemma_extends_trans(c0, c1, ctx@);
    }
    Ok(LoweredExpr::AtVariable(var))
}

/// Lowers an expression of type [ExprPropagateError].
fn lower_expr_error_propagate(
    ctx: &mut LoweringContext<'_>,
    expr: &ExprPropagateError,
    scope: &mut BlockScope,
    bound: usize,
) -> (r: Result<LoweredExpr, LoweringFlowError>)
    requires
        ctx_ok(old(ctx)@),
        scope_ok(old(ctx)@, old(scope)@),
        defined(
            steps::lower_expr_error_propagate(
                old(ctx).builder,
                old(ctx)@,
                old(scope)@,
                earlier(old(ctx).builder, bound as nat),
                *expr,
            ).r,
        ),
    ensures
        steps::lower_expr_error_propagate(
            old(ctx).builder,
            old(ctx)@,
            old(scope)@,
            earlier(old(ctx).builder, bound as nat),
            *expr,
        ) == (Step {
            c: final(ctx)@,
            s: final(scope)@,
            r: expr_result(r),
        }),
        went_on(*old(ctx), *final(ctx), *final(scope)),
        r is Ok ==> expr_ok(final(ctx)@, r->Ok_0@),
        r is Err ==> flow_ok(final(ctx)@, r->Err_0@),
    decreases bound, 2nat,
{
    let ghost c0 = ctx@;
    proof {
        reveal(steps::lower_expr_error_propagate);
    }
    match lower_earlier(ctx, scope, expr.inner, bound) {
        Ok(lowered_expr) => {
            let ghost c1 = ctx@;
            let r = lower_error_propagate(
                ctx,
                scope,
                lowered_expr,
                &expr.ok_variant,
                &expr.err_variant,
                &expr.func_err_variant,
            );
            proof {
                lemma_extends_trans(c0, c1, ctx@);
            }
            r
        },
        Err(err) => Err(err),
    }
}

/// Lowers an expression of type [ExprFunctionCall].
fn lower_expr_function_call(
    ctx: &mut LoweringContext<'_>,
    expr: &ExprFunctionCall,
    scope: &mut BlockScope,
    bound: usize,
) -> (r: Result<LoweredExpr, LoweringFlowError>)
    requires
        ctx_ok(old(ctx)@),
        scope_ok(old(ctx)@, old(scope)@),
        defined(
            steps::lower_expr_function_call(
                old(ctx).builder,
                old(ctx)@,
                old(scope)@,
                earlier(old(ctx).builder, bound as nat),
                *expr,
            ).r,
        ),
    ensures
        steps::lower_expr_function_call(
            old(ctx).builder,
            old(ctx)@,
            old(scope)@,
            earlier(old(ctx).builder, bound as nat),
            *expr,
        ) == (Step {
            c: final(ctx)@,
            s: final(scope)@,
            r: expr_result(r),
        }),
        went_on(*old(ctx), *final(ctx), *final(scope)),
        r is Ok ==> expr_ok(final(ctx)@, r->Ok_0@),
        r is Err ==> flow_ok(final(ctx)@, r->Err_0@),
    decreases bound, 4nat,
{
    let b = ctx.builder;
    let ghost c0 = ctx@;
    proof {
        reveal(steps::lower_expr_function_call);
    }
    let arg_inputs = match lower_exprs_as_vars(ctx, &expr.args, scope, bound) {
        Ok(arg_inputs) => arg_inputs,
        Err(err) => {
            return Err(err);
        },
    };
    let ghost c1 = ctx@;
    let refs = take_ref_args(ctx, scope, &expr.ref_args, expr.stable_ptr);
    let ghost c2 = ctx@;
    proof {
        lemma_extends_trans(c0, c1, c2);
        lemma_later(c1, c2);
    }
    let (ref_tys, ref_inputs) = match refs {
        Ok(refs) => refs,
        Err(err) => {
            return Err(err);
        },
    };
    let callee_implicit_types = match b.db.function_all_implicits(expr.function) {
        Ok(callee_implicit_types) => callee_implicit_types,
        Err(diag_added) => {
            return Err(LoweringFlowError::Failed(diag_added));
        },
    };
    let taken = take_implicits(scope, &callee_implicit_types);
    let mut inputs = match to_maybe(taken) {
        Ok(implicits) => implicits,
        Err(diag_added) => {
            return Err(LoweringFlowError::Failed(diag_added));
        },
    };
    assert(vars_ok(c2, inputs@));
    extend_copies(&mut inputs, &ref_inputs);
    extend_copies(&mut inputs, &arg_inputs);
    let r = finish_function_call(ctx, scope, expr, inputs, callee_implicit_types, ref_tys);
    proof {
        lemma_extends_trans(c0, c2, ctx@);
    }
    r
}

/// Lowers a semantic statement. Its expression comes before `bound`.
pub fn lower_statement(
    ctx: &mut LoweringContext<'_>,
    scope: &mut BlockScope,
    stmt: &Statement,
    bound: usize,
) -> (r: Result<(), LoweringFlowError>)
    requires
        ctx_ok(old(ctx)@),
        scope_ok(old(ctx)@, old(scope)@),
        defined(
            steps::lower_statement(
                old(ctx).builder,
                old(ctx)@,
                old(scope)@,
                earlier(old(ctx).builder, bound as nat),
                *stmt,
            ).r,
        ),
    ensures
        steps::lower_statement(
            old(ctx).builder,
            old(ctx)@,
            old(scope)@,
            earlier(old(ctx).builder, bound as nat),
            *stmt,
        ) == (Step {
            c: final(ctx)@,
            s: final(scope)@,
            r: flow_result(r),
        }),
        went_on(*old(ctx), *final(ctx), *final(scope)),
        r is Err ==> flow_ok(final(ctx)@, r->Err_0@),
    decreases bound, 2nat,
{
    let ghost c0 = ctx@;
    proof {
        reveal(steps::lower_statement);
    }
    match stmt {
        Statement::Expr(stmt) => match lower_earlier(ctx, scope, stmt.expr, bound) {
            Ok(lowered_expr) => {
                // The LoweredExpr must be evaluated now to push/bring back variables in case it is
                // LoweredExpr::ExternEnum.
                match lowered_expr {
                    LoweredExpr::ExternEnum(x) => {
                        let ghost c1 = ctx@;
                        proof {
                            reveal(expr_ok);
                        }
                        let var = x.var(ctx, scope);
                        proof {
                            lemma_extends_trans(c0, c1, ctx@);
                        }
                        match var {
                            Ok(_) => Ok(()),
                            Err(err) => Err(err),
                        }
                    },
                    LoweredExpr::AtVariable(_) => Ok(()),
                    LoweredExpr::Tuple(_) => Ok(()),
                }
            },
            Err(err) => Err(err),
        },
        Statement::Let(stmt) => match lower_earlier(ctx, scope, stmt.expr, bound) {
            Ok(lowered_expr) => {
                let ghost c1 = ctx@;
                let r = lower_single_pattern(ctx, scope, &stmt.pattern, &lowered_expr);
                proof {
                    lemma_extends_trans(c0, c1, ctx@);
                }
                r
            },
            Err(err) => Err(err),
        },
        Statement::Return(stmt) => match lower_earlier(ctx, scope, stmt.expr, bound) {
            Ok(lowered_expr) => {
                let ghost c1 = ctx@;
                let full = get_full_return_vars(ctx, scope, lowered_expr);
                proof {
                    lemma_extends_trans(c0, c1, ctx@);
                }
                match full {
                    Ok((refs, returned)) => Err(LoweringFlowError::Return { refs, returned }),
                    Err(err) => Err(err),
                }
            },
            Err(err) => Err(err),
        },
    }
}

/// Lowers an expression that is either a complete block, or the end (tail expreesion) of a
/// block. It comes before `bound`.
pub fn lower_tail_expr(
    ctx: &mut LoweringContext<'_>,
    scope: &mut BlockScope,
    expr: Option<ExprId>,
    root: bool,
    bound: usize,
) -> (r: Maybe<BlockScopeEnd>)
    requires
        ctx_ok(old(ctx)@),
        scope_ok(old(ctx)@, old(scope)@),
        end_defined(
            steps::lower_tail_expr(
                old(ctx).builder,
                old(ctx)@,
                old(scope)@,
                earlier(old(ctx).builder, bound as nat),
                expr,
                root,
            ).r,
        ),
    ensures
        steps::lower_tail_expr(
            old(ctx).builder,
            old(ctx)@,
            old(scope)@,
            earlier(old(ctx).builder, bound as nat),
            expr,
            root,
        ) == (Step {
            c: final(ctx)@,
            s: final(scope)@,
            r: end_result(r),
        }),
        went_on(*old(ctx), *final(ctx), *final(scope)),
        r is Ok ==> end_ok(final(ctx)@, r->Ok_0@),
        root && r is Ok ==> r->Ok_0 !is Callsite,
    decreases bound, 2nat,
{
    let ghost c0 = ctx@;
    proof {
        reveal(steps::lower_tail_expr);
        lemma_extends_refl(c0);
        match expr {
            Some(e) => {
                let step = earlier(ctx.builder, bound as nat)(c0, scope@, e);
                assert(defined(step.r)) by {
                    reveal(steps::expr_end);
                }
            },
            None => {},
        }
    }
    let lowered_expr = match expr {
        Some(expr) => lower_earlier(ctx, scope, expr, bound),
        None => {
            let items: Vec<LoweredExpr> = Vec::new();
            proof {
                lemma_unit_model(items);
                lemma_unit_ok(ctx@);
            }
            Ok(LoweredExpr::Tuple(items))
        },
    };
    let ghost c1 = ctx@;
    let r = lowered_expr_to_block_scope_end(ctx, scope, lowered_expr, root);
    proof {
        lemma_extends_trans(c0, c1, ctx@);
    }
    r
}

/// Lowers a semantic block. The expressions in it come before `bound`.
pub fn lower_block(
    ctx: &mut LoweringContext<'_>,
    scope: &mut BlockScope,
    expr_block: &ExprBlock,
    root: bool,
    bound: usize,
) -> (r: Maybe<BlockScopeEnd>)
    requires
        ctx_ok(old(ctx)@),
        scope_ok(old(ctx)@, old(scope)@),
        end_defined(
            steps::lower_block(
                old(ctx).builder,
                old(ctx)@,
                old(scope)@,
                earlier(old(ctx).builder, bound as nat),
                *expr_block,
                root,
                0,
            ).r,
        ),
    ensures
        steps::lower_block(
            old(ctx).builder,
            old(ctx)@,
            old(scope)@,
            earlier(old(ctx).builder, bound as nat),
            *expr_block,
            root,
            0,
        ) == (Step {
            c: final(ctx)@,
            s: final(scope)@,
            r: end_result(r),
        }),
        went_on(*old(ctx), *final(ctx), *final(scope)),
        r is Ok ==> end_ok(final(ctx)@, r->Ok_0@),
        root && r is Ok ==> r->Ok_0 !is Callsite,
    decreases bound, 3nat,
{
    let b = ctx.builder;
    let ghost c0 = ctx@;
    let ghost l = earlier(b, bound as nat);
    let ghost whole = steps::lower_block(b, c0, scope@, l, *expr_block, root, 0);
    let statements = b.function_def.statements;
    let n: usize = expr_block.statements.len();
    let mut i: usize = 0;
    proof {
        lemma_extends_refl(c0);
    }
    while i < n
        invariant
            i <= n == expr_block.statements@.len(),
            statements == b.function_def.statements,
            b == ctx.builder,
            b == old(ctx).builder,
            l == earlier(b, bound as nat),
            c0 == old(ctx)@,
            ctx_ok(c0),
            grew(*old(ctx), *ctx),
            scope_ok(ctx@, scope@),
            whole == steps::lower_block(b, ctx@, scope@, l, *expr_block, root, i as int),
            end_defined(whole.r),
            whole == steps::lower_block(b, c0, old(scope)@, l, *expr_block, root, 0),
        decreases n - i,
    {
        let ghost c1 = ctx@;
        proof {
            reveal(steps::lower_block);
        }
        let stmt = &statements[expr_block.statements[i].0];
        let lowered_stmt = lower_statement(ctx, scope, stmt, bound);
        let ghost c2 = ctx@;
        proof {
            lemma_extends_trans(c0, c1, c2);
        }
        // If flow is not reachable anymore, no need to continue emitting statements.
        if let Err(err) = lowered_stmt {
            let end = match lowering_flow_error_to_block_scope_end(err) {
                Ok(end) => end,
                Err(diag_added) => {
                    return Err(diag_added);
                },
            };
            if i + 1 < n {
                let start_stmt = &statements[expr_block.statements[i + 1].0];
                let end_stmt = &statements[expr_block.statements[n - 1].0];
                // Emit diagnostic fo the rest of the statements with unreachable.
                ctx.report(
                    start_stmt.stable_ptr(),
                    LoweringDiagnosticKind::Unreachable {
                        last_statement_ptr: end_stmt.stable_ptr(),
                    },
                );
                proof {
                    lemma_extends_trans(c0, c2, ctx@);
                    lemma_later(c2, ctx@);
                }
            }
            return Ok(end);
        }
        i += 1;
    }
    proof {
        reveal(steps::lower_block);
    }
    // Determine correct block end.
    if expr_block.tail.is_none() && !root {
        return Ok(BlockScopeEnd::Callsite(None));
    }
    let ghost c1 = ctx@;
    let r = lower_tail_expr(ctx, scope, expr_block.tail, root, bound);
    proof {
        lemma_extends_trans(c0, c1, ctx@);
    }
    r
}

/// Lowers an expression of type [ExprBlock].
fn lower_expr_block(
    ctx: &mut LoweringContext<'_>,
    scope: &mut BlockScope,
    expr: &ExprBlock,
    bound: usize,
) -> (r: Result<LoweredExpr, LoweringFlowError>)
    requires
        ctx_ok(old(ctx)@),
        scope_ok(old(ctx)@, old(scope)@),
        defined(
            steps::lower_expr_block(
                old(ctx).builder,
                old(ctx)@,
                old(scope)@,
                earlier(old(ctx).builder, bound as nat),
                *expr,
            ).r,
        ),
    ensures
        steps::lower_expr_block(
            old(ctx).builder,
            old(ctx)@,
            old(scope)@,
            earlier(old(ctx).builder, bound as nat),
            *expr,
        ) == (Step {
            c: final(ctx)@,
            s: final(scope)@,
            r: expr_result(r),
        }),
        went_on(*old(ctx), *final(ctx), *final(scope)),
        r is Ok ==> expr_ok(final(ctx)@, r->Ok_0@),
        r is Err ==> flow_ok(final(ctx)@, r->Err_0@),
    decreases bound, 4nat,
{
    let ghost c0 = ctx@;
    proof {
        reveal(steps::lower_expr_block);
    }
    let no_vars = Vec::new();
    let no_tys = Vec::new();
    assert(no_vars@ =~= Seq::empty());
    assert(no_tys@ =~= Seq::empty());
    let mut merger = BlockFlowMerger::with(scope, &no_vars);
    let mut subscope = merger.start_subscope(ctx, &no_tys);
    let ghost c1 = ctx@;
    subscope.bind_refs();
    let end = lower_block(ctx, &mut subscope, expr, false, bound);
    let ghost c2 = ctx@;
    proof {
        lemma_extends_trans(c0, c1, c2);
        lemma_later(c0, c2);
        lemma_later(c1, c2);
    }
    let end = match end {
        Ok(end) => end,
        Err(diag_added) => {
            return Err(LoweringFlowError::Failed(diag_added));
        },
    };
    let block_sealed = merger.seal(subscope, end);
    let finalized_merger = merger.finalize(ctx);
    let block = finalized_merger.finalize_block(ctx, block_sealed);
    let ghost c3 = ctx@;
    proof {
        lemma_extends_trans(c0, c2, c3);
        lemma_later(c0, c3);
    }
    // Emit the statement.
    let block_result = CallBlock { block, end_info: &finalized_merger.end_info }.add(ctx, scope);
    proof {
        lemma_extends_trans(c0, c3, ctx@);
        lemma_extends_trans(c2, c3, ctx@);
        lemma_finalized_later(c2, ctx@, finalized_merger@);
    }
    lowered_expr_from_block_result(ctx, scope, block_result, finalized_merger)
}

/// Lowers what is inside the block of a match arm.
fn lower_arm_body(
    ctx: &mut LoweringContext<'_>,
    scope: &mut BlockScope,
    inner_pattern: &Pattern,
    variant_expr: LoweredExpr,
    expression: ExprId,
    bound: usize,
) -> (r: Maybe<BlockScopeEnd>)
    requires
        ctx_ok(old(ctx)@),
        scope_ok(old(ctx)@, old(scope)@),
        expr_ok(old(ctx)@, variant_expr@),
        end_defined(
            arm_body(
                old(ctx).builder,
                old(ctx)@,
                old(scope)@,
                earlier(old(ctx).builder, bound as nat),
                *inner_pattern,
                variant_expr@,
                expression,
            ).r,
        ),
    ensures
        arm_body(
            old(ctx).builder,
            old(ctx)@,
            old(scope)@,
            earlier(old(ctx).builder, bound as nat),
            *inner_pattern,
            variant_expr@,
            expression,
        ) == (Step {
            c: final(ctx)@,
            s: final(scope)@,
            r: end_result(r),
        }),
        went_on(*old(ctx), *final(ctx), *final(scope)),
        r is Ok ==> end_ok(final(ctx)@, r->Ok_0@),
    decreases bound, 3nat,
{
    let ghost c0 = ctx@;
    proof {
        reveal(arm_body);
    }
    match lower_single_pattern(ctx, scope, inner_pattern, &variant_expr) {
        Ok(_) => {
            let ghost c1 = ctx@;
            // Lower the arm expression.
            let r = lower_tail_expr(ctx, scope, Some(expression), false, bound);
            proof {
                lemma_extends_trans(c0, c1, ctx@);
            }
            r
        },
        Err(err) => lowering_flow_error_to_block_scope_end(err),
    }
}

/// Lowers the block of an arm of a match on an enum.
fn lower_match_arm(
    ctx: &mut LoweringContext<'_>,
    merger: &mut BlockFlowMerger,
    concrete_variant: &ConcreteVariant,
    arm: &MatchArm,
    stable_ptr: SyntaxStablePtrId,
    bound: usize,
) -> (r: Maybe<BlockSealed>)
    requires
        ctx_ok(old(ctx)@),
        merger_ok(old(ctx)@, old(merger)@),
        end_defined(
            lower_enum_arm(
                old(ctx).builder,
                old(ctx)@,
                old(merger)@,
                earlier(old(ctx).builder, bound as nat),
                *concrete_variant,
                *arm,
                stable_ptr,
            ).r,
        ),
    ensures
        lower_enum_arm(
            old(ctx).builder,
            old(ctx)@,
            old(merger)@,
            earlier(old(ctx).builder, bound as nat),
            *concrete_variant,
            *arm,
            stable_ptr,
        ) == (ArmStep {
            c: final(ctx)@,
            m: final(merger)@,
            r: sealed_result(r),
        }),
        arm_went(*old(ctx), *final(ctx), old(merger)@, final(merger)@, r),
    decreases bound, 4nat,
{
    let ghost c0 = ctx@;
    proof {
        reveal(lower_enum_arm);
    }
    let input_tys = vec![concrete_variant.ty];
    assert(input_tys@ =~= seq![concrete_variant.ty]);
    // Create a scope for the arm block.
    let mut subscope = merger.start_subscope(ctx, &input_tys);
    let ghost c1 = ctx@;
    subscope.bind_refs();
    if let Pattern::EnumVariant(enum_pattern) = &arm.pattern {
        if enum_pattern.variant == *concrete_variant {
            proof {
                assert(var_ok(c1, subscope.inputs@[0]));
                reveal(expr_ok);
            }
            let variant_expr = LoweredExpr::AtVariable(subscope.inputs[0]);
            let end = lower_arm_body(
                ctx,
                &mut subscope,
                &enum_pattern.inner_pattern,
                variant_expr,
                arm.expression,
                bound,
            );
            proof {
                lemma_extends_trans(c0, c1, ctx@);
                lemma_later(c1, ctx@);
            }
            return match end {
                Ok(end) => Ok(merger.seal(subscope, end)),
                Err(diag_added) => Err(diag_added),
            };
        }
    }
    let diag_added = ctx.report(stable_ptr, LoweringDiagnosticKind::UnsupportedMatchArm);
    proof {
        lemma_extends_trans(c0, c1, ctx@);
        lemma_later(c1, ctx@);
    }
    Err(diag_added)
}

/// Lowers the block of an arm of a match on an external function.
fn lower_extern_match_arm(
    ctx: &mut LoweringContext<'_>,
    merger: &mut BlockFlowMerger,
    extern_enum: &LoweredExprExternEnum,
    concrete_variant: &ConcreteVariant,
    arm: &MatchArm,
    bound: usize,
) -> (r: Maybe<BlockSealed>)
    requires
        ctx_ok(old(ctx)@),
        merger_ok(old(ctx)@, old(merger)@),
        end_defined(
            lower_extern_arm(
                old(ctx).builder,
                old(ctx)@,
                old(merger)@,
                earlier(old(ctx).builder, bound as nat),
                extern_enum@,
                *concrete_variant,
                *arm,
            ).r,
        ),
    ensures
        lower_extern_arm(
            old(ctx).builder,
            old(ctx)@,
            old(merger)@,
            earlier(old(ctx).builder, bound as nat),
            extern_enum@,
            *concrete_variant,
            *arm,
        ) == (ArmStep {
            c: final(ctx)@,
            m: final(merger)@,
            r: sealed_result(r),
        }),
        arm_went(*old(ctx), *final(ctx), old(merger)@, final(merger)@, r),
    decreases bound, 4nat,
{
    let ghost c0 = ctx@;
    proof {
        reveal(lower_extern_arm);
    }
    let input_tys = match_extern_variant_arm_input_types(ctx, concrete_variant.ty, extern_enum);
    // Create a scope for the arm block.
    let mut subscope = merger.start_subscope(ctx, &input_tys);
    let ghost c1 = ctx@;
    if let Pattern::EnumVariant(enum_pattern) = &arm.pattern {
        if enum_pattern.variant == *concrete_variant {
            // Bind the arm inputs to implicits and semantic variables.
            let mut arm_inputs = copy_vec(&subscope.inputs);
            match_extern_arm_ref_args_bind(&mut arm_inputs, extern_enum, &mut subscope);
            assert(facade_tys(c1, concrete_variant.ty) == facade_tys(c0, concrete_variant.ty));
            let variant_expr = extern_facade_expr(ctx, concrete_variant.ty, arm_inputs);
            let end = lower_arm_body(
                ctx,
                &mut subscope,
                &enum_pattern.inner_pattern,
                variant_expr,
                arm.expression,
                bound,
            );
            proof {
                lemma_extends_trans(c0, c1, ctx@);
                lemma_later(c1, ctx@);
            }
            return match end {
                Ok(end) => Ok(merger.seal(subscope, end)),
                Err(diag_added) => Err(diag_added),
            };
        }
    }
    let diag_added = ctx.report(
        extern_enum.stable_ptr,
        LoweringDiagnosticKind::UnsupportedMatchArm,
    );
    proof {
        lemma_extends_trans(c0, c1, ctx@);
        lemma_later(c1, ctx@);
    }
    Err(diag_added)
}

/// Lowers a match expression on a LoweredExpr::ExternEnum lowered expression.
fn lower_optimized_extern_match(
    ctx: &mut LoweringContext<'_>,
    scope: &mut BlockScope,
    extern_enum: LoweredExprExternEnum,
    match_arms: &Vec<MatchArm>,
    bound: usize,
) -> (r: Result<LoweredExpr, LoweringFlowError>)
    requires
        ctx_ok(old(ctx)@),
        scope_ok(old(ctx)@, old(scope)@),
        vars_ok(old(ctx)@, extern_enum.inputs@),
        defined(
            optimized_extern_match(
                old(ctx).builder,
                old(ctx)@,
                old(scope)@,
                earlier(old(ctx).builder, bound as nat),
                extern_enum@,
                match_arms@,
            ).r,
        ),
    ensures
        optimized_extern_match(
            old(ctx).builder,
            old(ctx)@,
            old(scope)@,
            earlier(old(ctx).builder, bound as nat),
            extern_enum@,
            match_arms@,
        ) == (Step {
            c: final(ctx)@,
            s: final(scope)@,
            r: expr_result(r),
        }),
        went_on(*old(ctx), *final(ctx), *final(scope)),
        r is Ok ==> expr_ok(final(ctx)@, r->Ok_0@),
        r is Err ==> flow_ok(final(ctx)@, r->Err_0@),
    decreases bound, 5nat,
{
    let b = ctx.builder;
    let ghost c0 = ctx@;
    let ghost x = extern_enum@;
    let ghost l = earlier(b, bound as nat);
    let ghost whole = optimized_extern_match(b, c0, scope@, l, x, match_arms@);
    proof {
        reveal(optimized_extern_match);
        lemma_extends_refl(c0);
    }
    let concrete_variants = match b.db.concrete_enum_variants(extern_enum.concrete_enum_id) {
        Ok(concrete_variants) => concrete_variants,
        Err(diag_added) => {
            return Err(LoweringFlowError::Failed(diag_added));
        },
    };
    if match_arms.len() != concrete_variants.len() {
        return Err(LoweringFlowError::Failed(skip_diagnostic()));
    }
    let ghost variants = concrete_variants@;
    // Merge arm blocks.
    let mut merger = BlockFlowMerger::with(scope, &extern_enum.ref_args);
    let ghost s1 = scope@;
    let ghost all = lower_extern_arms(b, c0, merger@, l, x, variants, match_arms@, 0, Seq::empty());
    // Create a sealed block for each arm.
    let mut sealed: Vec<BlockSealed> = Vec::new();
    let mut i: usize = 0;
    proof {
        assert(sealed_models(sealed@) =~= Seq::empty());
    }
    while i < concrete_variants.len()
        invariant
            i <= concrete_variants@.len() == match_arms@.len(),
            variants == concrete_variants@,
            b == ctx.builder,
            b == old(ctx).builder,
            l == earlier(b, bound as nat),
            x == extern_enum@,
            c0 == old(ctx)@,
            s1 == scope@,
            ctx_ok(c0),
            grew(*old(ctx), *ctx),
            scope_ok(ctx@, scope@),
            merger_ok(ctx@, merger@),
            sealed@.len() == i,
            all_known(ctx@, merger@, sealed_models(sealed@)),
            all == lower_extern_arms(
                b,
                ctx@,
                merger@,
                l,
                x,
                variants,
                match_arms@,
                i as int,
                sealed_models(sealed@),
            ),
            end_defined(all.r),
            whole == optimized_extern_match(b, c0, old(scope)@, l, x, match_arms@),
            all.r is Err ==> whole == ended::<LoweredExprModel>(
                all.c,
                s1,
                FlowModel::Failed(all.r->Err_0),
            ),
        decreases concrete_variants@.len() - i,
    {
        let ghost c1 = ctx@;
        let ghost m1 = merger@;
        let ghost sealed1 = sealed_models(sealed@);
        proof {
            reveal(lower_extern_arms);
        }
        let block = lower_extern_match_arm(
            ctx,
            &mut merger,
            &extern_enum,
            &concrete_variants[i],
            &match_arms[i],
            bound,
        );
        proof {
            lemma_extends_trans(c0, c1, ctx@);
            lemma_later(c1, ctx@);
        }
        match block {
            Ok(block) => {
                proof {
                    lemma_known_push(c1, ctx@, m1, merger@, sealed1, block@);
                    assert(sealed_models(sealed@.push(block)) =~= sealed1.push(block@));
                }
                sealed.push(block);
            },
            Err(diag_added) => {
                return Err(LoweringFlowError::Failed(diag_added));
            },
        }
        i += 1;
    }
    let ghost c1 = ctx@;
    proof {
        reveal(lower_extern_arms);
        lemma_later(c0, c1);
    }
    // Emit the statement.
    let r = finish_match_extern(
        ctx,
        scope,
        merger,
        sealed,
        extern_enum.function,
        extern_enum.inputs,
        concrete_variants,
    );
    proof {
        lemma_extends_trans(c0, c1, ctx@);
    }
    r
}

/// Lowers a block that is one expression.
fn lower_branch_block(
    ctx: &mut LoweringContext<'_>,
    merger: &mut BlockFlowMerger,
    input_tys: Vec<TypeId>,
    expr: ExprId,
    bound: usize,
) -> (r: Maybe<BlockSealed>)
    requires
        ctx_ok(old(ctx)@),
        merger_ok(old(ctx)@, old(merger)@),
        end_defined(
            lower_branch(
                old(ctx).builder,
                old(ctx)@,
                old(merger)@,
                earlier(old(ctx).builder, bound as nat),
                input_tys@,
                expr,
            ).r,
        ),
    ensures
        lower_branch(
            old(ctx).builder,
            old(ctx)@,
            old(merger)@,
            earlier(old(ctx).builder, bound as nat),
            input_tys@,
            expr,
        ) == (ArmStep {
            c: final(ctx)@,
            m: final(merger)@,
            r: sealed_result(r),
        }),
        arm_went(*old(ctx), *final(ctx), old(merger)@, final(merger)@, r),
    decreases bound, 3nat,
{
    let ghost c0 = ctx@;
    proof {
        reveal(lower_branch);
    }
    let mut subscope = merger.start_subscope(ctx, &input_tys);
    let ghost c1 = ctx@;
    subscope.bind_refs();
    let end = lower_tail_expr(ctx, &mut subscope, Some(expr), false, bound);
    proof {
        lemma_extends_trans(c0, c1, ctx@);
        lemma_later(c1, ctx@);
    }
    match end {
        Ok(end) => Ok(merger.seal(subscope, end)),
        Err(diag_added) => Err(diag_added),
    }
}

/// Lowers a statement with two branches. The second is lowered even if the first fails.
fn lower_two_branches(
    ctx: &mut LoweringContext<'_>,
    scope: &mut BlockScope,
    first: (Vec<TypeId>, ExprId),
    second: (Vec<TypeId>, ExprId),
    kind: BranchKind,
    bound: usize,
) -> (r: Result<LoweredExpr, LoweringFlowError>)
    requires
        ctx_ok(old(ctx)@),
        scope_ok(old(ctx)@, old(scope)@),
        var_ok(old(ctx)@, kind.input_of()),
        defined(
            lower_branches(
                old(ctx).builder,
                old(ctx)@,
                old(scope)@,
                earlier(old(ctx).builder, bound as nat),
                (first.0@, first.1),
                (second.0@, second.1),
                kind,
            ).r,
        ),
    ensures
        lower_branches(
            old(ctx).builder,
            old(ctx)@,
            old(scope)@,
            earlier(old(ctx).builder, bound as nat),
            (first.0@, first.1),
            (second.0@, second.1),
            kind,
        ) == (Step {
            c: final(ctx)@,
            s: final(scope)@,
            r: expr_result(r),
        }),
        went_on(*old(ctx), *final(ctx), *final(scope)),
        r is Ok ==> expr_ok(final(ctx)@, r->Ok_0@),
        r is Err ==> flow_ok(final(ctx)@, r->Err_0@),
    decreases bound, 4nat,
{
    let b = ctx.builder;
    let ghost c0 = ctx@;
    proof {
        reveal(lower_branches);
    }
    // Lower both blocks.
    let no_vars = Vec::new();
    assert(no_vars@ =~= Seq::empty());
    let mut merger = BlockFlowMerger::with(scope, &no_vars);
    let first_block = lower_branch_block(ctx, &mut merger, first.0, first.1, bound);
    let ghost c1 = ctx@;
    let second_block = lower_branch_block(ctx, &mut merger, second.0, second.1, bound);
    let ghost c2 = ctx@;
    proof {
        lemma_extends_trans(c0, c1, c2);
        lemma_later(c0, c2);
        lemma_later(c1, c2);
    }
    let finalized_merger = merger.finalize(ctx);
    let first_sealed = match first_block {
        Ok(block) => block,
        Err(diag_added) => {
            return Err(LoweringFlowError::Failed(diag_added));
        },
    };
    let first_finalized = finalized_merger.finalize_block(ctx, first_sealed);
    let ghost c3 = ctx@;
    proof {
        lemma_extends_trans(c0, c2, c3);
        lemma_later(c2, c3);
        lemma_finalized_later(c2, c3, finalized_merger@);
    }
    let second_sealed = match second_block {
        Ok(block) => block,
        Err(diag_added) => {
            return Err(LoweringFlowError::Failed(diag_added));
        },
    };
    let second_finalized = finalized_merger.finalize_block(ctx, second_sealed);
    let ghost c4 = ctx@;
    proof {
        lemma_extends_trans(c0, c3, c4);
        lemma_later(c3, c4);
        assert(c4.blocks[first_finalized.0 as int] == c3.blocks[first_finalized.0 as int]);
    }
    // Emit the statement.
    let block_result = match kind {
        BranchKind::FeltZero { input } => {
            let concrete_variants = vec![
                b.db.core.jump_nz_zero_variant,
                b.db.core.jump_nz_nonzero_variant,
            ];
            let arms = zip_eq(concrete_variants, vec![first_finalized, second_finalized]);
            let inputs = vec![input];
            proof {
                assert(arms@ =~= seq![
                    (b.db.core.jump_nz_zero_variant, first_finalized),
                    (b.db.core.jump_nz_nonzero_variant, second_finalized),
                ]);
                assert(inputs@ =~= seq![input]);
            }
            MatchExtern {
                function: b.db.core.jump_nz_func,
                inputs,
                arms,
                end_info: &finalized_merger.end_info,
            }.add(ctx, scope)
        },
        BranchKind::If { input } => {
            let concrete_variants = vec![b.db.core.false_variant, b.db.core.true_variant];
            let arms = zip_eq(concrete_variants, vec![second_finalized, first_finalized]);
            proof {
                assert(arms@ =~= seq![
                    (b.db.core.false_variant, second_finalized),
                    (b.db.core.true_variant, first_finalized),
                ]);
            }
            MatchEnum {
                input,
                concrete_enum_id: b.db.core.bool_enum,
                arms,
                end_info: &finalized_merger.end_info,
            }.add(ctx, scope)
        },
    };
    proof {
        lemma_extends_trans(c0, c4, ctx@);
        lemma_extends_trans(c2, c3, c4);
        lemma_extends_trans(c2, c4, ctx@);
        lemma_finalized_later(c2, ctx@, finalized_merger@);
    }
    lowered_expr_from_block_result(ctx, scope, block_result, finalized_merger)
}

/// Lowers an expression of type [ExprIf].
fn lower_expr_if(
    ctx: &mut LoweringContext<'_>,
    scope: &mut BlockScope,
    expr: &ExprIf,
    bound: usize,
) -> (r: Result<LoweredExpr, LoweringFlowError>)
    requires
        ctx_ok(old(ctx)@),
        scope_ok(old(ctx)@, old(scope)@),
        defined(
            steps::lower_expr_if(
                old(ctx).builder,
                old(ctx)@,
                old(scope)@,
                earlier(old(ctx).builder, bound as nat),
                *expr,
            ).r,
        ),
    ensures
        steps::lower_expr_if(
            old(ctx).builder,
            old(ctx)@,
            old(scope)@,
            earlier(old(ctx).builder, bound as nat),
            *expr,
        ) == (Step {
            c: final(ctx)@,
            s: final(scope)@,
            r: expr_result(r),
        }),
        went_on(*old(ctx), *final(ctx), *final(scope)),
        r is Ok ==> expr_ok(final(ctx)@, r->Ok_0@),
        r is Err ==> flow_ok(final(ctx)@, r->Err_0@),
    decreases bound, 5nat,
{
    let b = ctx.builder;
    let ghost c0 = ctx@;
    proof {
        reveal(steps::lower_expr_if);
    }
    match lower_expr_as_var(ctx, scope, expr.condition, bound) {
        Ok(input) => {
            let ghost c1 = ctx@;
            let if_tys = vec![b.db.core.unit_ty];
            let else_tys = vec![b.db.core.unit_ty];
            assert(if_tys@ =~= seq![b.db.core.unit_ty]);
            assert(else_tys@ =~= seq![b.db.core.unit_ty]);
            let r = lower_two_branches(
                ctx,
                scope,
                (if_tys, expr.if_block),
                (else_tys, expr.else_block),
                BranchKind::If { input },
                bound,
            );
            proof {
                lemma_extends_trans(c0, c1, ctx@);
            }
            r
        },
        Err(err) => Err(err),
    }
}

/// Lowers an expression of type [ExprMatch] where the matched expression is a
/// felt. Currently only a simple match-zero is supported.
fn lower_expr_match_felt(
    ctx: &mut LoweringContext<'_>,
    expr: &ExprMatch,
    expr_var: LivingVar,
    scope: &mut BlockScope,
    bound: usize,
) -> (r: Result<LoweredExpr, LoweringFlowError>)
    requires
        ctx_ok(old(ctx)@),
        scope_ok(old(ctx)@, old(scope)@),
        var_ok(old(ctx)@, expr_var),
        defined(
            steps::lower_match_felt(
                old(ctx).builder,
                old(ctx)@,
                old(scope)@,
                earlier(old(ctx).builder, bound as nat),
                *expr,
                expr_var,
            ).r,
        ),
    ensures
        steps::lower_match_felt(
            old(ctx).builder,
            old(ctx)@,
            old(scope)@,
            earlier(old(ctx).builder, bound as nat),
            *expr,
            expr_var,
        ) == (Step {
            c: final(ctx)@,
            s: final(scope)@,
            r: expr_result(r),
        }),
        went_on(*old(ctx), *final(ctx), *final(scope)),
        r is Ok ==> expr_ok(final(ctx)@, r->Ok_0@),
        r is Err ==> flow_ok(final(ctx)@, r->Err_0@),
    decreases bound, 5nat,
{
    let b = ctx.builder;
    let ghost c0 = ctx@;
    proof {
        reveal(steps::lower_match_felt);
    }
    // Check that the match has the expected form.
    if expr.arms.len() == 2 {
        if let Pattern::Literal(pattern) = &expr.arms[0].pattern {
            if let Pattern::Otherwise(_) = &expr.arms[1].pattern {
                let literal = &pattern.literal;
                // Make sure literal is 0.
                if !is_zero(&literal.value) {
                    let diag_added = ctx.report(
                        literal.stable_ptr,
                        LoweringDiagnosticKind::NonZeroValueInMatch,
                    );
                    proof {
                        lemma_later(c0, ctx@);
                    }
                    return Err(LoweringFlowError::Failed(diag_added));
                }
                let no_tys = Vec::new();
                let otherwise_tys = vec![b.db.core.nonzero_felt_ty];
                assert(no_tys@ =~= Seq::empty());
                assert(otherwise_tys@ =~= seq![b.db.core.nonzero_felt_ty]);
                return lower_two_branches(
                    ctx,
                    scope,
                    (no_tys, expr.arms[0].expression),
                    (otherwise_tys, expr.arms[1].expression),
                    BranchKind::FeltZero { input: expr_var },
                    bound,
                );
            }
        }
    }
    let diag_added = ctx.report(
        expr.stable_ptr,
        LoweringDiagnosticKind::OnlyMatchZeroIsSupported,
    );
    proof {
        lemma_later(c0, ctx@);
    }
    Err(LoweringFlowError::Failed(diag_added))
}

/// Extracts concrete enum and variants from a match expression. Assumes it is indeed a concrete
/// enum.
fn extract_concrete_enum(ctx: &mut LoweringContext<'_>, expr: &ExprMatch, ty: TypeId) -> (r: Result<
    (ConcreteEnumId, Vec<ConcreteVariant>),
    LoweringFlowError,
>)
    requires
        defined(matched_enum(old(ctx).builder, old(ctx)@, *expr, ty).1),
    ensures
        ({
            let (c, found) = matched_enum(old(ctx).builder, old(ctx)@, *expr, ty);
            &&& c == final(ctx)@
            &&& match r {
                Ok((id, variants)) => found is Ok && found->Ok_0 == (id, variants@)
                    && variants@.len() == expr.arms@.len(),
                Err(f) => found is Err && found->Err_0 == f@,
            }
        }),
        grew(*old(ctx), *final(ctx)),
        r is Err ==> r->Err_0 is Failed,
{
    let b = ctx.builder;
    proof {
        reveal(matched_enum);
        lemma_extends_refl(ctx@);
    }
    let concrete_enum_id = match ctx.lookup_intern_type(ty) {
        Some(TypeLongId::Concrete(ConcreteTypeId::Enum(concrete_enum_id))) => *concrete_enum_id,
        _ => {
            return Err(LoweringFlowError::Failed(skip_diagnostic()));
        },
    };
    let enum_id = b.db.concrete_enums[concrete_enum_id.0].enum_id;
    let variants = match b.db.enum_variants(enum_id) {
        Ok(variants) => variants,
        Err(diag_added) => {
            return Err(LoweringFlowError::Failed(diag_added));
        },
    };
    let ghost all = steps::concrete_variants_from(
        b,
        concrete_enum_id,
        variants@,
        0,
        Seq::empty(),
    );
    let mut concrete_variants: Vec<ConcreteVariant> = Vec::new();
    let mut i: usize = 0;
    assert(concrete_variants@ =~= Seq::empty());
    while i < variants.len()
        invariant
            i <= variants@.len(),
            b == ctx.builder,
            ctx@ == old(ctx)@,
            *ctx == *old(ctx),
            grew(*old(ctx), *ctx),
            concrete_enum_id.0 < b.db.concrete_enums@.len(),
            enum_id == b.db.concrete_enums@[concrete_enum_id.0 as int].enum_id,
            all == steps::concrete_variants_from(
                b,
                concrete_enum_id,
                variants@,
                i as int,
                concrete_variants@,
            ),
            all is None ==> matched_enum(b, ctx@, *expr, ty) == (
                ctx@,
                Err::<(ConcreteEnumId, Seq<ConcreteVariant>), _>(
                    FlowModel::Failed(Failure::Diagnosed),
                ),
            ),
        decreases variants@.len() - i,
    {
        let variant = match b.db.variant_semantic(enum_id, variants[i]) {
            Ok(variant) => variant,
            Err(diag_added) => {
                return Err(LoweringFlowError::Failed(diag_added));
            },
        };
        match b.db.concrete_enum_variant(concrete_enum_id, &variant) {
            Ok(concrete_variant) => {
                concrete_variants.push(concrete_variant);
            },
            Err(diag_added) => {
                return Err(LoweringFlowError::Failed(diag_added));
            },
        }
        i += 1;
    }
    if expr.arms.len() != concrete_variants.len() {
        return Err(
            LoweringFlowError::Failed(
                ctx.report(expr.stable_ptr, LoweringDiagnosticKind::UnsupportedMatch),
            ),
        );
    }
    Ok((concrete_enum_id, concrete_variants))
}

/// Lowers an expression of type [ExprMatch].
#[verifier::rlimit(40)]
fn lower_expr_match(
    ctx: &mut LoweringContext<'_>,
    expr: &ExprMatch,
    scope: &mut BlockScope,
    bound: usize,
) -> (r: Result<LoweredExpr, LoweringFlowError>)
    requires
        ctx_ok(old(ctx)@),
        scope_ok(old(ctx)@, old(scope)@),
        defined(
            steps::lower_expr_match(
                old(ctx).builder,
                old(ctx)@,
                old(scope)@,
                earlier(old(ctx).builder, bound as nat),
                *expr,
            ).r,
        ),
    ensures
        steps::lower_expr_match(
            old(ctx).builder,
            old(ctx)@,
            old(scope)@,
            earlier(old(ctx).builder, bound as nat),
            *expr,
        ) == (Step {
            c: final(ctx)@,
            s: final(scope)@,
            r: expr_result(r),
        }),
        went_on(*old(ctx), *final(ctx), *final(scope)),
        r is Ok ==> expr_ok(final(ctx)@, r->Ok_0@),
        r is Err ==> flow_ok(final(ctx)@, r->Err_0@),
    decreases bound, 6nat,
{
    let b = ctx.builder;
    let ghost c0 = ctx@;
    let ghost l = earlier(b, bound as nat);
    let ghost whole = steps::lower_expr_match(b, c0, scope@, l, *expr);
    proof {
        reveal(steps::lower_expr_match);
    }
    let ty = b.function_def.exprs[expr.matched_expr.0].ty();
    let lowered_expr = match lower_earlier(ctx, scope, expr.matched_expr, bound) {
        Ok(lowered_expr) => lowered_expr,
        Err(err) => {
            return Err(err);
        },
    };
    let ghost c1 = ctx@;
    if ty == b.db.core.felt_ty {
        let var = match lowered_expr.var(ctx, scope) {
            Ok(var) => var,
            Err(err) => {
                proof {
                    lemma_extends_trans(c0, c1, ctx@);
                }
                return Err(err);
            },
        };
        let ghost c2 = ctx@;
        let r = lower_expr_match_felt(ctx, expr, var, scope, bound);
        proof {
            lemma_extends_trans(c0, c1, c2);
            lemma_extends_trans(c0, c2, ctx@);
        }
        return r;
    }
    if let LoweredExpr::ExternEnum(extern_enum) = lowered_expr {
        proof {
            reveal(expr_ok);
        }
        let r = lower_optimized_extern_match(ctx, scope, extern_enum, &expr.arms, bound);
        proof {
            lemma_extends_trans(c0, c1, ctx@);
        }
        return r;
    }
    let found = extract_concrete_enum(ctx, expr, ty);
    let ghost c2 = ctx@;
    proof {
        lemma_extends_trans(c0, c1, c2);
        lemma_later(c1, c2);
    }
    let (concrete_enum_id, concrete_variants) = match found {
        Ok(found) => found,
        Err(err) => {
            return Err(err);
        },
    };
    let expr_var = match lowered_expr.var(ctx, scope) {
        Ok(var) => var,
        Err(err) => {
            proof {
                lemma_extends_trans(c0, c2, ctx@);
            }
            return Err(err);
        },
    };
    let ghost c3 = ctx@;
    proof {
        lemma_extends_trans(c0, c2, c3);
        lemma_extends_refl(c3);
    }
    let ghost variants = concrete_variants@;
    // Merge arm blocks.
    let no_vars = Vec::new();
    assert(no_vars@ =~= Seq::empty());
    let mut merger = BlockFlowMerger::with(scope, &no_vars);
    let ghost s4 = scope@;
    let ghost all = lower_enum_arms(
        b,
        c3,
        merger@,
        l,
        variants,
        expr.arms@,
        expr.stable_ptr,
        0,
        Seq::empty(),
    );
    // Create a sealed block for each arm.
    let mut sealed: Vec<BlockSealed> = Vec::new();
    let mut i: usize = 0;
    proof {
        assert(sealed_models(sealed@) =~= Seq::empty());
    }
    while i < concrete_variants.len()
        invariant
            i <= concrete_variants@.len() == expr.arms@.len(),
            variants == concrete_variants@,
            b == ctx.builder,
            b == old(ctx).builder,
            l == earlier(b, bound as nat),
            c0 == old(ctx)@,
            s4 == scope@,
            ctx_ok(c0),
            grew(*old(ctx), *ctx),
            extends(c3, ctx@),
            scope_ok(ctx@, scope@),
            merger_ok(ctx@, merger@),
            sealed@.len() == i,
            all_known(ctx@, merger@, sealed_models(sealed@)),
            all == lower_enum_arms(
                b,
                ctx@,
                merger@,
                l,
                variants,
                expr.arms@,
                expr.stable_ptr,
                i as int,
                sealed_models(sealed@),
            ),
            end_defined(all.r),
            whole == steps::lower_expr_match(b, c0, old(scope)@, l, *expr),
            all.r is Err ==> whole == ended::<LoweredExprModel>(
                all.c,
                s4,
                FlowModel::Failed(all.r->Err_0),
            ),
        decreases concrete_variants@.len() - i,
    {
        let ghost c4 = ctx@;
        let ghost m4 = merger@;
        let ghost sealed4 = sealed_models(sealed@);
        proof {
            reveal(lower_enum_arms);
        }
        let block = lower_match_arm(
            ctx,
            &mut merger,
            &concrete_variants[i],
            &expr.arms[i],
            expr.stable_ptr,
            bound,
        );
        proof {
            lemma_extends_trans(c0, c4, ctx@);
            lemma_extends_trans(c3, c4, ctx@);
            lemma_later(c4, ctx@);
        }
        match block {
            Ok(block) => {
                proof {
                    lemma_known_push(c4, ctx@, m4, merger@, sealed4, block@);
                    assert(sealed_models(sealed@.push(block)) =~= sealed4.push(block@));
                }
                sealed.push(block);
            },
            Err(diag_added) => {
                return Err(LoweringFlowError::Failed(diag_added));
            },
        }
        i += 1;
    }
    let ghost c4 = ctx@;
    proof {
        reveal(lower_enum_arms);
        lemma_later(c3, c4);
    }
    // Emit the statement.
    let r = finish_match_enum(
        ctx,
        scope,
        merger,
        sealed,
        concrete_enum_id,
        expr_var,
        concrete_variants,
    );
    proof {
        lemma_extends_trans(c0, c4, ctx@);
    }
    r
}

} // verus!

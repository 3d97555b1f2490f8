//! The binding of patterns.
use crate::collections::{contains_key, copy_vec};
use crate::ids::{MemberId, VarId};
use crate::lowering::context::{
    flow_result, grew, LivingVar, LoweredExpr, LoweringContext, LoweringFlowError,
};
use crate::lowering::generators::{went_on, StructDestructure};
use crate::lowering::keeps::{lemma_extends_refl, lemma_extends_trans, lemma_later};
use crate::lowering::lowered_expr::{expr_models, lemma_tuple_model};
use crate::lowering::model::{
    ctx_ok, defined, expr_ok, exprs_ok, extends, flow_ok, scope_ok, vars_ok, CtxModel,
    LoweredExprModel, Step,
};
use crate::lowering::scope::BlockScope;
use crate::lowering::steps::{
    last_field, lower_pattern, lower_struct_fields, lower_tuple_fields, member_before,
};
use crate::semantic::expr::Pattern;
use crate::semantic::types::{member_types, Member, TypeLongId};
use vstd::pervasive::unreached;
use vstd::prelude::*;

verus! {

/// The place of the last field pattern for the member.
fn find_last_field(fields: &Vec<(Member, Pattern)>, member: MemberId) -> (r: Option<usize>)
    ensures
        match r {
            Some(k) => k < fields@.len() && last_field(fields@, member, fields@.len() as int) == k,
            None => last_field(fields@, member, fields@.len() as int) == -1,
        },
{
    let mut i: usize = fields.len();
    while i > 0
        invariant
            i <= fields@.len(),
            last_field(fields@, member, fields@.len() as int) == last_field(
                fields@,
                member,
                i as int,
            ),
        decreases i,
    {
        if fields[i - 1].0.id == member {
            return Some(i - 1);
        }
        i -= 1;
    }
    None
}

/// The variables as lowered expressions.
fn at_variables(vars: &Vec<LivingVar>, Ghost(c): Ghost<CtxModel>) -> (r: Vec<LoweredExpr>)
    requires
        vars_ok(c, vars@),
    ensures
        expr_models(r@) == vars@.map_values(|v: LivingVar| LoweredExprModel::AtVariable(v)),
        exprs_ok(c, expr_models(r@)),
{
    let mut r: Vec<LoweredExpr> = Vec::new();
    let mut i: usize = 0;
    while i < vars.len()
        invariant
            i <= vars@.len(),
            r@.len() == i,
            forall|j: int| 0 <= j < i ==> (#[trigger] r@[j]) == LoweredExpr::AtVariable(vars@[j]),
        decreases vars@.len() - i,
    {
        r.push(LoweredExpr::AtVariable(vars[i]));
        i += 1;
    }
    proof {
        let es = vars@.map_values(|v: LivingVar| LoweredExprModel::AtVariable(v));
        assert(expr_models(r@) =~= es);
        reveal(expr_ok);
    }
    r
}

/// Lowers a single-pattern (pattern that does not appear in a match. This includes structs,
/// tuples, variables, etc...
/// Adds the bound variables to the scope.
/// Note that single patterns are the only way to bind new local variables in the semantic
/// model.
#[verifier::rlimit(40)]
pub fn lower_single_pattern(
    ctx: &mut LoweringContext<'_>,
    scope: &mut BlockScope,
    pattern: &Pattern,
    lowered_expr: &LoweredExpr,
) -> (r: Result<(), LoweringFlowError>)
    requires
        ctx_ok(old(ctx)@),
        scope_ok(old(ctx)@, old(scope)@),
        expr_ok(old(ctx)@, lowered_expr@),
        defined(
            lower_pattern(old(ctx).builder, old(ctx)@, old(scope)@, *pattern, lowered_expr@).r,
        ),
    ensures
        lower_pattern(old(ctx).builder, old(ctx)@, old(scope)@, *pattern, lowered_expr@) == (Step {
            c: final(ctx)@,
            s: final(scope)@,
            r: flow_result(r),
        }),
        went_on(*old(ctx), *final(ctx), *final(scope)),
        r is Err ==> flow_ok(final(ctx)@, r->Err_0@),
    decreases pattern,
{
    let b = ctx.builder;
    let ghost c0 = ctx@;
    let ghost s0 = scope@;
    let ghost whole = lower_pattern(b, c0, s0, *pattern, lowered_expr@);
    proof {
        reveal(lower_pattern);
        reveal(lower_struct_fields);
        reveal(lower_tuple_fields);
        lemma_extends_refl(c0);
    }
    match pattern {
        Pattern::Literal(_) => unreached(),
        Pattern::Variable(pattern_var) => {
            let sem_var = pattern_var.var;
            // Deposit the owned variable in the semantic variables store.
            let var = match lowered_expr.var(ctx, scope) {
                Ok(var) => var,
                Err(err) => {
                    return Err(err);
                },
            };
            let ghost c1 = ctx@;
            scope.put_semantic_variable(VarId::Local(sem_var.id), var);
            ctx.define(VarId::Local(sem_var.id), sem_var.ty);
            proof {
                lemma_extends_trans(c0, c1, ctx@);
                lemma_later(c1, ctx@);
            }
            Ok(())
        },
        Pattern::Struct(strct) => {
            let members = match b.db.struct_members(strct.id) {
                Ok(members) => members,
                Err(diag_added) => {
                    return Err(LoweringFlowError::Failed(diag_added));
                },
            };
            let input = match lowered_expr.var(ctx, scope) {
                Ok(var) => var,
                Err(err) => {
                    return Err(err);
                },
            };
            let ghost c1 = ctx@;
            let vars = StructDestructure { input, tys: member_types(&members) }.add(ctx, scope);
            proof {
                lemma_extends_trans(c0, c1, ctx@);
            }
            let ghost c2 = ctx@;
            proof {
                lemma_extends_refl(c2);
            }
            let mut seen: Vec<MemberId> = Vec::new();
            let mut i: usize = 0;
            while i < members.len()
                invariant
                    i <= members@.len() == vars@.len(),
                    b == ctx.builder,
                    b == old(ctx).builder,
                    c0 == old(ctx)@,
                    ctx_ok(c0),
                    grew(*old(ctx), *ctx),
                    extends(c2, ctx@),
                    scope_ok(ctx@, scope@),
                    vars_ok(c2, vars@),
                    *pattern == Pattern::Struct(*strct),
                    seen@.len() == i,
                    forall|j: int| 0 <= j < i ==> (#[trigger] seen@[j]) == members@[j].id,
                    whole == lower_struct_fields(
                        b,
                        ctx@,
                        scope@,
                        *pattern,
                        members@,
                        vars@,
                        i as int,
                    ),
                    defined(whole.r),
                    whole == lower_pattern(b, c0, old(scope)@, *pattern, lowered_expr@),
                decreases members@.len() - i,
            {
                let ghost c3 = ctx@;
                let id = members[i].id;
                let again = contains_key(&seen, id);
                proof {
                    assert(again == member_before(members@, id, i as int)) by {
                        if again {
                            let j = choose|j: int| 0 <= j < seen@.len() && seen@[j] == id;
                            assert(members@[j].id == id);
                        } else if member_before(members@, id, i as int) {
                            let j = choose|j: int|
                                0 <= j < i && j < members@.len() && (#[trigger] members@[j]).id
                                    == id;
                            assert(seen@[j] == id);
                        }
                    }
                    reveal(lower_pattern);
                    reveal(lower_struct_fields);
                    reveal(lower_tuple_fields);
                }
                let field = find_last_field(&strct.field_patterns, id);
                if !again {
                    match field {
                        Some(k) => {
                            proof {
                                lemma_later(c2, c3);
                                reveal(expr_ok);
                            }
                            let value = LoweredExpr::AtVariable(vars[i]);
                            let bound = lower_single_pattern(
                                ctx,
                                scope,
                                &strct.field_patterns[k].1,
                                &value,
                            );
                            proof {
                                lemma_extends_trans(c0, c3, ctx@);
                                lemma_extends_trans(c2, c3, ctx@);
                            }
                            match bound {
                                Ok(_) => {},
                                Err(err) => {
                                    return Err(err);
                                },
                            }
                        },
                        None => {},
                    }
                }
                seen.push(id);
                i += 1;
            }
            Ok(())
        },
        Pattern::Tuple(tuple) => {
            let mut made: Vec<LoweredExpr> = Vec::new();
            let outputs: &Vec<LoweredExpr> = match lowered_expr {
                LoweredExpr::Tuple(items) => {
                    proof {
                        lemma_tuple_model(*items);
                        reveal_with_fuel(expr_ok, 2);
                        assert(exprs_ok(c0, expr_models(items@)));
                    }
                    items
                },
                _ => {
                    let tys = match ctx.lookup_intern_type(tuple.ty) {
                        Some(TypeLongId::Tuple(tys)) => copy_vec(tys),
                        _ => unreached(),
                    };
                    let input = match lowered_expr.var(ctx, scope) {
                        Ok(var) => var,
                        Err(err) => {
                            return Err(err);
                        },
                    };
                    let ghost c1 = ctx@;
                    let vars = StructDestructure { input, tys }.add(ctx, scope);
                    proof {
                        lemma_extends_trans(c0, c1, ctx@);
                    }
                    made = at_variables(&vars, Ghost(ctx@));
                    &made
                },
            };
            let ghost c2 = ctx@;
            let ghost es = expr_models(outputs@);
            proof {
                lemma_extends_refl(c2);
            }
            let mut i: usize = 0;
            while i < outputs.len()
                invariant
                    i <= outputs@.len(),
                    outputs@.len() == tuple.field_patterns@.len(),
                    es == expr_models(outputs@),
                    b == ctx.builder,
                    b == old(ctx).builder,
                    c0 == old(ctx)@,
                    ctx_ok(c0),
                    grew(*old(ctx), *ctx),
                    extends(c2, ctx@),
                    scope_ok(ctx@, scope@),
                    exprs_ok(c2, es),
                    *pattern == Pattern::Tuple(*tuple),
                    whole == lower_tuple_fields(b, ctx@, scope@, *pattern, es, i as int),
                    defined(whole.r),
                    whole == lower_pattern(b, c0, old(scope)@, *pattern, lowered_expr@),
                decreases outputs@.len() - i,
            {
                let ghost c3 = ctx@;
                proof {
                    lemma_later(c2, c3);
                    assert(es[i as int] == outputs@[i as int]@);
                    reveal(lower_pattern);
                    reveal(lower_struct_fields);
                    reveal(lower_tuple_fields);
                }
                let bound = lower_single_pattern(
                    ctx,
                    scope,
                    &tuple.field_patterns[i],
                    &outputs[i],
                );
                proof {
                    lemma_extends_trans(c0, c3, ctx@);
                    lemma_extends_trans(c2, c3, ctx@);
                }
                match bound {
                    Ok(_) => {},
                    Err(err) => {
                        return Err(err);
                    },
                }
                i += 1;
            }
            Ok(())
        },
        Pattern::EnumVariant(_) => unreached(),
        Pattern::Otherwise(_) => Ok(()),
    }
}

} // verus!

//! The storing of lowered expressions in variables.
use crate::collections::copy_vec;
use crate::ids::TypeId;
use crate::lowering::arms::{
    all_known, finish_match_extern, lemma_known_push, match_extern_arm_ref_args_bind,
    match_extern_variant_arm_input_types, sealed_models,
};
use crate::lowering::context::{
    flow_result, grew, BlockScopeEnd, LivingVar, LoweredExpr, LoweredExprExternEnum,
    LoweringContext, LoweringFlowError,
};
use crate::lowering::generators::{went_on, EnumConstruct, StructConstruct};
use crate::lowering::keeps::{lemma_extends_refl, lemma_extends_trans, lemma_later};
use crate::lowering::merge::{BlockFlowMerger, BlockSealed};
use crate::lowering::model::{
    ctx_ok, defined, done, emptied, end_ok, ended, expr_ok, exprs_ok, flow_ok, merger_ok, scope_ok,
    types_of_vars, var_ok, vars_ok, Failure, LoweredExprModel, Step,
};
use crate::lowering::scope::BlockScope;
use crate::lowering::steps;
use crate::lowering::steps::{expr_var, expr_vars, extern_enum_var, extern_var_arms, facade_tys};
use crate::semantic::types::TypeLongId;
use vstd::prelude::*;

verus! {

/// The counterparts of lowered expressions.
pub open spec fn expr_models(es: Seq<LoweredExpr>) -> Seq<LoweredExprModel> {
    es.map_values(|e: LoweredExpr| e@)
}

/// The counterpart of a tuple is the tuple of the counterparts.
pub proof fn lemma_tuple_model(es: Vec<LoweredExpr>)
    ensures
        LoweredExpr::Tuple(es)@ == LoweredExprModel::Tuple(expr_models(es@)),
{
    reveal_with_fuel(LoweredExpr::model, 2);
    let m = LoweredExpr::Tuple(es)@;
    assert(m->Tuple_0 =~= expr_models(es@));
}

/// Packs variables into a tuple.
fn pack_tuple(ctx: &mut LoweringContext<'_>, scope: &mut BlockScope, vars: Vec<LivingVar>) -> (r:
    LivingVar)
    requires
        scope_ok(old(ctx)@, old(scope)@),
        vars_ok(old(ctx)@, vars@),
    ensures
        steps::pack_tuple(old(ctx).builder, old(ctx)@, old(scope)@, vars@) == (Step {
            c: final(ctx)@,
            s: final(scope)@,
            r,
        }),
        went_on(*old(ctx), *final(ctx), *final(scope)),
        var_ok(final(ctx)@, r),
{
    let ghost c0 = ctx@;
    let mut tys: Vec<TypeId> = Vec::new();
    let mut i: usize = 0;
    while i < vars.len()
        invariant
            i <= vars@.len(),
            c0 == ctx@,
            vars_ok(c0, vars@),
            tys@.len() == i,
            forall|j: int|
                0 <= j < i ==> (#[trigger] tys@[j]) == c0.variables[vars@[j].0 as int].ty,
        decreases vars@.len() - i,
    {
        assert(var_ok(c0, vars@[i as int]));
        tys.push(ctx.variables[vars[i].0].ty);
        i += 1;
    }
    assert(tys@ =~= types_of_vars(c0, vars@));
    let ty = ctx.intern_type(TypeLongId::Tuple(tys));
    let ghost c1 = ctx@;
    proof {
        lemma_later(c0, c1);
    }
    let r = StructConstruct { inputs: vars, ty }.add(ctx, scope);
    proof {
        lemma_extends_trans(c0, c1, ctx@);
    }
    r
}

/// The variable of the value of the type that is made of what an external function gives.
fn facade_var(
    ctx: &mut LoweringContext<'_>,
    scope: &mut BlockScope,
    ty: TypeId,
    vars: Vec<LivingVar>,
) -> (r: LivingVar)
    requires
        scope_ok(old(ctx)@, old(scope)@),
        vars_ok(old(ctx)@, vars@),
        vars@.len() == facade_tys(old(ctx)@, ty).len(),
    ensures
        steps::facade_var(old(ctx).builder, old(ctx)@, old(scope)@, ty, vars@) == (Step {
            c: final(ctx)@,
            s: final(scope)@,
            r,
        }),
        went_on(*old(ctx), *final(ctx), *final(scope)),
        var_ok(final(ctx)@, r),
{
    let is_tuple = match ctx.lookup_intern_type(ty) {
        Some(TypeLongId::Tuple(_)) => true,
        _ => false,
    };
    if is_tuple {
        pack_tuple(ctx, scope, vars)
    } else {
        proof {
            lemma_extends_refl(ctx@);
            assert(var_ok(ctx@, vars@[0]));
        }
        vars[0]
    }
}

impl LoweredExprExternEnum {
    /// Performs the call and stores its result in a variable.
    #[verifier::rlimit(40)]
    pub fn var(&self, ctx: &mut LoweringContext<'_>, scope: &mut BlockScope) -> (r: Result<
        LivingVar,
        LoweringFlowError,
    >)
        requires
            ctx_ok(old(ctx)@),
            scope_ok(old(ctx)@, old(scope)@),
            vars_ok(old(ctx)@, self.inputs@),
            defined(extern_enum_var(old(ctx).builder, old(ctx)@, old(scope)@, self@).r),
        ensures
            extern_enum_var(old(ctx).builder, old(ctx)@, old(scope)@, self@) == (Step {
                c: final(ctx)@,
                s: final(scope)@,
                r: flow_result(r),
            }),
            went_on(*old(ctx), *final(ctx), *final(scope)),
            r is Ok ==> var_ok(final(ctx)@, r->Ok_0),
            r is Err ==> flow_ok(final(ctx)@, r->Err_0@),
    {
        let b = ctx.builder;
        let ghost c0 = ctx@;
        let ghost s0 = scope@;
        let ghost x = self@;
        proof {
            reveal(extern_enum_var);
            lemma_extends_refl(c0);
        }
        let concrete_variants = match b.db.concrete_enum_variants(self.concrete_enum_id) {
            Ok(variants) => variants,
            Err(diag_added) => {
                return Err(LoweringFlowError::Failed(diag_added));
            },
        };
        let ghost variants = concrete_variants@;
        let mut merger = BlockFlowMerger::with(scope, &self.ref_args);
        let ghost m0 = merger@;
        let ghost all = extern_var_arms(b, c0, m0, x, variants, 0, Seq::empty());
        let mut sealed: Vec<BlockSealed> = Vec::new();
        let mut i: usize = 0;
        proof {
            assert(sealed_models(sealed@) =~= Seq::empty());
        }
        while i < concrete_variants.len()
            invariant
                i <= concrete_variants@.len(),
                variants == concrete_variants@,
                b == ctx.builder,
                x == self@,
                ctx_ok(c0),
                c0 == old(ctx)@,
                grew(*old(ctx), *ctx),
                scope_ok(ctx@, scope@),
                scope@ == emptied(s0),
                merger_ok(ctx@, merger@),
                all == extern_var_arms(
                    b,
                    ctx@,
                    merger@,
                    x,
                    variants,
                    i as int,
                    sealed_models(sealed@),
                ),
                all.r !== Err(Failure::Stuck),
                sealed@.len() == i,
                all_known(ctx@, merger@, sealed_models(sealed@)),
            decreases concrete_variants@.len() - i,
        {
            let ghost c1 = ctx@;
            let ghost m1 = merger@;
            let ghost sealed1 = sealed_models(sealed@);
            let variant = concrete_variants[i];
            let input_tys = match_extern_variant_arm_input_types(ctx, variant.ty, self);
            // Create a scope for the arm block.
            let mut subscope = merger.start_subscope(ctx, &input_tys);
            let ghost c2 = ctx@;
            let mut arm_inputs = copy_vec(&subscope.inputs);
            match_extern_arm_ref_args_bind(&mut arm_inputs, self, &mut subscope);
            assert(facade_tys(c2, variant.ty) == facade_tys(c1, variant.ty));
            let value = facade_var(ctx, &mut subscope, variant.ty, arm_inputs);
            let ghost c3 = ctx@;
            let output = EnumConstruct { input: value, variant }.add(ctx, &mut subscope);
            proof {
                lemma_extends_trans(c1, c2, c3);
                lemma_extends_trans(c1, c3, ctx@);
                lemma_extends_trans(c0, c1, ctx@);
                lemma_later(c1, ctx@);
            }
            let ghost s4 = subscope@;
            let end = BlockScopeEnd::Callsite(Some(output));
            let ghost end0 = end@;
            assert(end_ok(ctx@, end0));
            let block = merger.seal(subscope, end);
            proof {
                lemma_known_push(c1, ctx@, m1, merger@, sealed1, block@);
                assert(sealed_models(sealed@.push(block)) =~= sealed1.push(block@));
            }
            sealed.push(block);
            i += 1;
        }
        let ghost c1 = ctx@;
        proof {
            lemma_later(c0, c1);
        }
        let inputs = copy_vec(&self.inputs);
        let lowered = finish_match_extern(
            ctx,
            scope,
            merger,
            sealed,
            self.function,
            inputs,
            concrete_variants,
        );
        proof {
            lemma_extends_trans(c0, c1, ctx@);
        }
        let ghost c2 = ctx@;
        match lowered {
            Ok(LoweredExpr::AtVariable(v)) => {
                proof {
                    reveal(expr_ok);
                }
                Ok(v)
            },
            Ok(_) => {
                let none: Vec<LivingVar> = Vec::new();
                assert(none@ =~= Seq::empty());
                let r = pack_tuple(ctx, scope, none);
                proof {
                    lemma_extends_trans(c0, c2, ctx@);
                }
                Ok(r)
            },
            Err(err) => Err(err),
        }
    }
}

impl LoweredExpr {
    /// Stores the value in a variable.
    pub fn var(&self, ctx: &mut LoweringContext<'_>, scope: &mut BlockScope) -> (r: Result<
        LivingVar,
        LoweringFlowError,
    >)
        requires
            ctx_ok(old(ctx)@),
            scope_ok(old(ctx)@, old(scope)@),
            expr_ok(old(ctx)@, self@),
            defined(expr_var(old(ctx).builder, old(ctx)@, old(scope)@, self@).r),
        ensures
            expr_var(old(ctx).builder, old(ctx)@, old(scope)@, self@) == (Step {
                c: final(ctx)@,
                s: final(scope)@,
                r: flow_result(r),
            }),
            went_on(*old(ctx), *final(ctx), *final(scope)),
            r is Ok ==> var_ok(final(ctx)@, r->Ok_0),
            r is Err ==> flow_ok(final(ctx)@, r->Err_0@),
        decreases self,
    {
        proof {
            reveal(expr_var);
            reveal(expr_vars);
            reveal_with_fuel(expr_ok, 2);
            lemma_extends_refl(ctx@);
        }
        match self {
            LoweredExpr::AtVariable(v) => Ok(*v),
            LoweredExpr::Tuple(items) => {
                let ghost c0 = ctx@;
                let ghost es = expr_models(items@);
                let b = ctx.builder;
                let mut vars: Vec<LivingVar> = Vec::new();
                let mut i: usize = 0;
                proof {
                    lemma_tuple_model(*items);
                    assert(vars@ =~= Seq::empty());
                    assert(exprs_ok(c0, es));
                }
                let ghost all = expr_vars(b, c0, scope@, es, 0, vars@);
                while i < items.len()
                    invariant
                        i <= items@.len(),
                        decreases_to!(self => items),
                        es == expr_models(items@),
                        b == ctx.builder,
                        c0 == old(ctx)@,
                        ctx_ok(c0),
                        exprs_ok(c0, es),
                        grew(*old(ctx), *ctx),
                        scope_ok(ctx@, scope@),
                        vars_ok(ctx@, vars@),
                        vars@.len() == i,
                        all == expr_vars(b, ctx@, scope@, es, i as int, vars@),
                        defined(all.r),
                        expr_var(b, c0, old(scope)@, self@) == (match all.r {
                            Ok(vs) => {
                                let packed = steps::pack_tuple(b, all.c, all.s, vs);
                                done(packed.c, packed.s, packed.r)
                            },
                            Err(f) => ended(all.c, all.s, f),
                        }),
                    decreases items@.len() - i,
                {
                    let ghost c1 = ctx@;
                    proof {
                        reveal(expr_var);
                        reveal(expr_vars);
                        lemma_later(c0, c1);
                        assert(es[i as int] == items@[i as int]@);
                        assert(expr_ok(c1, es[i as int]));
                    }
                    let lowered = items[i].var(ctx, scope);
                    proof {
                        lemma_extends_trans(c0, c1, ctx@);
                        lemma_later(c1, ctx@);
                    }
                    match lowered {
                        Ok(v) => {
                            vars.push(v);
                        },
                        Err(err) => {
                            return Err(err);
                        },
                    }
                    i += 1;
                }
                let ghost c1 = ctx@;
                let r = pack_tuple(ctx, scope, vars);
                proof {
                    reveal(expr_vars);
                    lemma_extends_trans(c0, c1, ctx@);
                }
                Ok(r)
            },
            LoweredExpr::ExternEnum(x) => x.var(ctx, scope),
        }
    }
}

} // verus!

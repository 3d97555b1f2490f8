//! The facades of external functions: the values of the source in place of the variables that the
//! functions give.
use crate::collections::copy_vec;
use crate::ids::TypeId;
use crate::lowering::context::{LivingVar, LoweredExpr, LoweringContext};
use crate::lowering::lowered_expr::{expr_models, lemma_tuple_model};
use crate::lowering::model::{expr_ok, vars_ok, LoweredExprModel};
use crate::lowering::steps::{facade_expr, facade_tys};
use crate::semantic::types::TypeLongId;
use vstd::prelude::*;

verus! {

/// The types that an external function gives in place of a value of the type.
pub fn extern_facade_return_tys(ctx: &LoweringContext<'_>, ty: TypeId) -> (r: Vec<TypeId>)
    ensures
        r@ == facade_tys(ctx@, ty),
{
    match ctx.lookup_intern_type(ty) {
        Some(TypeLongId::Tuple(tys)) => copy_vec(tys),
        _ => {
            let r = vec![ty];
            assert(r@ =~= seq![ty]);
            r
        },
    }
}

/// The value of the type that is made of what an external function gives.
pub fn extern_facade_expr(ctx: &LoweringContext<'_>, ty: TypeId, returned: Vec<LivingVar>) -> (r:
    LoweredExpr)
    requires
        returned@.len() == facade_tys(ctx@, ty).len(),
        vars_ok(ctx@, returned@),
    ensures
        r@ == facade_expr(ctx@, ty, returned@),
        expr_ok(ctx@, r@),
{
    match ctx.lookup_intern_type(ty) {
        Some(TypeLongId::Tuple(_)) => {
            let mut items: Vec<LoweredExpr> = Vec::new();
            let mut i: usize = 0;
            while i < returned.len()
                invariant
                    i <= returned@.len(),
                    items@.len() == i,
                    forall|j: int|
                        0 <= j < i ==> (#[trigger] items@[j]) == LoweredExpr::AtVariable(
                            returned@[j],
                        ),
                decreases returned@.len() - i,
            {
                items.push(LoweredExpr::AtVariable(returned[i]));
                i += 1;
            }
            proof {
                lemma_tuple_model(items);
                assert(expr_models(items@) =~= returned@.map_values(
                    |v: LivingVar| LoweredExprModel::AtVariable(v),
                ));
                reveal_with_fuel(expr_ok, 2);
            }
            LoweredExpr::Tuple(items)
        },
        _ => {
            proof {
                reveal(expr_ok);
            }
            LoweredExpr::AtVariable(returned[0])
        },
    }
}

} // verus!

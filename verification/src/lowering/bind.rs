//! Lists of implicits and of variables of the source that are bound at once.
use crate::collections::lookup;
use crate::ids::{TypeId, VarId};
use crate::lowering::context::LivingVar;
use crate::lowering::model::{refs_ok, scope_ok, var_ok, vars_ok, CtxModel};
use crate::lowering::scope::BlockScope;
use crate::lowering::steps;
use crate::outside::zip_eq;
use vstd::prelude::*;

verus! {

/// Gives the implicits their variables.
pub fn put_implicits(scope: &mut BlockScope, tys: Vec<TypeId>, vars: Vec<LivingVar>)
    requires
        tys@.len() == vars@.len(),
    ensures
        final(scope)@ == steps::put_implicits(old(scope)@, tys@, vars@, 0),
        forall|c: CtxModel|
            scope_ok(c, old(scope)@) && vars_ok(c, vars@) ==> #[trigger] scope_ok(c, final(scope)@),
{
    let ghost (tys0, vars0) = (tys@, vars@);
    let pairs = zip_eq(tys, vars);
    let mut i: usize = 0;
    while i < pairs.len()
        invariant
            i <= pairs@.len() == tys0.len() == vars0.len(),
            pairs@ == Seq::new(tys0.len(), |j: int| (tys0[j], vars0[j])),
            steps::put_implicits(old(scope)@, tys0, vars0, 0) == steps::put_implicits(
                scope@,
                tys0,
                vars0,
                i as int,
            ),
            forall|c: CtxModel|
                scope_ok(c, old(scope)@) && vars_ok(c, vars0) ==> #[trigger] scope_ok(c, scope@),
        decreases pairs@.len() - i,
    {
        let ghost s1 = scope@;
        let (ty, var) = pairs[i];
        scope.put_implicit(ty, var);
        proof {
            assert forall|c: CtxModel|
                scope_ok(c, old(scope)@) && vars_ok(c, vars0) implies #[trigger] scope_ok(
                c,
                scope@,
            ) by {
                assert(scope_ok(c, s1));
                assert(var_ok(c, vars0[i as int]));
            }
        }
        i += 1;
    }
}

/// Gives the implicits their variables, and marks them as changed.
pub fn push_implicits(scope: &mut BlockScope, tys: Vec<TypeId>, vars: Vec<LivingVar>)
    requires
        tys@.len() == vars@.len(),
    ensures
        final(scope)@ == steps::push_implicits(old(scope)@, tys@, vars@, 0),
        forall|c: CtxModel|
            scope_ok(c, old(scope)@) && vars_ok(c, vars@) ==> #[trigger] scope_ok(c, final(scope)@),
{
    let mut i: usize = 0;
    while i < tys.len()
        invariant
            i <= tys@.len() == vars@.len(),
            steps::push_implicits(old(scope)@, tys@, vars@, 0) == steps::push_implicits(
                scope@,
                tys@,
                vars@,
                i as int,
            ),
            forall|c: CtxModel|
                scope_ok(c, old(scope)@) && vars_ok(c, vars@) ==> #[trigger] scope_ok(c, scope@),
        decreases tys@.len() - i,
    {
        let ghost s1 = scope@;
        scope.put_implicit(tys[i], vars[i]);
        let ghost s2 = scope@;
        scope.mark_implicit_changed(tys[i]);
        proof {
            assert forall|c: CtxModel|
                scope_ok(c, old(scope)@) && vars_ok(c, vars@) implies #[trigger] scope_ok(
                c,
                scope@,
            ) by {
                assert(scope_ok(c, s1));
                assert(var_ok(c, vars@[i as int]));
                assert(scope_ok(c, s2));
            }
        }
        i += 1;
    }
}

/// Gives the variables of the source their values.
pub fn put_variables(scope: &mut BlockScope, ids: Vec<VarId>, vars: Vec<LivingVar>)
    requires
        ids@.len() == vars@.len(),
    ensures
        final(scope)@ == steps::put_variables(old(scope)@, ids@, vars@, 0),
        forall|c: CtxModel|
            scope_ok(c, old(scope)@) && vars_ok(c, vars@) ==> #[trigger] scope_ok(c, final(scope)@),
{
    let ghost (ids0, vars0) = (ids@, vars@);
    let pairs = zip_eq(ids, vars);
    let mut i: usize = 0;
    while i < pairs.len()
        invariant
            i <= pairs@.len() == ids0.len() == vars0.len(),
            pairs@ == Seq::new(ids0.len(), |j: int| (ids0[j], vars0[j])),
            steps::put_variables(old(scope)@, ids0, vars0, 0) == steps::put_variables(
                scope@,
                ids0,
                vars0,
                i as int,
            ),
            forall|c: CtxModel|
                scope_ok(c, old(scope)@) && vars_ok(c, vars0) ==> #[trigger] scope_ok(c, scope@),
        decreases pairs@.len() - i,
    {
        let ghost s1 = scope@;
        let (id, var) = pairs[i];
        scope.put_semantic_variable(id, var);
        proof {
            assert forall|c: CtxModel|
                scope_ok(c, old(scope)@) && vars_ok(c, vars0) implies #[trigger] scope_ok(
                c,
                scope@,
            ) by {
                assert(scope_ok(c, s1));
                assert(var_ok(c, vars0[i as int]));
            }
        }
        i += 1;
    }
}

/// Gives the implicits of the pairs their variables.
pub fn put_implicit_pairs(scope: &mut BlockScope, pairs: &Vec<(TypeId, LivingVar)>)
    ensures
        final(scope)@ == steps::put_implicit_pairs(old(scope)@, pairs@, 0),
        forall|c: CtxModel|
            scope_ok(c, old(scope)@) && refs_ok(c, pairs@) ==> #[trigger] scope_ok(
                c,
                final(scope)@,
            ),
{
    let mut i: usize = 0;
    while i < pairs.len()
        invariant
            i <= pairs@.len(),
            steps::put_implicit_pairs(old(scope)@, pairs@, 0) == steps::put_implicit_pairs(
                scope@,
                pairs@,
                i as int,
            ),
            forall|c: CtxModel|
                scope_ok(c, old(scope)@) && refs_ok(c, pairs@) ==> #[trigger] scope_ok(c, scope@),
        decreases pairs@.len() - i,
    {
        let ghost s1 = scope@;
        let (ty, var) = pairs[i];
        scope.put_implicit(ty, var);
        proof {
            assert forall|c: CtxModel|
                scope_ok(c, old(scope)@) && refs_ok(c, pairs@) implies #[trigger] scope_ok(
                c,
                scope@,
            ) by {
                assert(scope_ok(c, s1));
                assert(var_ok(c, pairs@[i as int].1));
            }
        }
        i += 1;
    }
}

/// Gives the variables of the source of the pairs their values.
pub fn put_variable_pairs(scope: &mut BlockScope, pairs: &Vec<(VarId, LivingVar)>)
    ensures
        final(scope)@ == steps::put_variable_pairs(old(scope)@, pairs@, 0),
        forall|c: CtxModel|
            scope_ok(c, old(scope)@) && (forall|j: int|
                0 <= j < pairs@.len() ==> var_ok(c, (#[trigger] pairs@[j]).1))
                ==> #[trigger] scope_ok(c, final(scope)@),
{
    let mut i: usize = 0;
    while i < pairs.len()
        invariant
            i <= pairs@.len(),
            steps::put_variable_pairs(old(scope)@, pairs@, 0) == steps::put_variable_pairs(
                scope@,
                pairs@,
                i as int,
            ),
            forall|c: CtxModel|
                scope_ok(c, old(scope)@) && (forall|j: int|
                    0 <= j < pairs@.len() ==> var_ok(c, (#[trigger] pairs@[j]).1))
                    ==> #[trigger] scope_ok(c, scope@),
        decreases pairs@.len() - i,
    {
        let ghost s1 = scope@;
        let (id, var) = pairs[i];
        scope.put_semantic_variable(id, var);
        proof {
            assert forall|c: CtxModel|
                scope_ok(c, old(scope)@) && (forall|j: int|
                    0 <= j < pairs@.len() ==> var_ok(c, (#[trigger] pairs@[j]).1)) implies
                #[trigger] scope_ok(c, scope@) by {
                assert(scope_ok(c, s1));
                assert(var_ok(c, pairs@[i as int].1));
            }
        }
        i += 1;
    }
}

/// Takes the implicits out of the scope. Stops at the first one that is not there.
pub fn take_implicits(scope: &mut BlockScope, tys: &Vec<TypeId>) -> (r: Option<Vec<LivingVar>>)
    ensures
        ({
            let (s, taken) = steps::take_implicits(old(scope)@, tys@, 0, Seq::empty());
            final(scope)@ == s && match r {
                Some(vars) => taken == Some(vars@) && vars@.len() == tys@.len(),
                None => taken is None,
            }
        }),
        forall|c: CtxModel| scope_ok(c, old(scope)@) ==> #[trigger] scope_ok(c, final(scope)@),
        forall|c: CtxModel|
            scope_ok(c, old(scope)@) && r is Some ==> #[trigger] vars_ok(c, r->0@),
{
    let mut taken: Vec<LivingVar> = Vec::new();
    let mut i: usize = 0;
    assert(taken@ =~= Seq::empty());
    while i < tys.len()
        invariant
            i <= tys@.len(),
            taken@.len() == i,
            steps::take_implicits(old(scope)@, tys@, 0, Seq::empty()) == steps::take_implicits(
                scope@,
                tys@,
                i as int,
                taken@,
            ),
            forall|c: CtxModel|
                scope_ok(c, old(scope)@) ==> #[trigger] scope_ok(c, scope@) && vars_ok(c, taken@),
        decreases tys@.len() - i,
    {
        let ghost s1 = scope@;
        let ghost taken1 = taken@;
        let found = scope.take_implicit(tys[i]);
        match found {
            Some(var) => {
                taken.push(var);
                proof {
                    assert(lookup(s1.implicits, tys@[i as int]) == Some(var));
                    assert forall|c: CtxModel| scope_ok(c, old(scope)@) implies #[trigger] scope_ok(
                        c,
                        scope@,
                    ) && vars_ok(c, taken@) by {
                        assert(scope_ok(c, s1));
                        assert(vars_ok(c, taken1));
                        assert(var_ok(c, var));
                    }
                }
            },
            None => {
                return None;
            },
        }
        i += 1;
    }
    assert forall|c: CtxModel| scope_ok(c, old(scope)@) implies #[trigger] vars_ok(c, taken@) by {
        assert(scope_ok(c, scope@));
    }
    Some(taken)
}

} // verus!

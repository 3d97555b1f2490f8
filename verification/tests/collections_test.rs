use cairo_lang::collections::{
    contains_key, copy_vec, extend_copies, same_keys, OrderedMap,
};
use cairo_lang::diagnostics::{skip_diagnostic, to_maybe, DiagnosticAdded};
use cairo_lang::ids::{ExternTypeId, GenericParamId, MemberId, TypeId};
use cairo_lang::interner::Interner;
use cairo_lang::semantic::types::{ConcreteTypeId, TypeInterner, TypeLongId};

#[test]
fn a_map_keeps_the_order_of_its_keys() {
    let mut map = OrderedMap::new();
    map.put(TypeId(5), 1usize);
    map.put(TypeId(3), 2);
    map.put(TypeId(5), 3);
    assert_eq!(map.entries, vec![(TypeId(5), 3), (TypeId(3), 2)]);
    assert_eq!(map.get(TypeId(5)), Some(3));
    assert_eq!(map.get(TypeId(3)), Some(2));
    assert_eq!(map.get(TypeId(4)), None);
    assert_eq!(map.position(TypeId(3)), Some(1));
    assert_eq!(map.copied().entries, map.entries);
    assert_eq!(map.remove(TypeId(5)), Some(3));
    assert_eq!(map.remove(TypeId(5)), None);
    assert_eq!(map.entries, vec![(TypeId(3), 2)]);
    map.put(TypeId(5), 4);
    assert_eq!(map.entries, vec![(TypeId(3), 2), (TypeId(5), 4)]);
}

#[test]
fn vectors_are_copied_and_compared() {
    let a = vec![MemberId(1), MemberId(2)];
    let mut b = copy_vec(&a);
    assert!(same_keys(&a, &b));
    extend_copies(&mut b, &a);
    assert_eq!(b, vec![MemberId(1), MemberId(2), MemberId(1), MemberId(2)]);
    assert!(!same_keys(&a, &b));
    assert!(!same_keys(&a, &vec![MemberId(2), MemberId(1)]));
    assert!(contains_key(&a, MemberId(2)));
    assert!(!contains_key(&a, MemberId(3)));
}

#[test]
fn interning_is_stable_idempotent_and_injective() {
    let mut types: TypeInterner = Interner::new();
    let felt = || TypeLongId::Concrete(ConcreteTypeId::Extern(ExternTypeId(0)));
    assert_eq!(types.intern(felt()), 0);
    assert_eq!(types.intern(TypeLongId::Tuple(vec![])), 1);
    assert_eq!(types.intern(TypeLongId::Tuple(vec![TypeId(0)])), 2);
    assert_eq!(types.intern(TypeLongId::Tuple(vec![TypeId(0), TypeId(0)])), 3);
    assert_eq!(types.intern(TypeLongId::GenericParameter(GenericParamId(0))), 4);
    assert_eq!(types.intern(TypeLongId::GenericParameter(GenericParamId(1))), 5);
    assert_eq!(types.intern(TypeLongId::Missing(DiagnosticAdded)), 6);
    // Once more, in another order.
    assert_eq!(types.intern(TypeLongId::Tuple(vec![TypeId(0), TypeId(0)])), 3);
    assert_eq!(types.intern(TypeLongId::Missing(DiagnosticAdded)), 6);
    assert_eq!(types.intern(felt()), 0);
    assert_eq!(types.items.len(), 7);
    assert_eq!(format!("{:?}", types.lookup(2).unwrap()), "Tuple([TypeId(0)])");
    assert!(types.lookup(7).is_none());
}

#[test]
fn what_is_missing_is_a_failure_reported_elsewhere() {
    assert_eq!(to_maybe(Some(3)), Ok(3));
    assert_eq!(to_maybe::<usize>(None), Err(skip_diagnostic()));
}

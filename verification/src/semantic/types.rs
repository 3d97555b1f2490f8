//! Types, signatures and the parts of struct and enum types.
use crate::collections::same_keys;
use crate::diagnostics::DiagnosticAdded;
use crate::ids::{
    ConcreteEnumId, ConcreteStructId, EnumId, ExternTypeId, GenericParamId, MemberId, ParamId,
    TypeId, VariantId,
};
use crate::interner::{Interner, LongId};
use vstd::prelude::*;

verus! {

/// A type that is made of an item and its generic arguments.
#[derive(Clone, Copy, PartialEq, Eq, Structural, Debug, Hash)]
pub enum ConcreteTypeId {
    Struct(ConcreteStructId),
    Enum(ConcreteEnumId),
    Extern(ExternTypeId),
}

/// What a type is.
#[derive(Clone, Debug, PartialEq, Eq)]
pub enum TypeLongId {
    Concrete(ConcreteTypeId),
    Tuple(Vec<TypeId>),
    GenericParameter(GenericParamId),
    Missing(DiagnosticAdded),
}

/// The mathematical counterpart of [TypeLongId].
pub enum TypeModel {
    Concrete(ConcreteTypeId),
    Tuple(Seq<TypeId>),
    GenericParameter(GenericParamId),
    Missing(DiagnosticAdded),
}

impl View for TypeLongId {
    type V = TypeModel;

    open spec fn view(&self) -> TypeModel {
        match self {
            TypeLongId::Concrete(c) => TypeModel::Concrete(*c),
            TypeLongId::Tuple(tys) => TypeModel::Tuple(tys@),
            TypeLongId::GenericParameter(p) => TypeModel::GenericParameter(*p),
            TypeLongId::Missing(d) => TypeModel::Missing(*d),
        }
    }
}

impl LongId for TypeLongId {
    fn same(&self, other: &Self) -> (r: bool) {
        match (self, other) {
            (TypeLongId::Concrete(a), TypeLongId::Concrete(b)) => *a == *b,
            (TypeLongId::Tuple(a), TypeLongId::Tuple(b)) => same_keys(a, b),
            (TypeLongId::GenericParameter(a), TypeLongId::GenericParameter(b)) => *a == *b,
            (TypeLongId::Missing(a), TypeLongId::Missing(b)) => *a == *b,
            _ => false,
        }
    }
}

/// The table of all types.
pub type TypeInterner = Interner<TypeLongId>;

/// The type behind an identifier, where the table has it.
pub open spec fn type_of(types: Seq<TypeModel>, ty: TypeId) -> Option<TypeModel> {
    if ty.0 < types.len() {
        Some(types[ty.0 as int])
    } else {
        None
    }
}

/// Whether values of a type may be dropped and duplicated.
#[derive(Clone, Copy, PartialEq, Eq, Structural, Debug)]
pub struct TypeInfo {
    pub droppable: bool,
    pub duplicatable: bool,
}

/// How a parameter is passed.
#[derive(Clone, Copy, PartialEq, Eq, Structural, Debug, Hash)]
pub enum Mutability {
    Immutable,
    Mutable,
    Reference,
}

/// A parameter of a function.
#[derive(Clone, Debug, PartialEq, Eq)]
pub struct Parameter {
    pub id: ParamId,
    pub name: String,
    pub ty: TypeId,
    pub mutability: Mutability,
}

/// The signature of a function.
#[derive(Clone, Debug, PartialEq, Eq)]
pub struct Signature {
    pub params: Vec<Parameter>,
    pub return_type: TypeId,
    pub implicits: Vec<TypeId>,
    pub panicable: bool,
}

/// A member of a struct.
#[derive(Clone, Copy, PartialEq, Eq, Structural, Debug)]
pub struct Member {
    pub id: MemberId,
    pub ty: TypeId,
}

/// A variant of an enum.
#[derive(Clone, Copy, PartialEq, Eq, Structural, Debug)]
pub struct Variant {
    pub enum_id: EnumId,
    pub id: VariantId,
    pub ty: TypeId,
    pub idx: usize,
}

/// A variant of an enum whose generic arguments are known.
#[derive(Clone, Copy, PartialEq, Eq, Structural, Debug, Hash)]
pub struct ConcreteVariant {
    pub concrete_enum_id: ConcreteEnumId,
    pub id: VariantId,
    pub ty: TypeId,
    pub idx: usize,
}

/// The types of members.
pub fn member_types(members: &Vec<Member>) -> (r: Vec<TypeId>)
    ensures
        r@ == members@.map_values(|m: Member| m.ty),
{
    let mut r: Vec<TypeId> = Vec::new();
    let mut i: usize = 0;
    while i < members.len()
        invariant
            i <= members@.len(),
            r@.len() == i,
            forall|j: int| 0 <= j < i ==> (#[trigger] r@[j]) == members@[j].ty,
        decreases members@.len() - i,
    {
        r.push(members[i].ty);
        i += 1;
    }
    assert(r@ =~= members@.map_values(|m: Member| m.ty));
    r
}

/// The types of variants.
pub fn variant_types(variants: &Vec<ConcreteVariant>) -> (r: Vec<TypeId>)
    ensures
        r@ == variants@.map_values(|v: ConcreteVariant| v.ty),
{
    let mut r: Vec<TypeId> = Vec::new();
    let mut i: usize = 0;
    while i < variants.len()
        invariant
            i <= variants@.len(),
            r@.len() == i,
            forall|j: int| 0 <= j < i ==> (#[trigger] r@[j]) == variants@[j].ty,
        decreases variants@.len() - i,
    {
        r.push(variants[i].ty);
        i += 1;
    }
    assert(r@ =~= variants@.map_values(|v: ConcreteVariant| v.ty));
    r
}

} // verus!

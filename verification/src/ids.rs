//! Identifiers of the items that the compiler talks about.
use crate::collections::Key;
use vstd::prelude::*;

verus! {

/// A crate.
#[derive(Clone, Copy, PartialEq, Eq, Structural, Debug, Hash)]
pub struct CrateId(pub usize);

/// A module declared inside another module.
#[derive(Clone, Copy, PartialEq, Eq, Structural, Debug, Hash)]
pub struct SubmoduleId(pub usize);

/// The position of a file among the files of its module.
#[derive(Clone, Copy, PartialEq, Eq, Structural, Debug, Hash)]
pub struct FileIndex(pub usize);

/// A `use` item.
#[derive(Clone, Copy, PartialEq, Eq, Structural, Debug, Hash)]
pub struct UseId(pub usize);

/// An `impl` item.
#[derive(Clone, Copy, PartialEq, Eq, Structural, Debug, Hash)]
pub struct ImplId(pub usize);

/// A function declared inside an `impl` item.
#[derive(Clone, Copy, PartialEq, Eq, Structural, Debug, Hash)]
pub struct ImplFunctionId(pub usize);

/// A `trait` item.
#[derive(Clone, Copy, PartialEq, Eq, Structural, Debug, Hash)]
pub struct TraitId(pub usize);

/// A function declared inside a `trait` item.
#[derive(Clone, Copy, PartialEq, Eq, Structural, Debug, Hash)]
pub struct TraitFunctionId(pub usize);

/// A trait together with its generic arguments.
#[derive(Clone, Copy, PartialEq, Eq, Structural, Debug, Hash)]
pub struct ConcreteTraitId(pub usize);

/// An impl together with its generic arguments.
#[derive(Clone, Copy, PartialEq, Eq, Structural, Debug, Hash)]
pub struct ConcreteImplId(pub usize);

/// A generic parameter.
#[derive(Clone, Copy, PartialEq, Eq, Structural, Debug, Hash)]
pub struct GenericParamId(pub usize);

/// A semantic type.
#[derive(Clone, Copy, PartialEq, Eq, Structural, Debug, Hash)]
pub struct TypeId(pub usize);

/// A function parameter.
#[derive(Clone, Copy, PartialEq, Eq, Structural, Debug, Hash)]
pub struct ParamId(pub usize);

/// A local variable, bound by a pattern.
#[derive(Clone, Copy, PartialEq, Eq, Structural, Debug, Hash)]
pub struct LocalVarId(pub usize);

/// A `struct` item.
#[derive(Clone, Copy, PartialEq, Eq, Structural, Debug, Hash)]
pub struct StructId(pub usize);

/// A struct together with its generic arguments.
#[derive(Clone, Copy, PartialEq, Eq, Structural, Debug, Hash)]
pub struct ConcreteStructId(pub usize);

/// An external type together with its generic arguments.
#[derive(Clone, Copy, PartialEq, Eq, Structural, Debug, Hash)]
pub struct ExternTypeId(pub usize);

/// An `enum` item.
#[derive(Clone, Copy, PartialEq, Eq, Structural, Debug, Hash)]
pub struct EnumId(pub usize);

/// An enum together with its generic arguments.
#[derive(Clone, Copy, PartialEq, Eq, Structural, Debug, Hash)]
pub struct ConcreteEnumId(pub usize);

/// A variant of an enum.
#[derive(Clone, Copy, PartialEq, Eq, Structural, Debug, Hash)]
pub struct VariantId(pub usize);

/// A member of a struct.
#[derive(Clone, Copy, PartialEq, Eq, Structural, Debug, Hash)]
pub struct MemberId(pub usize);

/// A function together with its generic arguments.
#[derive(Clone, Copy, PartialEq, Eq, Structural, Debug, Hash)]
pub struct FunctionId(pub usize);

/// An external function.
#[derive(Clone, Copy, PartialEq, Eq, Structural, Debug, Hash)]
pub struct ExternFunctionId(pub usize);

/// A function that has a body in the source.
#[derive(Clone, Copy, PartialEq, Eq, Structural, Debug, Hash)]
pub struct FunctionWithBodyId(pub usize);

/// An expression of a function body.
#[derive(Clone, Copy, PartialEq, Eq, Structural, Debug, Hash)]
pub struct ExprId(pub usize);

/// A statement of a function body.
#[derive(Clone, Copy, PartialEq, Eq, Structural, Debug, Hash)]
pub struct StatementId(pub usize);

/// A place in the syntax tree.
#[derive(Clone, Copy, PartialEq, Eq, Structural, Debug, Hash)]
pub struct SyntaxStablePtrId(pub usize);

/// A variable of a lowered function.
#[derive(Clone, Copy, PartialEq, Eq, Structural, Debug, Hash)]
pub struct VariableId(pub usize);

/// A block of a lowered function.
#[derive(Clone, Copy, PartialEq, Eq, Structural, Debug, Hash)]
pub struct BlockId(pub usize);

/// A module: the root of a crate, or a module declared inside another one.
#[derive(Clone, Copy, PartialEq, Eq, Structural, Debug, Hash)]
pub enum ModuleId {
    CrateRoot(CrateId),
    Submodule(SubmoduleId),
}

/// A file of a module.
#[derive(Clone, Copy, PartialEq, Eq, Structural, Debug, Hash)]
pub struct ModuleFileId(pub ModuleId, pub FileIndex);

/// A variable of the source: a parameter or a local variable.
#[derive(Clone, Copy, PartialEq, Eq, Structural, Debug, Hash)]
pub enum VarId {
    Param(ParamId),
    Local(LocalVarId),
}

impl Key for FunctionId {
    fn same(&self, other: &Self) -> (r: bool) {
        *self == *other
    }
}

impl Key for ModuleId {
    fn same(&self, other: &Self) -> (r: bool) {
        *self == *other
    }
}

impl Key for GenericParamId {
    fn same(&self, other: &Self) -> (r: bool) {
        *self == *other
    }
}

impl Key for TypeId {
    fn same(&self, other: &Self) -> (r: bool) {
        *self == *other
    }
}

impl Key for VarId {
    fn same(&self, other: &Self) -> (r: bool) {
        *self == *other
    }
}

impl Key for ImplFunctionId {
    fn same(&self, other: &Self) -> (r: bool) {
        *self == *other
    }
}

impl Key for SyntaxStablePtrId {
    fn same(&self, other: &Self) -> (r: bool) {
        *self == *other
    }
}

impl Key for MemberId {
    fn same(&self, other: &Self) -> (r: bool) {
        *self == *other
    }
}

} // verus!

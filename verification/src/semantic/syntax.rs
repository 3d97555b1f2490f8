//! The syntax of `impl` items, with what the name resolution and the type checker found at its
//! nodes.
use crate::collections::copy_vec;
use crate::diagnostics::Maybe;
use crate::ids::{
    ConcreteImplId, ConcreteTraitId, FunctionId, GenericParamId, ImplId, ModuleId,
    SyntaxStablePtrId, TraitId, TypeId, VarId,
};
use crate::semantic::diagnostic::{ItemKeyword, SemanticDiagnostic};
use crate::semantic::expr::{Expr, Statement};
use crate::semantic::types::{ConcreteVariant, Signature};
use vstd::prelude::*;

verus! {

/// What a path with generic arguments stands for.
#[derive(Clone, Copy, PartialEq, Eq, Structural, Debug, Hash)]
pub enum ResolvedConcreteItem {
    Module(ModuleId),
    Function(FunctionId),
    Type(TypeId),
    Variant(ConcreteVariant),
    Trait(ConcreteTraitId),
    Impl(ConcreteImplId),
}

/// What a path without generic arguments stands for.
#[derive(Clone, Copy, PartialEq, Eq, Structural, Debug, Hash)]
pub enum ResolvedGenericItem {
    Module(ModuleId),
    Trait(TraitId),
    Impl(ImplId),
    /// An item of another kind, by the place of its declaration.
    Item(SyntaxStablePtrId),
}

/// What the identifiers of some syntax were resolved to, by their places.
#[derive(Debug, PartialEq, Eq)]
pub struct ResolvedLookback {
    pub concrete: Vec<(SyntaxStablePtrId, ResolvedConcreteItem)>,
    pub generic: Vec<(SyntaxStablePtrId, ResolvedGenericItem)>,
}

/// The mathematical counterpart of [ResolvedLookback].
#[verifier::ext_equal]
pub struct LookbackModel {
    pub concrete: Seq<(SyntaxStablePtrId, ResolvedConcreteItem)>,
    pub generic: Seq<(SyntaxStablePtrId, ResolvedGenericItem)>,
}

impl View for ResolvedLookback {
    type V = LookbackModel;

    open spec fn view(&self) -> LookbackModel {
        LookbackModel { concrete: self.concrete@, generic: self.generic@ }
    }
}

/// Nothing was resolved.
pub open spec fn no_lookback() -> LookbackModel {
    LookbackModel { concrete: Seq::empty(), generic: Seq::empty() }
}

impl ResolvedLookback {
    /// Nothing was resolved.
    pub fn new() -> (r: Self)
        ensures
            r@ == no_lookback(),
    {
        ResolvedLookback { concrete: Vec::new(), generic: Vec::new() }
    }
}

impl Clone for ResolvedLookback {
    fn clone(&self) -> (r: Self)
        ensures
            r@ == self@,
    {
        ResolvedLookback { concrete: copy_vec(&self.concrete), generic: copy_vec(&self.generic) }
    }
}

/// An attribute of an item.
#[derive(Clone, Debug, PartialEq, Eq)]
pub struct Attribute {
    pub id: String,
    pub args: Vec<String>,
}

/// A list of generic parameters.
#[derive(Clone, Debug, PartialEq, Eq)]
pub struct GenericParamsSyntax {
    pub params: Vec<GenericParamId>,
    /// What was reported when the parameters were declared.
    pub diagnostics: Vec<SemanticDiagnostic>,
}

/// A path to an item.
#[derive(Debug, PartialEq, Eq)]
pub struct PathSyntax {
    pub stable_ptr: SyntaxStablePtrId,
    /// What the path stands for.
    pub resolved: Maybe<ResolvedConcreteItem>,
    /// What was reported when the path was resolved.
    pub diagnostics: Vec<SemanticDiagnostic>,
    pub lookback: ResolvedLookback,
}

impl Clone for PathSyntax {
    fn clone(&self) -> (r: Self)
        ensures
            r.stable_ptr == self.stable_ptr,
            r.resolved == self.resolved,
            r.diagnostics@ == self.diagnostics@,
            r.lookback@ == self.lookback@,
    {
        PathSyntax {
            stable_ptr: self.stable_ptr,
            resolved: self.resolved,
            diagnostics: copy_vec(&self.diagnostics),
            lookback: self.lookback.clone(),
        }
    }
}

/// An `impl` item.
#[derive(Clone, Debug, PartialEq, Eq)]
pub struct ItemImpl {
    pub stable_ptr: SyntaxStablePtrId,
    pub generic_params: GenericParamsSyntax,
    /// The path of the trait that is implemented.
    pub trait_path: PathSyntax,
    pub attributes: Vec<Attribute>,
    /// The items between the braces, where there are braces.
    pub body: Option<Vec<Item>>,
}

/// An item inside an `impl` item. All but a function are named by the place of their keyword.
#[derive(Clone, Debug, PartialEq, Eq)]
pub enum Item {
    Constant(SyntaxStablePtrId),
    Module(SyntaxStablePtrId),
    Use(SyntaxStablePtrId),
    FreeFunction(ItemFreeFunction),
    ExternFunction(SyntaxStablePtrId),
    ExternType(SyntaxStablePtrId),
    Trait(SyntaxStablePtrId),
    Impl(SyntaxStablePtrId),
    Struct(SyntaxStablePtrId),
    Enum(SyntaxStablePtrId),
    TypeAlias(SyntaxStablePtrId),
}

/// The names that are known in a function.
#[derive(Clone, Debug, PartialEq, Eq)]
pub struct Environment {
    pub variables: Vec<(String, VarId)>,
}

/// A parameter of a function.
#[derive(Clone, Copy, PartialEq, Eq, Structural, Debug)]
pub struct ParamSyntax {
    /// The place of the type.
    pub ty_ptr: SyntaxStablePtrId,
    /// The place of the modifiers.
    pub modifiers_ptr: SyntaxStablePtrId,
}

/// The signature of a function.
#[derive(Clone, Debug, PartialEq, Eq)]
pub struct FunctionSignatureSyntax {
    pub stable_ptr: SyntaxStablePtrId,
    /// The place of the list of parameters.
    pub parameters_ptr: SyntaxStablePtrId,
    pub parameters: Vec<ParamSyntax>,
    /// The place of the return type, where one is written.
    pub ret_ty_ptr: Option<SyntaxStablePtrId>,
    /// What the signature means.
    pub semantic: Signature,
    /// What was reported when the types of the signature were resolved.
    pub diagnostics: Vec<SemanticDiagnostic>,
    /// The names of the parameters.
    pub environment: Environment,
    pub lookback: ResolvedLookback,
}

/// What the type checker made of the body of a function.
#[derive(Clone, Debug, PartialEq, Eq)]
pub struct ComputedBody {
    /// The expressions inside the block.
    pub exprs: Vec<Expr>,
    pub statements: Vec<Statement>,
    /// The block.
    pub block: Expr,
    pub diagnostics: Vec<SemanticDiagnostic>,
    pub lookback: ResolvedLookback,
}

/// The body of a function.
#[derive(Debug, PartialEq, Eq)]
pub struct FunctionBodySyntax {
    pub stable_ptr: SyntaxStablePtrId,
    /// The place of the opening brace.
    pub lbrace_ptr: SyntaxStablePtrId,
    pub computed: Maybe<ComputedBody>,
}

impl Clone for FunctionBodySyntax {
    fn clone(&self) -> (r: Self)
        ensures
            r.stable_ptr == self.stable_ptr,
            r.lbrace_ptr == self.lbrace_ptr,
            match self.computed {
                Ok(body) => r.computed is Ok && cloned(body, r.computed->Ok_0),
                Err(_) => r.computed is Err,
            },
    {
        let computed = match &self.computed {
            Ok(body) => Ok(body.clone()),
            Err(diag_added) => Err(*diag_added),
        };
        FunctionBodySyntax { stable_ptr: self.stable_ptr, lbrace_ptr: self.lbrace_ptr, computed }
    }
}

/// A function.
#[derive(Clone, Debug, PartialEq, Eq)]
pub struct ItemFreeFunction {
    pub stable_ptr: SyntaxStablePtrId,
    pub generic_params: GenericParamsSyntax,
    pub signature: FunctionSignatureSyntax,
    pub attributes: Vec<Attribute>,
    pub body: FunctionBodySyntax,
}

impl Item {
    /// The keyword of an item that is not a function, and its place.
    pub open spec fn keyword_of(self) -> Option<(SyntaxStablePtrId, ItemKeyword)> {
        match self {
            Item::Constant(ptr) => Some((ptr, ItemKeyword::Const)),
            Item::Module(ptr) => Some((ptr, ItemKeyword::Mod)),
            Item::Use(ptr) => Some((ptr, ItemKeyword::Use)),
            Item::FreeFunction(_) => None,
            Item::ExternFunction(ptr) => Some((ptr, ItemKeyword::ExternFn)),
            Item::ExternType(ptr) => Some((ptr, ItemKeyword::ExternType)),
            Item::Trait(ptr) => Some((ptr, ItemKeyword::Trait)),
            Item::Impl(ptr) => Some((ptr, ItemKeyword::Impl)),
            Item::Struct(ptr) => Some((ptr, ItemKeyword::Struct)),
            Item::Enum(ptr) => Some((ptr, ItemKeyword::Enum)),
            Item::TypeAlias(ptr) => Some((ptr, ItemKeyword::Type)),
        }
    }
}

} // verus!

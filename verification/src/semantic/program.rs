//! The facts about a program that the semantic model of `impl` items reads.
use crate::collections::Key;
use crate::diagnostics::{skip_diagnostic, DiagnosticAdded, Maybe};
use crate::ids::{
    ImplId, ModuleFileId, ModuleId, SubmoduleId, SyntaxStablePtrId, TraitFunctionId, TraitId,
    TypeId, UseId,
};
use crate::interner::{Interner, LongId};
use crate::semantic::db::{ConcreteEnumEntry, TypeInfoEntry};
use crate::semantic::imp::ConcreteImplLongId;
use crate::semantic::syntax::{ItemImpl, ResolvedGenericItem};
use crate::semantic::types::{Member, Signature, TypeInterner};
use vstd::prelude::*;

verus! {

/// A generic argument.
#[derive(Clone, Copy, PartialEq, Eq, Structural, Debug, Hash)]
pub enum GenericArgumentId {
    Type(TypeId),
    Literal(usize),
}

impl Key for GenericArgumentId {
    fn same(&self, other: &Self) -> (r: bool) {
        *self == *other
    }
}

/// A trait together with its generic arguments.
#[derive(Clone, Debug, PartialEq, Eq, Hash)]
pub struct ConcreteTraitLongId {
    pub trait_id: TraitId,
    pub generic_args: Vec<GenericArgumentId>,
}

/// A function inside an `impl` item: the file and the place that it stands in.
#[derive(Clone, Copy, PartialEq, Eq, Structural, Debug, Hash)]
pub struct ImplFunctionLongId(pub ModuleFileId, pub SyntaxStablePtrId);

impl View for ImplFunctionLongId {
    type V = ImplFunctionLongId;

    open spec fn view(&self) -> ImplFunctionLongId {
        *self
    }
}

impl LongId for ImplFunctionLongId {
    fn same(&self, other: &Self) -> (r: bool) {
        *self == *other
    }
}

/// What a module declares.
#[derive(Debug)]
pub struct ModuleEntry {
    pub module_id: ModuleId,
    pub impls: Maybe<Vec<(ImplId, ItemImpl)>>,
    pub submodules: Maybe<Vec<SubmoduleId>>,
    pub uses: Maybe<Vec<UseId>>,
}

/// What is known of the function that stands in a place of the syntax tree.
#[derive(Debug)]
pub struct FunctionNode {
    pub stable_ptr: SyntaxStablePtrId,
    /// The `impl` item around the function.
    pub impl_id: ImplId,
    pub name: String,
}

/// The facts that the semantic model of `impl` items reads. What a table does not hold is not
/// known.
#[derive(Debug)]
pub struct SemanticDb {
    pub modules: Vec<ModuleEntry>,
    /// The file that each impl stands in.
    pub impls: Vec<ModuleFileId>,
    /// What each `use` item stands for.
    pub uses: Vec<Maybe<ResolvedGenericItem>>,
    pub concrete_traits: Vec<ConcreteTraitLongId>,
    /// The functions of each trait, by name.
    pub traits: Vec<Maybe<Vec<(String, TraitFunctionId)>>>,
    /// The signature of each function of a trait.
    pub trait_functions: Vec<Maybe<Signature>>,
    pub function_nodes: Vec<FunctionNode>,
    pub type_infos: Vec<TypeInfoEntry>,
    /// The members of each struct under its generic arguments.
    pub concrete_structs: Vec<Maybe<Vec<Member>>>,
    pub concrete_enums: Vec<ConcreteEnumEntry>,
    pub copy_trait: TraitId,
    pub drop_trait: TraitId,
    pub never_ty: TypeId,
}

/// The tables of long identifiers.
#[derive(Debug)]
pub struct Interners {
    pub types: TypeInterner,
    pub impl_functions: Interner<ImplFunctionLongId>,
    pub concrete_impls: Interner<ConcreteImplLongId>,
}

/// The first entry of the module from the place `i` on.
pub open spec fn module_from(entries: Seq<ModuleEntry>, module_id: ModuleId, i: int) -> Option<
    ModuleEntry,
>
    decreases entries.len() - i,
{
    if i < 0 || i >= entries.len() {
        None
    } else if entries[i].module_id == module_id {
        Some(entries[i])
    } else {
        module_from(entries, module_id, i + 1)
    }
}

/// The first `impl` item with the identifier from the place `i` on.
pub open spec fn impl_from(impls: Seq<(ImplId, ItemImpl)>, impl_id: ImplId, i: int) -> Option<
    ItemImpl,
>
    decreases impls.len() - i,
{
    if i < 0 || i >= impls.len() {
        None
    } else if impls[i].0 == impl_id {
        Some(impls[i].1)
    } else {
        impl_from(impls, impl_id, i + 1)
    }
}

/// The first node at the place from the place `i` of the table on.
pub open spec fn node_from(nodes: Seq<FunctionNode>, ptr: SyntaxStablePtrId, i: int) -> Option<
    FunctionNode,
>
    decreases nodes.len() - i,
{
    if i < 0 || i >= nodes.len() {
        None
    } else if nodes[i].stable_ptr == ptr {
        Some(nodes[i])
    } else {
        node_from(nodes, ptr, i + 1)
    }
}

/// The first function with the name from the place `i` on.
pub open spec fn named_from(functions: Seq<(String, TraitFunctionId)>, name: String, i: int) -> Option<
    TraitFunctionId,
>
    decreases functions.len() - i,
{
    if i < 0 || i >= functions.len() {
        None
    } else if functions[i].0@ == name@ {
        Some(functions[i].1)
    } else {
        named_from(functions, name, i + 1)
    }
}

impl SemanticDb {
    /// What the module declares.
    pub open spec fn module_of(&self, module_id: ModuleId) -> Option<ModuleEntry> {
        module_from(self.modules@, module_id, 0)
    }

    /// What the module declares.
    fn find_module(&self, module_id: ModuleId) -> (r: Option<&ModuleEntry>)
        ensures
            match r {
                Some(entry) => self.module_of(module_id) == Some(*entry),
                None => self.module_of(module_id) is None,
            },
    {
        let mut i: usize = 0;
        while i < self.modules.len()
            invariant
                i <= self.modules@.len(),
                self.module_of(module_id) == module_from(self.modules@, module_id, i as int),
            decreases self.modules@.len() - i,
        {
            if self.modules[i].module_id == module_id {
                return Some(&self.modules[i]);
            }
            i += 1;
        }
        None
    }

    /// The `impl` items of the module, in order.
    pub open spec fn module_impls_of(&self, module_id: ModuleId) -> Maybe<
        Seq<(ImplId, ItemImpl)>,
    > {
        match self.module_of(module_id) {
            Some(entry) => match entry.impls {
                Ok(impls) => Ok(impls@),
                Err(d) => Err(d),
            },
            None => Err(DiagnosticAdded),
        }
    }

    /// The `impl` items of the module, in order.
    pub fn module_impls(&self, module_id: ModuleId) -> (r: Maybe<&Vec<(ImplId, ItemImpl)>>)
        ensures
            match r {
                Ok(impls) => self.module_impls_of(module_id) == Ok::<
                    Seq<(ImplId, ItemImpl)>,
                    DiagnosticAdded,
                >(impls@),
                Err(_) => self.module_impls_of(module_id) is Err,
            },
    {
        match self.find_module(module_id) {
            Some(entry) => match &entry.impls {
                Ok(impls) => Ok(impls),
                Err(d) => Err(*d),
            },
            None => Err(skip_diagnostic()),
        }
    }

    /// The modules inside the module.
    pub open spec fn submodules_of(&self, module_id: ModuleId) -> Maybe<Seq<SubmoduleId>> {
        match self.module_of(module_id) {
            Some(entry) => match entry.submodules {
                Ok(submodules) => Ok(submodules@),
                Err(d) => Err(d),
            },
            None => Err(DiagnosticAdded),
        }
    }

    /// The modules inside the module.
    pub fn module_submodules_ids(&self, module_id: ModuleId) -> (r: Maybe<&Vec<SubmoduleId>>)
        ensures
            match r {
                Ok(submodules) => self.submodules_of(module_id) == Ok::<
                    Seq<SubmoduleId>,
                    DiagnosticAdded,
                >(submodules@),
                Err(_) => self.submodules_of(module_id) is Err,
            },
    {
        match self.find_module(module_id) {
            Some(entry) => match &entry.submodules {
                Ok(submodules) => Ok(submodules),
                Err(d) => Err(*d),
            },
            None => Err(skip_diagnostic()),
        }
    }

    /// The `use` items of the module.
    pub open spec fn uses_of(&self, module_id: ModuleId) -> Maybe<Seq<UseId>> {
        match self.module_of(module_id) {
            Some(entry) => match entry.uses {
                Ok(uses) => Ok(uses@),
                Err(d) => Err(d),
            },
            None => Err(DiagnosticAdded),
        }
    }

    /// The `use` items of the module.
    pub fn module_uses_ids(&self, module_id: ModuleId) -> (r: Maybe<&Vec<UseId>>)
        ensures
            match r {
                Ok(uses) => self.uses_of(module_id) == Ok::<Seq<UseId>, DiagnosticAdded>(uses@),
                Err(_) => self.uses_of(module_id) is Err,
            },
    {
        match self.find_module(module_id) {
            Some(entry) => match &entry.uses {
                Ok(uses) => Ok(uses),
                Err(d) => Err(*d),
            },
            None => Err(skip_diagnostic()),
        }
    }

    /// What the `use` item stands for.
    pub open spec fn use_item_of(&self, use_id: UseId) -> Maybe<ResolvedGenericItem> {
        if use_id.0 < self.uses@.len() {
            self.uses@[use_id.0 as int]
        } else {
            Err(DiagnosticAdded)
        }
    }

    /// What the `use` item stands for.
    pub fn use_resolved_item(&self, use_id: UseId) -> (r: Maybe<ResolvedGenericItem>)
        ensures
            r == self.use_item_of(use_id),
    {
        if use_id.0 < self.uses.len() {
            self.uses[use_id.0]
        } else {
            Err(skip_diagnostic())
        }
    }

    /// The node of the function at the place.
    pub open spec fn node_of(&self, ptr: SyntaxStablePtrId) -> Option<FunctionNode> {
        node_from(self.function_nodes@, ptr, 0)
    }

    /// The node of the function at the place.
    pub fn function_node(&self, ptr: SyntaxStablePtrId) -> (r: Option<&FunctionNode>)
        ensures
            match r {
                Some(node) => self.node_of(ptr) == Some(*node),
                None => self.node_of(ptr) is None,
            },
    {
        let mut i: usize = 0;
        while i < self.function_nodes.len()
            invariant
                i <= self.function_nodes@.len(),
                self.node_of(ptr) == node_from(self.function_nodes@, ptr, i as int),
            decreases self.function_nodes@.len() - i,
        {
            if self.function_nodes[i].stable_ptr == ptr {
                return Some(&self.function_nodes[i]);
            }
            i += 1;
        }
        None
    }

    /// The function of the trait with the name, where the functions of the trait are known.
    pub open spec fn trait_function_of(&self, trait_id: TraitId, name: String) -> Maybe<
        Option<TraitFunctionId>,
    > {
        if trait_id.0 < self.traits@.len() {
            match self.traits@[trait_id.0 as int] {
                Ok(functions) => Ok(named_from(functions@, name, 0)),
                Err(d) => Err(d),
            }
        } else {
            Err(DiagnosticAdded)
        }
    }

    /// The function of the trait with the name, where the functions of the trait are known.
    pub fn trait_function_by_name(&self, trait_id: TraitId, name: &String) -> (r: Maybe<
        Option<TraitFunctionId>,
    >)
        ensures
            match r {
                Ok(found) => self.trait_function_of(trait_id, *name) == Ok::<
                    Option<TraitFunctionId>,
                    DiagnosticAdded,
                >(found),
                Err(_) => self.trait_function_of(trait_id, *name) is Err,
            },
    {
        if trait_id.0 >= self.traits.len() {
            return Err(skip_diagnostic());
        }
        let functions = match &self.traits[trait_id.0] {
            Ok(functions) => functions,
            Err(d) => {
                return Err(*d);
            },
        };
        let mut i: usize = 0;
        while i < functions.len()
            invariant
                i <= functions@.len(),
                named_from(functions@, *name, 0) == named_from(functions@, *name, i as int),
                self.trait_function_of(trait_id, *name) == Ok::<
                    Option<TraitFunctionId>,
                    DiagnosticAdded,
                >(named_from(functions@, *name, 0)),
            decreases functions@.len() - i,
        {
            if functions[i].0 == *name {
                return Ok(Some(functions[i].1));
            }
            i += 1;
        }
        Ok(None)
    }

    /// The signature of the function of a trait.
    pub open spec fn trait_signature_of(&self, id: TraitFunctionId) -> Option<Signature> {
        if id.0 < self.trait_functions@.len() {
            match self.trait_functions@[id.0 as int] {
                Ok(signature) => Some(signature),
                Err(_) => None,
            }
        } else {
            None
        }
    }

    /// The signature of the function of a trait.
    pub fn trait_function_signature(&self, id: TraitFunctionId) -> (r: Maybe<&Signature>)
        ensures
            match r {
                Ok(signature) => self.trait_signature_of(id) == Some(*signature),
                Err(_) => self.trait_signature_of(id) is None,
            },
    {
        if id.0 < self.trait_functions.len() {
            match &self.trait_functions[id.0] {
                Ok(signature) => Ok(signature),
                Err(d) => Err(*d),
            }
        } else {
            Err(skip_diagnostic())
        }
    }
}

/// Finds the `impl` item with the identifier.
pub fn find_impl(impls: &Vec<(ImplId, ItemImpl)>, impl_id: ImplId) -> (r: Option<&ItemImpl>)
    ensures
        match r {
            Some(item) => impl_from(impls@, impl_id, 0) == Some(*item),
            None => impl_from(impls@, impl_id, 0) is None,
        },
{
    let mut i: usize = 0;
    while i < impls.len()
        invariant
            i <= impls@.len(),
            impl_from(impls@, impl_id, 0) == impl_from(impls@, impl_id, i as int),
        decreases impls@.len() - i,
    {
        if impls[i].0 == impl_id {
            return Some(&impls[i].1);
        }
        i += 1;
    }
    None
}

} // verus!

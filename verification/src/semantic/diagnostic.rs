//! The diagnostics of the semantic model.
use crate::collections::extend_copies;
use crate::diagnostics::DiagnosticAdded;
use crate::ids::{ImplFunctionId, ImplId, ModuleFileId, SyntaxStablePtrId, TraitId, TypeId};
use vstd::prelude::*;

verus! {

/// The keyword that an item begins with.
#[derive(Clone, Copy, PartialEq, Eq, Structural, Debug, Hash)]
pub enum ItemKeyword {
    Const,
    Mod,
    Use,
    ExternFn,
    ExternType,
    Trait,
    Impl,
    Struct,
    Enum,
    Type,
}

impl ItemKeyword {
    /// The text of the keyword.
    pub open spec fn text_of(self) -> Seq<char> {
        match self {
            ItemKeyword::Const => "const"@,
            ItemKeyword::Mod => "mod"@,
            ItemKeyword::Use => "use"@,
            ItemKeyword::ExternFn => "extern"@,
            ItemKeyword::ExternType => "extern"@,
            ItemKeyword::Trait => "trait"@,
            ItemKeyword::Impl => "impl"@,
            ItemKeyword::Struct => "struct"@,
            ItemKeyword::Enum => "enum"@,
            ItemKeyword::Type => "type"@,
        }
    }

    /// The text of the keyword.
    pub fn text(self) -> (r: &'static str)
        ensures
            r@ == self.text_of(),
    {
        match self {
            ItemKeyword::Const => "const",
            ItemKeyword::Mod => "mod",
            ItemKeyword::Use => "use",
            ItemKeyword::ExternFn => "extern",
            ItemKeyword::ExternType => "extern",
            ItemKeyword::Trait => "trait",
            ItemKeyword::Impl => "impl",
            ItemKeyword::Struct => "struct",
            ItemKeyword::Enum => "enum",
            ItemKeyword::Type => "type",
        }
    }
}

/// What a diagnostic says.
#[derive(Clone, Copy, PartialEq, Eq, Structural, Debug, Hash)]
pub enum SemanticDiagnosticKind {
    NotATrait,
    InvalidImplItem { item_kw: ItemKeyword },
    InvalidCopyTraitImpl,
    InvalidDropTraitImpl,
    FunctionNotMemberOfTrait {
        impl_id: ImplId,
        impl_function_id: ImplFunctionId,
        trait_id: TraitId,
    },
    WrongNumberOfParameters {
        impl_id: ImplId,
        impl_function_id: ImplFunctionId,
        trait_id: TraitId,
        expected: usize,
        actual: usize,
    },
    WrongParameterType {
        impl_id: ImplId,
        impl_function_id: ImplFunctionId,
        trait_id: TraitId,
        expected_ty: TypeId,
        actual_ty: TypeId,
    },
    ParamaterShouldBeReference {
        impl_id: ImplId,
        impl_function_id: ImplFunctionId,
        trait_id: TraitId,
    },
    ParamaterShouldNotBeReference {
        impl_id: ImplId,
        impl_function_id: ImplFunctionId,
        trait_id: TraitId,
    },
    PassPanicAsNopanic { impl_function_id: ImplFunctionId, trait_id: TraitId },
    WrongReturnTypeForImpl {
        impl_id: ImplId,
        impl_function_id: ImplFunctionId,
        trait_id: TraitId,
        expected_ty: TypeId,
        actual_ty: TypeId,
    },
    WrongReturnType { expected_ty: TypeId, actual_ty: TypeId },
    /// A diagnostic of another part of the semantic model, by its number.
    Other(usize),
}

/// A diagnostic, and the place that it is about.
#[derive(Clone, Copy, PartialEq, Eq, Structural, Debug, Hash)]
pub struct SemanticDiagnostic {
    pub module_file_id: ModuleFileId,
    pub stable_ptr: SyntaxStablePtrId,
    pub kind: SemanticDiagnosticKind,
}

/// The diagnostics of one file, in the order in which they were reported.
#[derive(Debug)]
pub struct SemanticDiagnostics {
    pub module_file_id: ModuleFileId,
    pub diagnostics: Vec<SemanticDiagnostic>,
}

impl View for SemanticDiagnostics {
    type V = Seq<SemanticDiagnostic>;

    open spec fn view(&self) -> Seq<SemanticDiagnostic> {
        self.diagnostics@
    }
}

impl SemanticDiagnostics {
    /// No diagnostics.
    pub fn new(module_file_id: ModuleFileId) -> (r: Self)
        ensures
            r@ == Seq::<SemanticDiagnostic>::empty(),
            r.module_file_id == module_file_id,
    {
        SemanticDiagnostics { module_file_id, diagnostics: Vec::new() }
    }

    /// Reports a diagnostic at the place.
    pub fn report_by_ptr(
        &mut self,
        stable_ptr: SyntaxStablePtrId,
        kind: SemanticDiagnosticKind,
    ) -> (r: DiagnosticAdded)
        ensures
            final(self)@ == old(self)@.push(
                (SemanticDiagnostic {
                    module_file_id: old(self).module_file_id,
                    stable_ptr,
                    kind,
                }),
            ),
            final(self).module_file_id == old(self).module_file_id,
    {
        self.diagnostics.push(
            SemanticDiagnostic { module_file_id: self.module_file_id, stable_ptr, kind },
        );
        DiagnosticAdded
    }

    /// Reports diagnostics that were found elsewhere.
    pub fn extend(&mut self, diagnostics: &Vec<SemanticDiagnostic>)
        ensures
            final(self)@ == old(self)@ + diagnostics@,
            final(self).module_file_id == old(self).module_file_id,
    {
        extend_copies(&mut self.diagnostics, diagnostics);
    }

    /// The diagnostics.
    pub fn build(self) -> (r: Vec<SemanticDiagnostic>)
        ensures
            r@ == self@,
    {
        self.diagnostics
    }
}

} // verus!

//! The facts about a program that the stages of the compiler read.
use crate::collections::{copy_vec, lookup, same_keys, OrderedMap};
use crate::diagnostics::{skip_diagnostic, DiagnosticAdded, Maybe};
use crate::ids::{
    ConcreteEnumId, EnumId, ExternFunctionId, FunctionId, GenericParamId, ModuleId, ParamId,
    StructId, SyntaxStablePtrId, TypeId, VarId, VariantId,
};
use crate::semantic::diagnostic::SemanticDiagnostic;
use crate::semantic::expr::FunctionBody;
use crate::semantic::imp::{ImplLookupContext, LookupModel};
use crate::semantic::types::{ConcreteVariant, Member, Signature, TypeInfo, Variant};
use vstd::prelude::*;

verus! {

/// What is known of a type as seen from a lookup context.
#[derive(Debug)]
pub struct TypeInfoEntry {
    pub context: ImplLookupContext,
    pub ty: TypeId,
    pub info: Maybe<TypeInfo>,
}

/// What is known of an enum whose generic arguments are known.
#[derive(Debug)]
pub struct ConcreteEnumEntry {
    pub enum_id: EnumId,
    pub variants: Maybe<Vec<ConcreteVariant>>,
}

/// What is known of a variant of an enum.
#[derive(Debug)]
pub struct VariantEntry {
    pub enum_id: EnumId,
    pub variant_id: VariantId,
    pub semantic: Maybe<Variant>,
}

/// What is known of a variant under the generic arguments of an enum.
#[derive(Debug)]
pub struct ConcreteVariantEntry {
    pub concrete_enum_id: ConcreteEnumId,
    pub variant: Variant,
    pub concrete: Maybe<ConcreteVariant>,
}

/// What is known of a function that can be called.
#[derive(Debug)]
pub struct FunctionEntry {
    /// The implicits of the function and of everything that it calls.
    pub implicits: Maybe<Vec<TypeId>>,
    /// The external function that this is, if it is one.
    pub extern_function: Option<ExternFunctionId>,
}

/// What is known of a function that has a body.
#[derive(Debug)]
pub struct FunctionWithBodyEntry<'a> {
    pub module_id: ModuleId,
    pub declaration_diagnostics: Vec<SemanticDiagnostic>,
    pub body_diagnostics: Vec<SemanticDiagnostic>,
    pub signature: Maybe<Signature>,
    pub body: Maybe<FunctionBody<'a>>,
    /// The implicits of the function and of everything that it calls.
    pub implicits: Maybe<Vec<TypeId>>,
    pub generic_params: Maybe<Vec<GenericParamId>>,
}

/// The items of the core library that the compiler refers to.
#[derive(Clone, Copy, PartialEq, Eq, Structural, Debug)]
pub struct CoreItems {
    pub felt_ty: TypeId,
    pub unit_ty: TypeId,
    pub nonzero_felt_ty: TypeId,
    pub jump_nz_func: FunctionId,
    pub jump_nz_zero_variant: ConcreteVariant,
    pub jump_nz_nonzero_variant: ConcreteVariant,
    pub panic_func: FunctionId,
    pub bool_enum: ConcreteEnumId,
    pub false_variant: ConcreteVariant,
    pub true_variant: ConcreteVariant,
}

/// The facts that the lowering reads. What a table does not hold is not known.
#[derive(Debug)]
pub struct LoweringDb<'a> {
    pub core: CoreItems,
    pub type_infos: Vec<TypeInfoEntry>,
    /// The members of each struct, in order.
    pub structs: Vec<Maybe<Vec<Member>>>,
    /// The variants of each enum, in order.
    pub enums: Vec<Maybe<Vec<VariantId>>>,
    pub variants: Vec<VariantEntry>,
    pub concrete_enums: Vec<ConcreteEnumEntry>,
    pub concrete_variants: Vec<ConcreteVariantEntry>,
    pub functions: Vec<FunctionEntry>,
    /// The reference parameters of each external function.
    pub extern_functions: Vec<Maybe<Vec<ParamId>>>,
    pub functions_with_body: Vec<FunctionWithBodyEntry<'a>>,
    /// Where each variable of the source stands in the syntax tree.
    pub variable_ptrs: OrderedMap<VarId, SyntaxStablePtrId>,
}

/// Whether the entry is about the type in the context.
pub open spec fn info_entry_fits(e: TypeInfoEntry, context: LookupModel, ty: TypeId) -> bool {
    e.ty == ty && e.context@ == context
}

/// What the entries from the place `i` on say of the type in the context: the first that fits.
pub open spec fn type_info_from(
    entries: Seq<TypeInfoEntry>,
    context: LookupModel,
    ty: TypeId,
    i: int,
) -> Maybe<TypeInfo>
    decreases entries.len() - i,
{
    if i < 0 || i >= entries.len() {
        Err(DiagnosticAdded)
    } else if info_entry_fits(entries[i], context, ty) {
        entries[i].info
    } else {
        type_info_from(entries, context, ty, i + 1)
    }
}

/// Finds what the entries say of the type in the context.
pub fn find_type_info(entries: &Vec<TypeInfoEntry>, context: &ImplLookupContext, ty: TypeId) -> (r:
    Maybe<TypeInfo>)
    ensures
        r == type_info_from(entries@, context@, ty, 0),
{
    let mut i: usize = 0;
    while i < entries.len()
        invariant
            i <= entries@.len(),
            type_info_from(entries@, context@, ty, 0) == type_info_from(
                entries@,
                context@,
                ty,
                i as int,
            ),
        decreases entries@.len() - i,
    {
        let e = &entries[i];
        if e.ty == ty && e.context.module_id == context.module_id && same_keys(
            &e.context.extra_modules,
            &context.extra_modules,
        ) && same_keys(&e.context.generic_params, &context.generic_params) {
            assert(e.context@ =~= context@);
            return e.info;
        }
        i += 1;
    }
    Err(skip_diagnostic())
}

/// What the entries from the place `i` on say of the variant.
pub open spec fn variant_from(
    entries: Seq<VariantEntry>,
    enum_id: EnumId,
    variant_id: VariantId,
    i: int,
) -> Maybe<Variant>
    decreases entries.len() - i,
{
    if i < 0 || i >= entries.len() {
        Err(DiagnosticAdded)
    } else if entries[i].enum_id == enum_id && entries[i].variant_id == variant_id {
        entries[i].semantic
    } else {
        variant_from(entries, enum_id, variant_id, i + 1)
    }
}

/// What the entries from the place `i` on say of the variant under the generic arguments.
pub open spec fn concrete_variant_from(
    entries: Seq<ConcreteVariantEntry>,
    concrete_enum_id: ConcreteEnumId,
    variant: Variant,
    i: int,
) -> Maybe<ConcreteVariant>
    decreases entries.len() - i,
{
    if i < 0 || i >= entries.len() {
        Err(DiagnosticAdded)
    } else if entries[i].concrete_enum_id == concrete_enum_id && entries[i].variant == variant {
        entries[i].concrete
    } else {
        concrete_variant_from(entries, concrete_enum_id, variant, i + 1)
    }
}

/// The elements of a list that may be unknown.
pub open spec fn maybe_seq<T>(m: Maybe<Vec<T>>) -> Maybe<Seq<T>> {
    match m {
        Ok(v) => Ok(v@),
        Err(d) => Err(d),
    }
}

/// The list at a place of a table; unknown where the table has no such place.
pub open spec fn list_at<T>(table: Seq<Maybe<Vec<T>>>, i: int) -> Maybe<Seq<T>> {
    if 0 <= i < table.len() {
        maybe_seq(table[i])
    } else {
        Err(DiagnosticAdded)
    }
}

/// The list at a place of a table; unknown where the table has no such place.
pub fn get_list<T: Copy>(table: &Vec<Maybe<Vec<T>>>, i: usize) -> (r: Maybe<Vec<T>>)
    ensures
        maybe_seq(r) == list_at(table@, i as int),
{
    if i < table.len() {
        match &table[i] {
            Ok(v) => Ok(copy_vec(v)),
            Err(d) => Err(*d),
        }
    } else {
        Err(skip_diagnostic())
    }
}

impl<'a> LoweringDb<'a> {
    /// The variant of an enum.
    pub open spec fn variant_semantic_of(&self, enum_id: EnumId, variant_id: VariantId) -> Maybe<
        Variant,
    > {
        variant_from(self.variants@, enum_id, variant_id, 0)
    }

    /// The variant of an enum.
    pub fn variant_semantic(&self, enum_id: EnumId, variant_id: VariantId) -> (r: Maybe<Variant>)
        ensures
            r == self.variant_semantic_of(enum_id, variant_id),
    {
        let mut i: usize = 0;
        while i < self.variants.len()
            invariant
                i <= self.variants@.len(),
                variant_from(self.variants@, enum_id, variant_id, 0) == variant_from(
                    self.variants@,
                    enum_id,
                    variant_id,
                    i as int,
                ),
            decreases self.variants@.len() - i,
        {
            let e = &self.variants[i];
            if e.enum_id == enum_id && e.variant_id == variant_id {
                return e.semantic;
            }
            i += 1;
        }
        Err(skip_diagnostic())
    }

    /// The variant under the generic arguments of an enum.
    pub open spec fn concrete_enum_variant_of(
        &self,
        concrete_enum_id: ConcreteEnumId,
        variant: Variant,
    ) -> Maybe<ConcreteVariant> {
        concrete_variant_from(self.concrete_variants@, concrete_enum_id, variant, 0)
    }

    /// The variant under the generic arguments of an enum.
    pub fn concrete_enum_variant(
        &self,
        concrete_enum_id: ConcreteEnumId,
        variant: &Variant,
    ) -> (r: Maybe<ConcreteVariant>)
        ensures
            r == self.concrete_enum_variant_of(concrete_enum_id, *variant),
    {
        let mut i: usize = 0;
        while i < self.concrete_variants.len()
            invariant
                i <= self.concrete_variants@.len(),
                concrete_variant_from(self.concrete_variants@, concrete_enum_id, *variant, 0)
                    == concrete_variant_from(
                    self.concrete_variants@,
                    concrete_enum_id,
                    *variant,
                    i as int,
                ),
            decreases self.concrete_variants@.len() - i,
        {
            let e = &self.concrete_variants[i];
            if e.concrete_enum_id == concrete_enum_id && e.variant == *variant {
                return e.concrete;
            }
            i += 1;
        }
        Err(skip_diagnostic())
    }

    /// The variants of an enum whose generic arguments are known.
    pub open spec fn concrete_enum_variants_of(&self, id: ConcreteEnumId) -> Maybe<
        Seq<ConcreteVariant>,
    > {
        if id.0 < self.concrete_enums@.len() {
            maybe_seq(self.concrete_enums@[id.0 as int].variants)
        } else {
            Err(DiagnosticAdded)
        }
    }

    /// The variants of an enum whose generic arguments are known.
    pub fn concrete_enum_variants(&self, id: ConcreteEnumId) -> (r: Maybe<Vec<ConcreteVariant>>)
        ensures
            maybe_seq(r) == self.concrete_enum_variants_of(id),
    {
        if id.0 < self.concrete_enums.len() {
            match &self.concrete_enums[id.0].variants {
                Ok(v) => Ok(copy_vec(v)),
                Err(d) => Err(*d),
            }
        } else {
            Err(skip_diagnostic())
        }
    }

    /// The members of a struct, in order.
    pub open spec fn struct_members_of(&self, id: StructId) -> Maybe<Seq<Member>> {
        list_at(self.structs@, id.0 as int)
    }

    /// The members of a struct, in order.
    pub fn struct_members(&self, id: StructId) -> (r: Maybe<Vec<Member>>)
        ensures
            maybe_seq(r) == self.struct_members_of(id),
    {
        get_list(&self.structs, id.0)
    }

    /// The variants of an enum, in order.
    pub open spec fn enum_variants_of(&self, id: EnumId) -> Maybe<Seq<VariantId>> {
        list_at(self.enums@, id.0 as int)
    }

    /// The variants of an enum, in order.
    pub fn enum_variants(&self, id: EnumId) -> (r: Maybe<Vec<VariantId>>)
        ensures
            maybe_seq(r) == self.enum_variants_of(id),
    {
        get_list(&self.enums, id.0)
    }

    /// The implicits of a function and of everything that it calls.
    pub open spec fn function_all_implicits_of(&self, id: FunctionId) -> Maybe<Seq<TypeId>> {
        if id.0 < self.functions@.len() {
            maybe_seq(self.functions@[id.0 as int].implicits)
        } else {
            Err(DiagnosticAdded)
        }
    }

    /// The implicits of a function and of everything that it calls.
    pub fn function_all_implicits(&self, id: FunctionId) -> (r: Maybe<Vec<TypeId>>)
        ensures
            maybe_seq(r) == self.function_all_implicits_of(id),
    {
        if id.0 < self.functions.len() {
            match &self.functions[id.0].implicits {
                Ok(v) => Ok(copy_vec(v)),
                Err(d) => Err(*d),
            }
        } else {
            Err(skip_diagnostic())
        }
    }

    /// The external function that a function is, if it is one.
    pub open spec fn extern_function_of(&self, id: FunctionId) -> Option<ExternFunctionId> {
        if id.0 < self.functions@.len() {
            self.functions@[id.0 as int].extern_function
        } else {
            None
        }
    }

    /// The external function that a function is, if it is one.
    pub fn try_get_extern_function_id(&self, id: FunctionId) -> (r: Option<ExternFunctionId>)
        ensures
            r == self.extern_function_of(id),
    {
        if id.0 < self.functions.len() {
            self.functions[id.0].extern_function
        } else {
            None
        }
    }

    /// Whether the external function is known to take some parameter by reference.
    pub open spec fn extern_function_has_refs(&self, id: ExternFunctionId) -> bool {
        match list_at(self.extern_functions@, id.0 as int) {
            Ok(refs) => refs.len() > 0,
            Err(_) => false,
        }
    }

    /// The parameters that an external function takes by reference.
    pub fn extern_function_declaration_refs(&self, id: ExternFunctionId) -> (r: Maybe<Vec<ParamId>>)
        ensures
            maybe_seq(r) == list_at(self.extern_functions@, id.0 as int),
    {
        get_list(&self.extern_functions, id.0)
    }

    /// The place of a variable of the source in the syntax tree.
    pub open spec fn variable_ptr_of(&self, var: VarId) -> Option<SyntaxStablePtrId> {
        lookup(self.variable_ptrs@, var)
    }
}

} // verus!

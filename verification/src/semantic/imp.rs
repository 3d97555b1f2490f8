//! The semantic model of `impl` items.
use crate::collections::{
    assign, begins, copy_vec, extend_copies, has_key, is_first, key_index, keys, lemma_no_key,
    lemma_unique_keys, same_keys, unique_keys, OrderedMap,
};
use crate::diagnostics::{skip_diagnostic, to_maybe, DiagnosticAdded, Maybe};
use crate::ids::{
    ConcreteImplId, ConcreteTraitId, GenericParamId, ImplFunctionId, ImplId, ModuleFileId, ModuleId,
    SubmoduleId, SyntaxStablePtrId, TypeId, UseId,
};
use crate::interner::{a_short_id_stays, interned, interning_is_stable, short_id, LongId};
use crate::semantic::db::{find_type_info, get_list, list_at, type_info_from};
use crate::semantic::diagnostic::{
    ItemKeyword, SemanticDiagnostic, SemanticDiagnosticKind, SemanticDiagnostics,
};
use crate::semantic::program::{
    find_impl, impl_from, GenericArgumentId, ImplFunctionLongId, Interners, SemanticDb,
};
use crate::semantic::syntax::{
    no_lookback, Attribute, Item, ItemFreeFunction, ItemImpl, LookbackModel, PathSyntax,
    ResolvedConcreteItem, ResolvedGenericItem, ResolvedLookback,
};
use crate::semantic::types::{
    member_types, variant_types, ConcreteTypeId, ConcreteVariant, Member, TypeInterner, TypeLongId,
    TypeModel,
};
use std::sync::Arc;
use vstd::pervasive::unreached;
use vstd::prelude::*;

verus! {

/// An impl together with its generic arguments.
#[derive(Debug, PartialEq, Eq, Hash)]
pub struct ConcreteImplLongId {
    pub impl_id: ImplId,
    pub generic_args: Vec<GenericArgumentId>,
}

/// The mathematical counterpart of [ConcreteImplLongId].
#[verifier::ext_equal]
pub struct ConcreteImplModel {
    pub impl_id: ImplId,
    pub generic_args: Seq<GenericArgumentId>,
}

impl View for ConcreteImplLongId {
    type V = ConcreteImplModel;

    open spec fn view(&self) -> ConcreteImplModel {
        ConcreteImplModel { impl_id: self.impl_id, generic_args: self.generic_args@ }
    }
}

impl Clone for ConcreteImplLongId {
    fn clone(&self) -> (r: Self)
        ensures
            r@ == self@,
    {
        ConcreteImplLongId { impl_id: self.impl_id, generic_args: copy_vec(&self.generic_args) }
    }
}

impl LongId for ConcreteImplLongId {
    fn same(&self, other: &Self) -> (r: bool) {
        self.impl_id == other.impl_id && same_keys(&self.generic_args, &other.generic_args)
    }
}

/// Where the impls of a trait are looked for.
#[derive(Debug, PartialEq, Eq, Hash)]
pub struct ImplLookupContext {
    pub module_id: ModuleId,
    pub extra_modules: Vec<ModuleId>,
    pub generic_params: Vec<GenericParamId>,
}

/// The mathematical counterpart of [ImplLookupContext].
#[verifier::ext_equal]
pub struct LookupModel {
    pub module_id: ModuleId,
    pub extra_modules: Seq<ModuleId>,
    pub generic_params: Seq<GenericParamId>,
}

impl View for ImplLookupContext {
    type V = LookupModel;

    open spec fn view(&self) -> LookupModel {
        LookupModel {
            module_id: self.module_id,
            extra_modules: self.extra_modules@,
            generic_params: self.generic_params@,
        }
    }
}

impl Clone for ImplLookupContext {
    fn clone(&self) -> (r: Self)
        ensures
            r@ == self@,
    {
        ImplLookupContext {
            module_id: self.module_id,
            extra_modules: copy_vec(&self.extra_modules),
            generic_params: copy_vec(&self.generic_params),
        }
    }
}

// === Declaration ===

/// What the declaration of an impl means.
#[derive(Debug, PartialEq, Eq)]
pub struct ImplDeclarationData<'a> {
    pub diagnostics: Vec<SemanticDiagnostic>,
    pub generic_params: Vec<GenericParamId>,
    /// The concrete trait this impl implements, or Err if cannot be resolved.
    pub concrete_trait: Maybe<ConcreteTraitId>,
    pub attributes: &'a Vec<Attribute>,
    pub resolved_lookback: Arc<ResolvedLookback>,
}

/// The mathematical counterpart of [ImplDeclarationData].
#[verifier::ext_equal]
pub struct DeclarationModel {
    pub diagnostics: Seq<SemanticDiagnostic>,
    pub generic_params: Seq<GenericParamId>,
    pub concrete_trait: Option<ConcreteTraitId>,
    pub attributes: Seq<Attribute>,
    pub lookback: LookbackModel,
}

/// The value, where there is one.
pub open spec fn known_value<T>(m: Maybe<T>) -> Option<T> {
    match m {
        Ok(v) => Some(v),
        Err(_) => None,
    }
}

impl<'a> View for ImplDeclarationData<'a> {
    type V = DeclarationModel;

    open spec fn view(&self) -> DeclarationModel {
        DeclarationModel {
            diagnostics: self.diagnostics@,
            generic_params: self.generic_params@,
            concrete_trait: known_value(self.concrete_trait),
            attributes: self.attributes@,
            lookback: self.resolved_lookback@,
        }
    }
}

impl<'a> Clone for ImplDeclarationData<'a> {
    fn clone(&self) -> (r: Self)
        ensures
            r@ == self@,
    {
        ImplDeclarationData {
            diagnostics: copy_vec(&self.diagnostics),
            generic_params: copy_vec(&self.generic_params),
            concrete_trait: self.concrete_trait,
            attributes: self.attributes,
            resolved_lookback: Arc::new((*self.resolved_lookback).clone()),
        }
    }
}

/// The counterpart of a declaration, where there is one.
pub open spec fn declaration_result(r: Maybe<ImplDeclarationData>) -> Option<DeclarationModel> {
    match r {
        Ok(data) => Some(data@),
        Err(_) => None,
    }
}

/// The syntax of the impl.
pub open spec fn impl_ast_of(db: &SemanticDb, impl_id: ImplId) -> Option<ItemImpl> {
    match db.module_impls_of(db.impls@[impl_id.0 as int].0) {
        Ok(impls) => impl_from(impls, impl_id, 0),
        Err(_) => None,
    }
}

/// The trait that the path stands for, if it stands for one.
pub open spec fn trait_of_path(path: PathSyntax) -> Option<ConcreteTraitId> {
    match path.resolved {
        Ok(ResolvedConcreteItem::Trait(concrete_trait)) => Some(concrete_trait),
        _ => None,
    }
}

/// What the declaration of the `impl` item means. Where the path of the trait is not to be
/// resolved, the trait is not found.
pub open spec fn declaration_of_item(
    module_file_id: ModuleFileId,
    item: ItemImpl,
    resolve_trait: bool,
) -> DeclarationModel {
    let path = item.trait_path;
    let concrete_trait = if resolve_trait {
        trait_of_path(path)
    } else {
        None
    };
    let found = item.generic_params.diagnostics@ + if resolve_trait {
        path.diagnostics@
    } else {
        Seq::empty()
    };
    DeclarationModel {
        diagnostics: if concrete_trait is None {
            found.push(
                SemanticDiagnostic {
                    module_file_id,
                    stable_ptr: path.stable_ptr,
                    kind: SemanticDiagnosticKind::NotATrait,
                },
            )
        } else {
            found
        },
        generic_params: item.generic_params.params@,
        concrete_trait,
        attributes: item.attributes@,
        lookback: if resolve_trait {
            path.lookback@
        } else {
            no_lookback()
        },
    }
}

/// What the declaration of the impl means, where its syntax is known.
pub open spec fn declaration_of(db: &SemanticDb, impl_id: ImplId, resolve_trait: bool) -> Option<
    DeclarationModel,
> {
    match impl_ast_of(db, impl_id) {
        Some(item) => Some(
            declaration_of_item(db.impls@[impl_id.0 as int], item, resolve_trait),
        ),
        None => None,
    }
}

impl<'a> ImplDeclarationData<'a> {
    /// Returns Maybe::Err if a cycle is detected here.
    pub fn check_no_cycle(&self) -> (r: Maybe<()>)
        ensures
            r is Ok <==> self@.concrete_trait is Some,
    {
        match self.concrete_trait {
            Ok(_) => Ok(()),
            Err(diag_added) => Err(diag_added),
        }
    }
}

/// The diagnostics of the declaration of the impl.
pub fn impl_semantic_declaration_diagnostics(db: &SemanticDb, impl_id: ImplId) -> (r: Vec<
    SemanticDiagnostic,
>)
    requires
        impl_id.0 < db.impls@.len(),
    ensures
        r@ == (match declaration_of(db, impl_id, true) {
            Some(data) => data.diagnostics,
            None => Seq::empty(),
        }),
{
    match priv_impl_declaration_data(db, impl_id) {
        Ok(data) => data.diagnostics,
        Err(_) => Vec::new(),
    }
}

/// The generic parameters of the impl.
pub fn impl_generic_params(db: &SemanticDb, impl_id: ImplId) -> (r: Maybe<Vec<GenericParamId>>)
    requires
        impl_id.0 < db.impls@.len(),
    ensures
        match declaration_of(db, impl_id, true) {
            Some(data) => r is Ok && r->Ok_0@ == data.generic_params,
            None => r is Err,
        },
{
    match priv_impl_declaration_data(db, impl_id) {
        Ok(data) => Ok(data.generic_params),
        Err(diag_added) => Err(diag_added),
    }
}

/// What the identifiers of the declaration of the impl were resolved to.
pub fn impl_resolved_lookback(db: &SemanticDb, impl_id: ImplId) -> (r: Maybe<Arc<ResolvedLookback>>)
    requires
        impl_id.0 < db.impls@.len(),
    ensures
        match declaration_of(db, impl_id, true) {
            Some(data) => r is Ok && r->Ok_0@ == data.lookback,
            None => r is Err,
        },
{
    match priv_impl_declaration_data(db, impl_id) {
        Ok(data) => Ok(data.resolved_lookback),
        Err(diag_added) => Err(diag_added),
    }
}

/// The concrete trait that the impl implements.
pub fn impl_trait(db: &SemanticDb, impl_id: ImplId) -> (r: Maybe<ConcreteTraitId>)
    requires
        impl_id.0 < db.impls@.len(),
    ensures
        known_value(r) == (match declaration_of(db, impl_id, true) {
            Some(data) => data.concrete_trait,
            None => None,
        }),
{
    match priv_impl_declaration_data(db, impl_id) {
        Ok(data) => data.concrete_trait,
        Err(diag_added) => Err(diag_added),
    }
}

/// Cycle handling for [priv_impl_declaration_data].
pub fn priv_impl_declaration_data_cycle<'a>(
    db: &'a SemanticDb,
    _cycle: &[String],
    impl_id: &ImplId,
) -> (r: Maybe<ImplDeclarationData<'a>>)
    requires
        impl_id.0 < db.impls@.len(),
    ensures
        declaration_result(r) == declaration_of(db, *impl_id, false),
{
    priv_impl_declaration_data_inner(db, *impl_id, false)
}

/// What the declaration of the impl means.
pub fn priv_impl_declaration_data<'a>(db: &'a SemanticDb, impl_id: ImplId) -> (r: Maybe<
    ImplDeclarationData<'a>,
>)
    requires
        impl_id.0 < db.impls@.len(),
    ensures
        declaration_result(r) == declaration_of(db, impl_id, true),
{
    priv_impl_declaration_data_inner(db, impl_id, true)
}

/// Shared code for the query and cycle handling.
/// The cycle handling logic needs to pass resolve_trait=false to prevent the cycle.
pub fn priv_impl_declaration_data_inner<'a>(
    db: &'a SemanticDb,
    impl_id: ImplId,
    resolve_trait: bool,
) -> (r: Maybe<ImplDeclarationData<'a>>)
    requires
        impl_id.0 < db.impls@.len(),
    ensures
        declaration_result(r) == declaration_of(db, impl_id, resolve_trait),
{
    let module_file_id = db.impls[impl_id.0];
    let mut diagnostics = SemanticDiagnostics::new(module_file_id);
    let module_impls = match db.module_impls(module_file_id.0) {
        Ok(module_impls) => module_impls,
        Err(diag_added) => {
            return Err(diag_added);
        },
    };
    let impl_ast = match to_maybe(find_impl(module_impls, impl_id)) {
        Ok(impl_ast) => impl_ast,
        Err(diag_added) => {
            return Err(diag_added);
        },
    };
    // Generic params.
    let generic_params = copy_vec(&impl_ast.generic_params.params);
    diagnostics.extend(&impl_ast.generic_params.diagnostics);
    let trait_path_syntax = &impl_ast.trait_path;
    let mut lookback = ResolvedLookback::new();
    let resolved = if resolve_trait {
        diagnostics.extend(&trait_path_syntax.diagnostics);
        lookback = trait_path_syntax.lookback.clone();
        match trait_path_syntax.resolved {
            Ok(ResolvedConcreteItem::Trait(concrete_trait)) => Some(concrete_trait),
            _ => None,
        }
    } else {
        None
    };
    let concrete_trait = match resolved {
        Some(concrete_trait) => Ok(concrete_trait),
        None => Err(
            diagnostics.report_by_ptr(
                trait_path_syntax.stable_ptr,
                SemanticDiagnosticKind::NotATrait,
            ),
        ),
    };
    let resolved_lookback = Arc::new(lookback);
    let data = ImplDeclarationData {
        diagnostics: diagnostics.build(),
        generic_params,
        concrete_trait,
        attributes: &impl_ast.attributes,
        resolved_lookback,
    };
    assert(data@ =~= declaration_of_item(module_file_id, *impl_ast, resolve_trait));
    Ok(data)
}

/// A cycle in the declaration of an impl leaves it without a trait, which is reported, and changes
/// nothing else of what the declaration says of itself.
pub proof fn a_cycle_leaves_no_trait(db: &SemanticDb, impl_id: ImplId)
    ensures
        declaration_of(db, impl_id, false) is Some <==> declaration_of(db, impl_id, true) is Some,
        declaration_of(db, impl_id, false) matches Some(data) ==> {
            let whole = declaration_of(db, impl_id, true)->0;
            &&& data.concrete_trait is None
            &&& data.diagnostics.len() > 0
            &&& data.diagnostics.last().kind == SemanticDiagnosticKind::NotATrait
            &&& data.generic_params == whole.generic_params
            &&& data.attributes == whole.attributes
            &&& data.lookback == no_lookback()
        },
{
}

/// An impl either has a trait or it was reported that its path is not that of a trait.
pub proof fn a_missing_trait_is_reported(db: &SemanticDb, impl_id: ImplId, resolve_trait: bool)
    ensures
        declaration_of(db, impl_id, resolve_trait) matches Some(data) ==> (data.concrete_trait is None
            ==> data.diagnostics.len() > 0 && data.diagnostics.last().kind
            == SemanticDiagnosticKind::NotATrait),
{
}

// === Definition ===

/// What the definition of an impl means.
#[derive(Debug, PartialEq, Eq)]
pub struct ImplDefinitionData<'a> {
    pub diagnostics: Vec<SemanticDiagnostic>,
    pub function_asts: OrderedMap<ImplFunctionId, &'a ItemFreeFunction>,
}

/// The mathematical counterpart of [ImplDefinitionData].
#[verifier::ext_equal]
pub struct DefinitionModel<'a> {
    pub diagnostics: Seq<SemanticDiagnostic>,
    pub functions: Seq<(ImplFunctionId, &'a ItemFreeFunction)>,
}

impl<'a> View for ImplDefinitionData<'a> {
    type V = DefinitionModel<'a>;

    open spec fn view(&self) -> DefinitionModel<'a> {
        DefinitionModel { diagnostics: self.diagnostics@, functions: self.function_asts@ }
    }
}

impl<'a> Clone for ImplDefinitionData<'a> {
    fn clone(&self) -> (r: Self)
        ensures
            r@ == self@,
    {
        ImplDefinitionData {
            diagnostics: copy_vec(&self.diagnostics),
            function_asts: self.function_asts.copied(),
        }
    }
}

/// The counterpart of a definition, where there is one.
pub open spec fn definition_result<'a>(r: Maybe<ImplDefinitionData<'a>>) -> Option<
    DefinitionModel<'a>,
> {
    match r {
        Ok(data) => Some(data@),
        Err(_) => None,
    }
}

/// The items of the definition so far, and the table of functions.
#[verifier::ext_equal]
pub struct ItemsModel<'a> {
    pub table: Seq<ImplFunctionLongId>,
    pub diagnostics: Seq<SemanticDiagnostic>,
    pub functions: Seq<(ImplFunctionId, &'a ItemFreeFunction)>,
}

/// The items with one more: a function is kept under its identifier, any other item is reported.
pub open spec fn with_item<'a>(
    module_file_id: ModuleFileId,
    m: ItemsModel<'a>,
    item: &'a Item,
) -> ItemsModel<'a> {
    match item {
        Item::FreeFunction(func) => {
            let long_id = ImplFunctionLongId(module_file_id, func.stable_ptr);
            ItemsModel {
                table: interned(m.table, long_id),
                diagnostics: m.diagnostics,
                functions: assign(
                    m.functions,
                    ImplFunctionId(short_id(m.table, long_id) as usize),
                    func,
                ),
            }
        },
        _ => {
            let (ptr, item_kw) = item.keyword_of()->0;
            ItemsModel {
                diagnostics: m.diagnostics.push(
                    SemanticDiagnostic {
                        module_file_id,
                        stable_ptr: ptr,
                        kind: SemanticDiagnosticKind::InvalidImplItem { item_kw },
                    },
                ),
                ..m
            }
        },
    }
}

/// The items with those from the place `i` on.
pub open spec fn with_items<'a>(
    module_file_id: ModuleFileId,
    m: ItemsModel<'a>,
    items: Seq<Item>,
    i: int,
) -> ItemsModel<'a>
    decreases items.len() - i,
{
    if i < 0 || i >= items.len() {
        m
    } else {
        with_items(module_file_id, with_item(module_file_id, m, &items[i]), items, i + 1)
    }
}

/// The items between the braces of the impl.
pub open spec fn items_of(item: ItemImpl) -> Seq<Item> {
    match item.body {
        Some(items) => items@,
        None => Seq::empty(),
    }
}

/// The outcome of the check of an impl of a trait that the compiler knows of.
pub enum SpecialCheck {
    /// There is nothing to say.
    Passed,
    /// It is not known what the type is made of.
    Unknown,
    /// The type has a part that does not implement the trait.
    Refused(SemanticDiagnosticKind),
}

/// The inner types of the type, where they are known.
pub open spec fn inner_types_of(db: &SemanticDb, types: Seq<TypeModel>, ty: TypeId) -> Option<
    Seq<TypeId>,
> {
    match types[ty.0 as int] {
        TypeModel::Concrete(ConcreteTypeId::Struct(id)) => match list_at(
            db.concrete_structs@,
            id.0 as int,
        ) {
            Ok(members) => Some(
                members.map_values(|m: Member| m.ty),
            ),
            Err(_) => None,
        },
        TypeModel::Concrete(ConcreteTypeId::Enum(id)) => if id.0 < db.concrete_enums@.len() {
            match db.concrete_enums@[id.0 as int].variants {
                Ok(variants) => Some(
                    variants@.map_values(|v: ConcreteVariant| v.ty),
                ),
                Err(_) => None,
            }
        } else {
            None
        },
        TypeModel::Concrete(ConcreteTypeId::Extern(_)) => Some(Seq::empty()),
        TypeModel::Tuple(tys) => Some(tys),
        TypeModel::GenericParameter(_) => None,
        TypeModel::Missing(_) => None,
    }
}

/// Whether the values can be duplicated (`copy`) or dropped, as far as is known.
pub open spec fn allows(
    db: &SemanticDb,
    lookup_context: LookupModel,
    ty: TypeId,
    copy: bool,
) -> bool {
    match type_info_from(db.type_infos@, lookup_context, ty, 0) {
        Ok(info) => if copy {
            info.duplicatable
        } else {
            info.droppable
        },
        Err(_) => true,
    }
}

/// The check of an impl of Copy (`copy`) or Drop for the type: every inner type must implement the
/// trait.
pub open spec fn inner_check(
    db: &SemanticDb,
    types: Seq<TypeModel>,
    lookup_context: LookupModel,
    ty: TypeId,
    copy: bool,
) -> SpecialCheck {
    match inner_types_of(db, types, ty) {
        None => SpecialCheck::Unknown,
        Some(tys) => if forall|i: int|
            0 <= i < tys.len() ==> allows(db, lookup_context, #[trigger] tys[i], copy) {
            SpecialCheck::Passed
        } else if copy {
            SpecialCheck::Refused(SemanticDiagnosticKind::InvalidCopyTraitImpl)
        } else {
            SpecialCheck::Refused(SemanticDiagnosticKind::InvalidDropTraitImpl)
        },
    }
}

/// The type that the trait is implemented for: its first generic argument.
pub open spec fn implementor_of(db: &SemanticDb, concrete_trait: ConcreteTraitId) -> TypeId {
    db.concrete_traits@[concrete_trait.0 as int].generic_args@[0]->Type_0
}

/// The check of an impl of the trait.
pub open spec fn special_check(
    db: &SemanticDb,
    types: Seq<TypeModel>,
    lookup_context: LookupModel,
    concrete_trait: ConcreteTraitId,
) -> SpecialCheck {
    let trait_id = db.concrete_traits@[concrete_trait.0 as int].trait_id;
    let ty = implementor_of(db, concrete_trait);
    let of_copy = if trait_id == db.copy_trait {
        inner_check(db, types, lookup_context, ty, true)
    } else {
        SpecialCheck::Passed
    };
    if of_copy !is Passed {
        of_copy
    } else if trait_id == db.drop_trait {
        inner_check(db, types, lookup_context, ty, false)
    } else {
        SpecialCheck::Passed
    }
}

/// Whether the concrete trait is known, and is given a known type if it is Copy or Drop.
pub open spec fn trait_ok(
    db: &SemanticDb,
    types: Seq<TypeModel>,
    concrete_trait: ConcreteTraitId,
) -> bool {
    &&& concrete_trait.0 < db.concrete_traits@.len()
    &&& ({
        let long_id = db.concrete_traits@[concrete_trait.0 as int];
        long_id.trait_id == db.copy_trait || long_id.trait_id == db.drop_trait ==> {
            &&& long_id.generic_args@.len() > 0
            &&& long_id.generic_args@[0] is Type
            &&& (long_id.generic_args@[0]->Type_0).0 < types.len()
        }
    })
}

/// Whether the impl is known, and so is the concrete trait that it implements.
pub open spec fn impl_ok(db: &SemanticDb, types: Seq<TypeModel>, impl_id: ImplId) -> bool {
    &&& impl_id.0 < db.impls@.len()
    &&& match declaration_of(db, impl_id, true) {
        Some(data) => match data.concrete_trait {
            Some(concrete_trait) => trait_ok(db, types, concrete_trait),
            None => true,
        },
        None => true,
    }
}

/// The diagnostics of the check of an impl of the trait.
pub open spec fn special_diagnostics(
    module_file_id: ModuleFileId,
    stable_ptr: SyntaxStablePtrId,
    check: SpecialCheck,
) -> Seq<SemanticDiagnostic> {
    match check {
        SpecialCheck::Refused(kind) => seq![SemanticDiagnostic { module_file_id, stable_ptr, kind }],
        _ => Seq::empty(),
    }
}

/// The lookup context of the impl: its module, and its generic parameters.
pub open spec fn context_of(
    db: &SemanticDb,
    impl_id: ImplId,
    generic_params: Seq<GenericParamId>,
) -> LookupModel {
    LookupModel {
        module_id: db.impls@[impl_id.0 as int].0,
        extra_modules: Seq::empty(),
        generic_params,
    }
}

/// The start of the definition of the impl: the check of its trait.
pub open spec fn first_items<'a>(
    db: &'a SemanticDb,
    types: Seq<TypeModel>,
    table: Seq<ImplFunctionLongId>,
    impl_id: ImplId,
    declaration: DeclarationModel,
    concrete_trait: ConcreteTraitId,
    item: ItemImpl,
) -> ItemsModel<'a> {
    ItemsModel {
        table,
        diagnostics: special_diagnostics(
            db.impls@[impl_id.0 as int],
            item.stable_ptr,
            special_check(
                db,
                types,
                context_of(db, impl_id, declaration.generic_params),
                concrete_trait,
            ),
        ),
        functions: Seq::empty(),
    }
}

/// What the definition of the impl means, and the table of functions after it. An impl without a
/// trait has none.
pub open spec fn definition_of<'a>(
    db: &'a SemanticDb,
    types: Seq<TypeModel>,
    table: Seq<ImplFunctionLongId>,
    impl_id: ImplId,
) -> (Seq<ImplFunctionLongId>, Option<DefinitionModel<'a>>) {
    let module_file_id = db.impls@[impl_id.0 as int];
    match (declaration_of(db, impl_id, true), impl_ast_of(db, impl_id)) {
        (Some(declaration), Some(item)) => match declaration.concrete_trait {
            None => (table, None),
            Some(concrete_trait) => {
                let m = with_items(
                    module_file_id,
                    first_items(db, types, table, impl_id, declaration, concrete_trait, item),
                    items_of(item),
                    0,
                );
                (
                    m.table,
                    Some(DefinitionModel { diagnostics: m.diagnostics, functions: m.functions }),
                )
            },
        },
        _ => (table, None),
    }
}

/// Items only add to the table.
pub proof fn lemma_items_extend<'a>(
    module_file_id: ModuleFileId,
    m: ItemsModel<'a>,
    items: Seq<Item>,
    i: int,
)
    ensures
        begins(m.table, with_items(module_file_id, m, items, i).table),
    decreases items.len() - i,
{
    if 0 <= i < items.len() {
        let m1 = with_item(module_file_id, m, &items[i]);
        assert(begins(m.table, m1.table)) by {
            match items[i] {
                Item::FreeFunction(func) => {
                    interning_is_stable(
                        m.table,
                        ImplFunctionLongId(module_file_id, func.stable_ptr),
                    );
                    assert forall|j: int| 0 <= j < m.table.len() implies #[trigger] m1.table[j]
                        == m.table[j] by {
                        assert(m1.table.take(m.table.len() as int)[j] == m.table[j]);
                    }
                },
                _ => {},
            }
        }
        lemma_items_extend(module_file_id, m1, items, i + 1);
    }
}

/// In a table that has all their functions, items give the same again.
proof fn lemma_items_again<'a>(
    module_file_id: ModuleFileId,
    m: ItemsModel<'a>,
    items: Seq<Item>,
    i: int,
    later: Seq<ImplFunctionLongId>,
)
    requires
        begins(with_items(module_file_id, m, items, i).table, later),
    ensures
        with_items(module_file_id, ItemsModel { table: later, ..m }, items, i) == (ItemsModel {
            table: later,
            ..with_items(module_file_id, m, items, i)
        }),
    decreases items.len() - i,
{
    if 0 <= i < items.len() {
        let m1 = with_item(module_file_id, m, &items[i]);
        lemma_items_extend(module_file_id, m1, items, i + 1);
        assert(begins(m1.table, later));
        match items[i] {
            Item::FreeFunction(func) => {
                let long_id = ImplFunctionLongId(module_file_id, func.stable_ptr);
                a_short_id_stays(m.table, long_id, later);
            },
            _ => {},
        }
        assert(with_item(module_file_id, ItemsModel { table: later, ..m }, &items[i])
            == (ItemsModel { table: later, ..m1 }));
        lemma_items_again(module_file_id, m1, items, i + 1, later);
    }
}

/// Whether the function is one of the items.
pub open spec fn is_item(items: Seq<Item>, func: ItemFreeFunction) -> bool {
    exists|k: int| 0 <= k < items.len() && #[trigger] items[k] == Item::FreeFunction(func)
}

/// Whether the identifiers lead back to the places of the functions, and these are among the items.
pub open spec fn lead_back<'a>(
    module_file_id: ModuleFileId,
    table: Seq<ImplFunctionLongId>,
    functions: Seq<(ImplFunctionId, &'a ItemFreeFunction)>,
    items: Seq<Item>,
) -> bool {
    forall|j: int|
        0 <= j < functions.len() ==> {
            let (id, func) = #[trigger] functions[j];
            &&& id.0 < table.len()
            &&& table[id.0 as int] == ImplFunctionLongId(module_file_id, func.stable_ptr)
            &&& is_item(items, *func)
        }
}

/// Items keep that the identifiers of the functions lead back to their places.
proof fn lemma_items_lead_back<'a>(
    module_file_id: ModuleFileId,
    m: ItemsModel<'a>,
    items: Seq<Item>,
    i: int,
)
    requires
        0 <= i,
        lead_back(module_file_id, m.table, m.functions, items),
        unique_keys(m.functions),
        with_items(module_file_id, m, items, i).table.len() <= usize::MAX,
    ensures
        lead_back(
            module_file_id,
            with_items(module_file_id, m, items, i).table,
            with_items(module_file_id, m, items, i).functions,
            items,
        ),
        unique_keys(with_items(module_file_id, m, items, i).functions),
    decreases items.len() - i,
{
    if i < items.len() {
        let m1 = with_item(module_file_id, m, &items[i]);
        lemma_items_extend(module_file_id, m1, items, i + 1);
        assert(lead_back(module_file_id, m1.table, m1.functions, items) && unique_keys(
            m1.functions,
        )) by {
            match items[i] {
                Item::FreeFunction(func) => {
                    let long_id = ImplFunctionLongId(module_file_id, func.stable_ptr);
                    interning_is_stable(m.table, long_id);
                    let id = ImplFunctionId(short_id(m.table, long_id) as usize);
                    assert(is_item(items, func));
                    lemma_unique_keys(m.functions, id, &func);
                    assert forall|j: int| 0 <= j < m1.functions.len() implies ({
                        let (id1, func1) = #[trigger] m1.functions[j];
                        &&& id1.0 < m1.table.len()
                        &&& m1.table[id1.0 as int] == ImplFunctionLongId(
                            module_file_id,
                            func1.stable_ptr,
                        )
                        &&& is_item(items, *func1)
                    }) by {
                        if j < m.functions.len() && m1.functions[j] == m.functions[j] {
                            let (id1, func1) = m.functions[j];
                            assert(id1.0 < m.table.len());
                            assert(m1.table.take(m.table.len() as int)[id1.0 as int]
                                == m.table[id1.0 as int]);
                        } else {
                            if has_key(m.functions, id) {
                                assert(is_first(m.functions, id, key_index(m.functions, id)));
                            }
                            assert(m1.functions[j] == (id, &func));
                        }
                    }
                },
                _ => {},
            }
        }
        lemma_items_lead_back(module_file_id, m1, items, i + 1);
    }
}

/// What is reported of the first `n` items: each one that is not a function.
pub open spec fn invalid_items(module_file_id: ModuleFileId, items: Seq<Item>, n: int) -> Seq<
    SemanticDiagnostic,
>
    decreases n,
{
    if n <= 0 || n > items.len() {
        Seq::empty()
    } else {
        match items[n - 1].keyword_of() {
            Some((stable_ptr, item_kw)) => invalid_items(module_file_id, items, n - 1).push(
                SemanticDiagnostic {
                    module_file_id,
                    stable_ptr,
                    kind: SemanticDiagnosticKind::InvalidImplItem { item_kw },
                },
            ),
            None => invalid_items(module_file_id, items, n - 1),
        }
    }
}

proof fn lemma_items_diagnostics<'a>(
    module_file_id: ModuleFileId,
    m: ItemsModel<'a>,
    items: Seq<Item>,
    i: int,
    first: Seq<SemanticDiagnostic>,
)
    requires
        0 <= i <= items.len(),
        m.diagnostics == first + invalid_items(module_file_id, items, i),
    ensures
        with_items(module_file_id, m, items, i).diagnostics == first + invalid_items(
            module_file_id,
            items,
            items.len() as int,
        ),
    decreases items.len() - i,
{
    if i < items.len() {
        let m1 = with_item(module_file_id, m, &items[i]);
        assert(m1.diagnostics =~= first + invalid_items(module_file_id, items, i + 1));
        lemma_items_diagnostics(module_file_id, m1, items, i + 1, first);
    }
}

/// The definition of an impl reports what the check of its trait found, and then every item that is
/// not a function, in order.
pub proof fn every_other_item_is_reported(
    db: &SemanticDb,
    types: Seq<TypeModel>,
    table: Seq<ImplFunctionLongId>,
    impl_id: ImplId,
)
    ensures
        definition_of(db, types, table, impl_id).1 matches Some(data) ==> {
            let item = impl_ast_of(db, impl_id)->0;
            let module_file_id = db.impls@[impl_id.0 as int];
            let declaration = declaration_of(db, impl_id, true)->0;
            let check = special_check(
                db,
                types,
                context_of(db, impl_id, declaration.generic_params),
                declaration.concrete_trait->0,
            );
            data.diagnostics == special_diagnostics(module_file_id, item.stable_ptr, check)
                + invalid_items(module_file_id, items_of(item), items_of(item).len() as int)
        },
{
    let module_file_id = db.impls@[impl_id.0 as int];
    match (declaration_of(db, impl_id, true), impl_ast_of(db, impl_id)) {
        (Some(declaration), Some(item)) => match declaration.concrete_trait {
            None => {},
            Some(concrete_trait) => {
                let m = first_items(db, types, table, impl_id, declaration, concrete_trait, item);
                let items = items_of(item);
                assert(m.diagnostics + invalid_items(module_file_id, items, 0) =~= m.diagnostics);
                lemma_items_diagnostics(module_file_id, m, items, 0, m.diagnostics);
            },
        },
        _ => {},
    }
}

/// The definition of an impl only adds to the table of functions.
pub proof fn a_definition_extends_the_table(
    db: &SemanticDb,
    types: Seq<TypeModel>,
    table: Seq<ImplFunctionLongId>,
    impl_id: ImplId,
)
    ensures
        begins(table, definition_of(db, types, table, impl_id).0),
{
    let module_file_id = db.impls@[impl_id.0 as int];
    match (declaration_of(db, impl_id, true), impl_ast_of(db, impl_id)) {
        (Some(declaration), Some(item)) => match declaration.concrete_trait {
            None => {},
            Some(concrete_trait) => {
                let m = first_items(db, types, table, impl_id, declaration, concrete_trait, item);
                lemma_items_extend(module_file_id, m, items_of(item), 0);
            },
        },
        _ => {},
    }
}

/// The definition of an impl stays the same: whatever was interned after it, it comes out again and
/// adds nothing to the table of functions.
pub proof fn a_definition_is_stable(
    db: &SemanticDb,
    types: Seq<TypeModel>,
    table: Seq<ImplFunctionLongId>,
    impl_id: ImplId,
    later: Seq<ImplFunctionLongId>,
)
    requires
        begins(definition_of(db, types, table, impl_id).0, later),
    ensures
        definition_of(db, types, later, impl_id) == (
            later,
            definition_of(db, types, table, impl_id).1,
        ),
{
    let module_file_id = db.impls@[impl_id.0 as int];
    match (declaration_of(db, impl_id, true), impl_ast_of(db, impl_id)) {
        (Some(declaration), Some(item)) => match declaration.concrete_trait {
            None => {},
            Some(concrete_trait) => {
                let m = first_items(db, types, table, impl_id, declaration, concrete_trait, item);
                lemma_items_again(module_file_id, m, items_of(item), 0, later);
            },
        },
        _ => {},
    }
}

/// The identifiers of the functions of an impl are different, and each leads back to the place of
/// its function, which is one of the items of the impl.
pub proof fn functions_lead_back(
    db: &SemanticDb,
    types: Seq<TypeModel>,
    table: Seq<ImplFunctionLongId>,
    impl_id: ImplId,
)
    requires
        definition_of(db, types, table, impl_id).0.len() <= usize::MAX,
    ensures
        definition_of(db, types, table, impl_id).1 matches Some(data) ==> lead_back(
            db.impls@[impl_id.0 as int],
            definition_of(db, types, table, impl_id).0,
            data.functions,
            items_of(impl_ast_of(db, impl_id)->0),
        ) && unique_keys(data.functions),
{
    let module_file_id = db.impls@[impl_id.0 as int];
    match (declaration_of(db, impl_id, true), impl_ast_of(db, impl_id)) {
        (Some(declaration), Some(item)) => match declaration.concrete_trait {
            None => {},
            Some(concrete_trait) => {
                let m = first_items(db, types, table, impl_id, declaration, concrete_trait, item);
                lemma_items_lead_back(module_file_id, m, items_of(item), 0);
            },
        },
        _ => {},
    }
}

/// An helper function to report diagnostics in priv_impl_definition_data.
fn report_invalid_in_impl(
    diagnostics: &mut SemanticDiagnostics,
    kw_ptr: SyntaxStablePtrId,
    item_kw: ItemKeyword,
)
    ensures
        final(diagnostics)@ == old(diagnostics)@.push(
            (SemanticDiagnostic {
                module_file_id: old(diagnostics).module_file_id,
                stable_ptr: kw_ptr,
                kind: SemanticDiagnosticKind::InvalidImplItem { item_kw },
            }),
        ),
        final(diagnostics).module_file_id == old(diagnostics).module_file_id,
{
    diagnostics.report_by_ptr(kw_ptr, SemanticDiagnosticKind::InvalidImplItem { item_kw });
}

/// What the definition of the impl means.
pub fn priv_impl_definition_data<'a>(
    db: &'a SemanticDb,
    interners: &mut Interners,
    impl_id: ImplId,
) -> (r: Maybe<ImplDefinitionData<'a>>)
    requires
        impl_ok(db, old(interners).types@, impl_id),
    ensures
        definition_of(db, old(interners).types@, old(interners).impl_functions@, impl_id) == (
            final(interners).impl_functions@,
            definition_result(r),
        ),
        final(interners).types == old(interners).types,
        final(interners).concrete_impls == old(interners).concrete_impls,
{
    let module_file_id = db.impls[impl_id.0];
    let mut diagnostics = SemanticDiagnostics::new(module_file_id);
    let declaration_data = match priv_impl_declaration_data(db, impl_id) {
        Ok(declaration_data) => declaration_data,
        Err(diag_added) => {
            return Err(diag_added);
        },
    };
    let ghost declaration = declaration_data@;
    let concrete_trait = match declaration_data.concrete_trait {
        Ok(concrete_trait) => concrete_trait,
        Err(diag_added) => {
            return Err(diag_added);
        },
    };
    let module_impls = match db.module_impls(module_file_id.0) {
        Ok(module_impls) => module_impls,
        Err(diag_added) => {
            return Err(diag_added);
        },
    };
    let impl_ast = match to_maybe(find_impl(module_impls, impl_id)) {
        Ok(impl_ast) => impl_ast,
        Err(diag_added) => {
            return Err(diag_added);
        },
    };
    let extra_modules = Vec::new();
    assert(extra_modules@ =~= Seq::empty());
    let lookup_context = ImplLookupContext {
        module_id: module_file_id.0,
        extra_modules,
        generic_params: declaration_data.generic_params,
    };
    assert(lookup_context@ =~= context_of(db, impl_id, declaration.generic_params));
    // Ignore the result.
    let _ = check_special_impls(
        db,
        &interners.types,
        &mut diagnostics,
        &lookup_context,
        concrete_trait,
        impl_ast.stable_ptr,
    );
    let ghost m0 = ItemsModel {
        table: interners.impl_functions@,
        diagnostics: diagnostics@,
        functions: Seq::<(ImplFunctionId, &'a ItemFreeFunction)>::empty(),
    };
    let mut function_asts: OrderedMap<ImplFunctionId, &'a ItemFreeFunction> = OrderedMap::new();
    if let Some(items) = &impl_ast.body {
        let mut i: usize = 0;
        while i < items.len()
            invariant
                i <= items@.len(),
                diagnostics.module_file_id == module_file_id,
                interners.types == old(interners).types,
                interners.concrete_impls == old(interners).concrete_impls,
                with_items(module_file_id, m0, items@, 0) == with_items(
                    module_file_id,
                    ItemsModel {
                        table: interners.impl_functions@,
                        diagnostics: diagnostics@,
                        functions: function_asts@,
                    },
                    items@,
                    i as int,
                ),
            decreases items@.len() - i,
        {
            match &items[i] {
                Item::Constant(const_kw) => report_invalid_in_impl(
                    &mut diagnostics,
                    *const_kw,
                    ItemKeyword::Const,
                ),
                Item::Module(module_kw) => report_invalid_in_impl(
                    &mut diagnostics,
                    *module_kw,
                    ItemKeyword::Mod,
                ),
                Item::Use(use_kw) => report_invalid_in_impl(
                    &mut diagnostics,
                    *use_kw,
                    ItemKeyword::Use,
                ),
                Item::ExternFunction(kw) => report_invalid_in_impl(
                    &mut diagnostics,
                    *kw,
                    ItemKeyword::ExternFn,
                ),
                Item::ExternType(kw) => report_invalid_in_impl(
                    &mut diagnostics,
                    *kw,
                    ItemKeyword::ExternType,
                ),
                Item::Trait(trait_kw) => report_invalid_in_impl(
                    &mut diagnostics,
                    *trait_kw,
                    ItemKeyword::Trait,
                ),
                Item::Impl(impl_kw) => report_invalid_in_impl(
                    &mut diagnostics,
                    *impl_kw,
                    ItemKeyword::Impl,
                ),
                Item::Struct(struct_kw) => report_invalid_in_impl(
                    &mut diagnostics,
                    *struct_kw,
                    ItemKeyword::Struct,
                ),
                Item::Enum(enum_kw) => report_invalid_in_impl(
                    &mut diagnostics,
                    *enum_kw,
                    ItemKeyword::Enum,
                ),
                Item::TypeAlias(type_kw) => report_invalid_in_impl(
                    &mut diagnostics,
                    *type_kw,
                    ItemKeyword::Type,
                ),
                Item::FreeFunction(func) => {
                    let impl_function_id = ImplFunctionId(
                        interners.impl_functions.intern(
                            ImplFunctionLongId(module_file_id, func.stable_ptr),
                        ),
                    );
                    function_asts.put(impl_function_id, func);
                },
            }
            i += 1;
        }
    }
    Ok(ImplDefinitionData { diagnostics: diagnostics.build(), function_asts })
}

/// The functions of the impl, in order.
pub fn impl_functions(db: &SemanticDb, interners: &mut Interners, impl_id: ImplId) -> (r: Maybe<
    Vec<ImplFunctionId>,
>)
    requires
        impl_ok(db, old(interners).types@, impl_id),
    ensures
        ({
            let (table, definition) = definition_of(
                db,
                old(interners).types@,
                old(interners).impl_functions@,
                impl_id,
            );
            &&& final(interners).impl_functions@ == table
            &&& match definition {
                Some(data) => r is Ok && r->Ok_0@ == keys(data.functions),
                None => r is Err,
            }
        }),
        final(interners).types == old(interners).types,
        final(interners).concrete_impls == old(interners).concrete_impls,
{
    let data = match priv_impl_definition_data(db, interners, impl_id) {
        Ok(data) => data,
        Err(diag_added) => {
            return Err(diag_added);
        },
    };
    let entries = &data.function_asts.entries;
    let mut r: Vec<ImplFunctionId> = Vec::new();
    let mut i: usize = 0;
    while i < entries.len()
        invariant
            i <= entries@.len(),
            r@.len() == i,
            forall|j: int| 0 <= j < i ==> (#[trigger] r@[j]) == entries@[j].0,
        decreases entries@.len() - i,
    {
        r.push(entries[i].0);
        i += 1;
    }
    assert(r@ =~= keys(data@.functions));
    Ok(r)
}

/// Whether the check of the inner types passes.
fn check_inner_types(
    db: &SemanticDb,
    lookup_context: &ImplLookupContext,
    tys: &Vec<TypeId>,
    copy: bool,
) -> (r: bool)
    ensures
        r == (forall|i: int|
            0 <= i < tys@.len() ==> allows(db, lookup_context@, #[trigger] tys@[i], copy)),
{
    let mut i: usize = 0;
    while i < tys.len()
        invariant
            i <= tys@.len(),
            forall|j: int| 0 <= j < i ==> allows(db, lookup_context@, #[trigger] tys@[j], copy),
        decreases tys@.len() - i,
    {
        if let Ok(info) = find_type_info(&db.type_infos, lookup_context, tys[i]) {
            let allowed = if copy {
                info.duplicatable
            } else {
                info.droppable
            };
            if !allowed {
                assert(!allows(db, lookup_context@, tys@[i as int], copy));
                return false;
            }
        }
        i += 1;
    }
    true
}

/// Handle special cases such as Copy and Drop checking.
fn check_special_impls(
    db: &SemanticDb,
    types: &TypeInterner,
    diagnostics: &mut SemanticDiagnostics,
    lookup_context: &ImplLookupContext,
    concrete_trait: ConcreteTraitId,
    stable_ptr: SyntaxStablePtrId,
) -> (r: Maybe<()>)
    requires
        trait_ok(db, types@, concrete_trait),
    ensures
        final(diagnostics)@ == old(diagnostics)@ + special_diagnostics(
            old(diagnostics).module_file_id,
            stable_ptr,
            special_check(db, types@, lookup_context@, concrete_trait),
        ),
        final(diagnostics).module_file_id == old(diagnostics).module_file_id,
        r is Ok <==> special_check(db, types@, lookup_context@, concrete_trait) is Passed,
{
    let long_id = &db.concrete_traits[concrete_trait.0];
    if long_id.trait_id == db.copy_trait {
        let ty = type_argument(&long_id.generic_args);
        let tys = match get_inner_types(db, types, ty) {
            Ok(tys) => tys,
            Err(diag_added) => {
                assert(diagnostics@ + Seq::<SemanticDiagnostic>::empty() =~= diagnostics@);
                return Err(diag_added);
            },
        };
        if !check_inner_types(db, lookup_context, &tys, true) {
            return Err(
                diagnostics.report_by_ptr(stable_ptr, SemanticDiagnosticKind::InvalidCopyTraitImpl),
            );
        }
    }
    if long_id.trait_id == db.drop_trait {
        let ty = type_argument(&long_id.generic_args);
        let tys = match get_inner_types(db, types, ty) {
            Ok(tys) => tys,
            Err(diag_added) => {
                assert(diagnostics@ + Seq::<SemanticDiagnostic>::empty() =~= diagnostics@);
                return Err(diag_added);
            },
        };
        if !check_inner_types(db, lookup_context, &tys, false) {
            return Err(
                diagnostics.report_by_ptr(stable_ptr, SemanticDiagnosticKind::InvalidDropTraitImpl),
            );
        }
    }
    assert(diagnostics@ + Seq::<SemanticDiagnostic>::empty() =~= diagnostics@);
    Ok(())
}

/// The first generic argument, which is a type.
fn type_argument(generic_args: &Vec<GenericArgumentId>) -> (r: TypeId)
    requires
        generic_args@.len() > 0,
        generic_args@[0] is Type,
    ensures
        r == generic_args@[0]->Type_0,
{
    match generic_args[0] {
        GenericArgumentId::Type(ty) => ty,
        GenericArgumentId::Literal(_) => unreached(),
    }
}

/// Retrieves all the inner types (members of a struct / tuple or variants of an enum).
/// These are the types that are required to implement some trait,
/// in order for the type itself to be able to implement this trait.
fn get_inner_types(db: &SemanticDb, types: &TypeInterner, ty: TypeId) -> (r: Maybe<Vec<TypeId>>)
    requires
        ty.0 < types@.len(),
    ensures
        match inner_types_of(db, types@, ty) {
            Some(tys) => r is Ok && r->Ok_0@ == tys,
            None => r is Err,
        },
{
    match types.lookup(ty.0) {
        Some(TypeLongId::Concrete(concrete_type_id)) => {
            // Look for Copy and Drop trait in the defining module.
            match concrete_type_id {
                ConcreteTypeId::Struct(concrete_struct_id) => match get_list(
                    &db.concrete_structs,
                    concrete_struct_id.0,
                ) {
                    Ok(members) => Ok(member_types(&members)),
                    Err(diag_added) => Err(diag_added),
                },
                ConcreteTypeId::Enum(concrete_enum_id) => {
                    if concrete_enum_id.0 >= db.concrete_enums.len() {
                        return Err(skip_diagnostic());
                    }
                    match &db.concrete_enums[concrete_enum_id.0].variants {
                        Ok(variants) => Ok(variant_types(variants)),
                        Err(diag_added) => Err(*diag_added),
                    }
                },
                ConcreteTypeId::Extern(_) => {
                    let none: Vec<TypeId> = Vec::new();
                    assert(none@ =~= Seq::empty());
                    Ok(none)
                },
            }
        },
        Some(TypeLongId::Tuple(tys)) => Ok(copy_vec(tys)),
        Some(TypeLongId::GenericParameter(_)) => Err(skip_diagnostic()),
        Some(TypeLongId::Missing(diag_added)) => Err(*diag_added),
        None => unreached(),
    }
}

// === Lookup ===

/// The impls that were found, and the table of impls after that.
#[verifier::ext_equal]
pub struct FoundModel {
    pub table: Seq<ConcreteImplModel>,
    pub found: Seq<ConcreteImplId>,
}

/// Whether the impl implements the concrete trait and has no generic parameters.
pub open spec fn is_impl_of(
    db: &SemanticDb,
    impl_id: ImplId,
    concrete_trait_id: ConcreteTraitId,
) -> bool {
    match declaration_of(db, impl_id, true) {
        Some(data) => data.generic_params.len() == 0 && data.concrete_trait == Some(
            concrete_trait_id,
        ),
        None => false,
    }
}

/// The impl without generic arguments.
pub open spec fn plain_impl(impl_id: ImplId) -> ConcreteImplModel {
    ConcreteImplModel { impl_id, generic_args: Seq::empty() }
}

/// The impls that were found, with those from the place `i` on.
pub open spec fn find_from(
    db: &SemanticDb,
    impls: Seq<(ImplId, ItemImpl)>,
    concrete_trait_id: ConcreteTraitId,
    i: int,
    f: FoundModel,
) -> FoundModel
    decreases impls.len() - i,
{
    if i < 0 || i >= impls.len() {
        f
    } else if is_impl_of(db, impls[i].0, concrete_trait_id) {
        find_from(
            db,
            impls,
            concrete_trait_id,
            i + 1,
            FoundModel {
                table: interned(f.table, plain_impl(impls[i].0)),
                found: f.found.push(
                    ConcreteImplId(short_id(f.table, plain_impl(impls[i].0)) as usize),
                ),
            },
        )
    } else {
        find_from(db, impls, concrete_trait_id, i + 1, f)
    }
}

/// The impls of the trait in the module, where the impls of the module are known.
pub open spec fn module_found(
    db: &SemanticDb,
    module_id: ModuleId,
    concrete_trait_id: ConcreteTraitId,
    table: Seq<ConcreteImplModel>,
) -> Option<FoundModel> {
    match db.module_impls_of(module_id) {
        Ok(impls) => Some(
            find_from(
                db,
                impls,
                concrete_trait_id,
                0,
                FoundModel { table, found: Seq::empty() },
            ),
        ),
        Err(_) => None,
    }
}

/// Whether every impl of the module is known, and the module has it once.
pub open spec fn module_ok(db: &SemanticDb, module_id: ModuleId) -> bool {
    match db.module_impls_of(module_id) {
        Ok(impls) => {
            &&& forall|i: int| 0 <= i < impls.len() ==> (#[trigger] impls[i]).0.0 < db.impls@.len()
            &&& unique_keys(impls)
        },
        Err(_) => true,
    }
}

/// Whether every impl of every module is known, and its module has it once.
pub open spec fn modules_ok(db: &SemanticDb) -> bool {
    forall|module_id: ModuleId| #[trigger] module_ok(db, module_id)
}

/// The impls of the concrete trait in the module.
pub fn find_impls_at_module(
    db: &SemanticDb,
    interners: &mut Interners,
    module_id: ModuleId,
    concrete_trait_id: ConcreteTraitId,
) -> (r: Maybe<Vec<ConcreteImplId>>)
    requires
        module_ok(db, module_id),
    ensures
        match module_found(
            db,
            module_id,
            concrete_trait_id,
            old(interners).concrete_impls@,
        ) {
            Some(f) => r is Ok && r->Ok_0@ == f.found && final(interners).concrete_impls@
                == f.table,
            None => r is Err && final(interners).concrete_impls@ == old(
                interners,
            ).concrete_impls@,
        },
        r is Ok ==> r->Ok_0@.no_duplicates(),
        final(interners).types == old(interners).types,
        final(interners).impl_functions == old(interners).impl_functions,
{
    let mut res: Vec<ConcreteImplId> = Vec::new();
    let impls = match db.module_impls(module_id) {
        Ok(impls) => impls,
        Err(diag_added) => {
            return Err(diag_added);
        },
    };
    let mut i: usize = 0;
    assert(res@ =~= Seq::empty());
    while i < impls.len()
        invariant
            i <= impls@.len(),
            forall|j: int| 0 <= j < impls@.len() ==> (#[trigger] impls@[j]).0.0 < db.impls@.len(),
            interners.types == old(interners).types,
            interners.impl_functions == old(interners).impl_functions,
            find_from(
                db,
                impls@,
                concrete_trait_id,
                0,
                FoundModel { table: old(interners).concrete_impls@, found: Seq::empty() },
            ) == find_from(
                db,
                impls@,
                concrete_trait_id,
                i as int,
                FoundModel { table: interners.concrete_impls@, found: res@ },
            ),
        decreases impls@.len() - i,
    {
        let impl_id = impls[i].0;
        if let Ok(imp_data) = priv_impl_declaration_data(db, impl_id) {
            if imp_data.generic_params.len() == 0 {
                if let Ok(concrete_trait) = imp_data.concrete_trait {
                    if concrete_trait == concrete_trait_id {
                        let generic_args = Vec::new();
                        assert(generic_args@ =~= Seq::empty());
                        let concrete_impl_id = ConcreteImplId(
                            interners.concrete_impls.intern(
                                ConcreteImplLongId { impl_id, generic_args },
                            ),
                        );
                        res.push(concrete_impl_id);
                    }
                }
            }
        }
        i += 1;
    }
    proof {
        assert(interners.concrete_impls@.len() == interners.concrete_impls.items.len());
        a_module_gives_its_impls_of_the_trait(
            db,
            module_id,
            concrete_trait_id,
            old(interners).concrete_impls@,
        );
    }
    Ok(res)
}

/// The impls that were found, with those of the modules from the place `i` on. Where the impls of a
/// module are not known, the search stops if it is strict.
pub open spec fn find_in_modules(
    db: &SemanticDb,
    modules: Seq<ModuleId>,
    concrete_trait_id: ConcreteTraitId,
    strict: bool,
    i: int,
    f: FoundModel,
) -> (FoundModel, bool)
    decreases modules.len() - i,
{
    if i < 0 || i >= modules.len() {
        (f, true)
    } else {
        match module_found(db, modules[i], concrete_trait_id, f.table) {
            Some(g) => find_in_modules(
                db,
                modules,
                concrete_trait_id,
                strict,
                i + 1,
                FoundModel { table: g.table, found: f.found + g.found },
            ),
            None => if strict {
                (f, false)
            } else {
                find_in_modules(db, modules, concrete_trait_id, strict, i + 1, f)
            },
        }
    }
}

/// The modules among the first `n` `use` items.
pub open spec fn used_modules(db: &SemanticDb, uses: Seq<UseId>, n: int) -> Seq<ModuleId>
    decreases n,
{
    if n <= 0 || n > uses.len() {
        Seq::empty()
    } else {
        match db.use_item_of(uses[n - 1]) {
            Ok(ResolvedGenericItem::Module(module_id)) => used_modules(db, uses, n - 1).push(
                module_id,
            ),
            _ => used_modules(db, uses, n - 1),
        }
    }
}

/// The impls of the trait in the lookup context, where they are known, and the table of impls after
/// the search: those of its module, of the extra modules, of the modules inside its module, and of
/// the modules that its module uses.
pub open spec fn context_found(
    db: &SemanticDb,
    lookup_context: LookupModel,
    concrete_trait_id: ConcreteTraitId,
    table: Seq<ConcreteImplModel>,
) -> (Seq<ConcreteImplModel>, Option<Seq<ConcreteImplId>>) {
    let module_id = lookup_context.module_id;
    match module_found(db, module_id, concrete_trait_id, table) {
        None => (table, None),
        Some(f0) => {
            let (f1, _) = find_in_modules(
                db,
                lookup_context.extra_modules,
                concrete_trait_id,
                false,
                0,
                f0,
            );
            match db.submodules_of(module_id) {
                Err(_) => (f1.table, None),
                Ok(submodules) => {
                    let (f2, ok2) = find_in_modules(
                        db,
                        submodules.map_values(|id: SubmoduleId| ModuleId::Submodule(id)),
                        concrete_trait_id,
                        true,
                        0,
                        f1,
                    );
                    match db.uses_of(module_id) {
                        _ if !ok2 => (f2.table, None),
                        Err(_) => (f2.table, None),
                        Ok(uses) => {
                            let (f3, ok3) = find_in_modules(
                                db,
                                used_modules(db, uses, uses.len() as int),
                                concrete_trait_id,
                                true,
                                0,
                                f2,
                            );
                            if ok3 {
                                (f3.table, Some(f3.found))
                            } else {
                                (f3.table, None)
                            }
                        },
                    }
                },
            }
        },
    }
}

/// Adds the impls of the concrete trait in the modules. Gives whether the search went to its end.
fn extend_with_modules(
    db: &SemanticDb,
    interners: &mut Interners,
    modules: &Vec<ModuleId>,
    concrete_trait_id: ConcreteTraitId,
    strict: bool,
    res: &mut Vec<ConcreteImplId>,
) -> (r: Maybe<()>)
    requires
        modules_ok(db),
    ensures
        find_in_modules(
            db,
            modules@,
            concrete_trait_id,
            strict,
            0,
            FoundModel { table: old(interners).concrete_impls@, found: old(res)@ },
        ) == (
            FoundModel { table: final(interners).concrete_impls@, found: final(res)@ },
            r is Ok,
        ),
        !strict ==> r is Ok,
        final(interners).types == old(interners).types,
        final(interners).impl_functions == old(interners).impl_functions,
{
    let ghost f0 = FoundModel { table: interners.concrete_impls@, found: res@ };
    let mut i: usize = 0;
    while i < modules.len()
        invariant
            i <= modules@.len(),
            modules_ok(db),
            interners.types == old(interners).types,
            interners.impl_functions == old(interners).impl_functions,
            f0 == (FoundModel { table: old(interners).concrete_impls@, found: old(res)@ }),
            find_in_modules(db, modules@, concrete_trait_id, strict, 0, f0) == find_in_modules(
                db,
                modules@,
                concrete_trait_id,
                strict,
                i as int,
                FoundModel { table: interners.concrete_impls@, found: res@ },
            ),
        decreases modules@.len() - i,
    {
        assert(module_ok(db, modules@[i as int]));
        match find_impls_at_module(db, interners, modules[i], concrete_trait_id) {
            Ok(imps) => {
                extend_copies(res, &imps);
            },
            Err(diag_added) => {
                if strict {
                    return Err(diag_added);
                }
            },
        }
        i += 1;
    }
    Ok(())
}

/// Finds all the implementations for a concrete trait, in a specific lookup context.
pub fn find_impls_at_context(
    db: &SemanticDb,
    interners: &mut Interners,
    lookup_context: &ImplLookupContext,
    concrete_trait_id: ConcreteTraitId,
) -> (r: Maybe<Vec<ConcreteImplId>>)
    requires
        modules_ok(db),
    ensures
        ({
            let (table, found) = context_found(
                db,
                lookup_context@,
                concrete_trait_id,
                old(interners).concrete_impls@,
            );
            &&& final(interners).concrete_impls@ == table
            &&& match found {
                Some(ids) => r is Ok && r->Ok_0@ == ids,
                None => r is Err,
            }
        }),
        final(interners).types == old(interners).types,
        final(interners).impl_functions == old(interners).impl_functions,
{
    assert(module_ok(db, lookup_context.module_id));
    let mut res = match find_impls_at_module(
        db,
        interners,
        lookup_context.module_id,
        concrete_trait_id,
    ) {
        Ok(res) => res,
        Err(diag_added) => {
            return Err(diag_added);
        },
    };
    let _ = extend_with_modules(
        db,
        interners,
        &lookup_context.extra_modules,
        concrete_trait_id,
        false,
        &mut res,
    );
    let submodules = match db.module_submodules_ids(lookup_context.module_id) {
        Ok(submodules) => submodules,
        Err(diag_added) => {
            return Err(diag_added);
        },
    };
    let mut inner: Vec<ModuleId> = Vec::new();
    let mut i: usize = 0;
    while i < submodules.len()
        invariant
            i <= submodules@.len(),
            inner@.len() == i,
            forall|j: int|
                0 <= j < i ==> (#[trigger] inner@[j]) == ModuleId::Submodule(submodules@[j]),
        decreases submodules@.len() - i,
    {
        inner.push(ModuleId::Submodule(submodules[i]));
        i += 1;
    }
    assert(inner@ =~= submodules@.map_values(|id: SubmoduleId| ModuleId::Submodule(id)));
    if let Err(diag_added) = extend_with_modules(
        db,
        interners,
        &inner,
        concrete_trait_id,
        true,
        &mut res,
    ) {
        return Err(diag_added);
    }
    let uses = match db.module_uses_ids(lookup_context.module_id) {
        Ok(uses) => uses,
        Err(diag_added) => {
            return Err(diag_added);
        },
    };
    let mut used: Vec<ModuleId> = Vec::new();
    let mut k: usize = 0;
    assert(used@ =~= Seq::empty());
    while k < uses.len()
        invariant
            k <= uses@.len(),
            used@ == used_modules(db, uses@, k as int),
        decreases uses@.len() - k,
    {
        if let Ok(ResolvedGenericItem::Module(module_id)) = db.use_resolved_item(uses[k]) {
            used.push(module_id);
        }
        k += 1;
    }
    if let Err(diag_added) = extend_with_modules(
        db,
        interners,
        &used,
        concrete_trait_id,
        true,
        &mut res,
    ) {
        return Err(diag_added);
    }
    Ok(res)
}

// === What the lookup finds ===

/// The impls among the first `n` that implement the concrete trait and have no generic parameters.
pub open spec fn impls_of_trait(
    db: &SemanticDb,
    impls: Seq<(ImplId, ItemImpl)>,
    concrete_trait_id: ConcreteTraitId,
    n: int,
) -> Seq<ImplId>
    decreases n,
{
    if n <= 0 || n > impls.len() {
        Seq::empty()
    } else if is_impl_of(db, impls[n - 1].0, concrete_trait_id) {
        impls_of_trait(db, impls, concrete_trait_id, n - 1).push(impls[n - 1].0)
    } else {
        impls_of_trait(db, impls, concrete_trait_id, n - 1)
    }
}

/// Whether the identifiers that were found lead back to the impls, without generic arguments.
pub open spec fn lead_back_to(f: FoundModel, ids: Seq<ImplId>) -> bool {
    &&& f.found.len() == ids.len()
    &&& forall|k: int|
        0 <= k < ids.len() ==> (#[trigger] f.found[k]).0 < f.table.len()
            && f.table[f.found[k].0 as int] == plain_impl(ids[k])
}

/// A search only adds to what it was started with.
proof fn lemma_find_extends(
    db: &SemanticDb,
    impls: Seq<(ImplId, ItemImpl)>,
    concrete_trait_id: ConcreteTraitId,
    i: int,
    f: FoundModel,
)
    ensures
        begins(f.table, find_from(db, impls, concrete_trait_id, i, f).table),
        begins(f.found, find_from(db, impls, concrete_trait_id, i, f).found),
    decreases impls.len() - i,
{
    if 0 <= i < impls.len() {
        if is_impl_of(db, impls[i].0, concrete_trait_id) {
            let long_id = plain_impl(impls[i].0);
            let g = FoundModel {
                table: interned(f.table, long_id),
                found: f.found.push(ConcreteImplId(short_id(f.table, long_id) as usize)),
            };
            interning_is_stable(f.table, long_id);
            assert forall|j: int| 0 <= j < f.table.len() implies #[trigger] g.table[j]
                == f.table[j] by {
                assert(g.table.take(f.table.len() as int)[j] == f.table[j]);
            }
            lemma_find_extends(db, impls, concrete_trait_id, i + 1, g);
        } else {
            lemma_find_extends(db, impls, concrete_trait_id, i + 1, f);
        }
    }
}

proof fn lemma_find_leads_back(
    db: &SemanticDb,
    impls: Seq<(ImplId, ItemImpl)>,
    concrete_trait_id: ConcreteTraitId,
    i: int,
    f: FoundModel,
)
    requires
        0 <= i <= impls.len(),
        lead_back_to(f, impls_of_trait(db, impls, concrete_trait_id, i)),
        find_from(db, impls, concrete_trait_id, i, f).table.len() <= usize::MAX,
    ensures
        lead_back_to(
            find_from(db, impls, concrete_trait_id, i, f),
            impls_of_trait(db, impls, concrete_trait_id, impls.len() as int),
        ),
    decreases impls.len() - i,
{
    if i < impls.len() {
        let ids = impls_of_trait(db, impls, concrete_trait_id, i);
        if is_impl_of(db, impls[i].0, concrete_trait_id) {
            let long_id = plain_impl(impls[i].0);
            let g = FoundModel {
                table: interned(f.table, long_id),
                found: f.found.push(ConcreteImplId(short_id(f.table, long_id) as usize)),
            };
            interning_is_stable(f.table, long_id);
            lemma_find_extends(db, impls, concrete_trait_id, i + 1, g);
            let ids1 = ids.push(impls[i].0);
            assert forall|k: int| 0 <= k < ids1.len() implies (#[trigger] g.found[k]).0
                < g.table.len() && g.table[g.found[k].0 as int] == plain_impl(ids1[k]) by {
                if k < ids.len() {
                    assert(g.found[k] == f.found[k]);
                    let at = f.found[k].0 as int;
                    assert(g.table.take(f.table.len() as int)[at] == f.table[at]);
                }
            }
            lemma_find_leads_back(db, impls, concrete_trait_id, i + 1, g);
        } else {
            lemma_find_leads_back(db, impls, concrete_trait_id, i + 1, f);
        }
    }
}

proof fn lemma_module_leads_back(
    db: &SemanticDb,
    module_id: ModuleId,
    concrete_trait_id: ConcreteTraitId,
    table: Seq<ConcreteImplModel>,
)
    requires
        module_found(db, module_id, concrete_trait_id, table) matches Some(f) ==> f.table.len()
            <= usize::MAX,
    ensures
        match db.module_impls_of(module_id) {
            Ok(impls) => {
                &&& module_found(db, module_id, concrete_trait_id, table) matches Some(f)
                &&& lead_back_to(
                    f,
                    impls_of_trait(db, impls, concrete_trait_id, impls.len() as int),
                )
            },
            Err(_) => module_found(db, module_id, concrete_trait_id, table) is None,
        },
{
    if let Ok(impls) = db.module_impls_of(module_id) {
        let start = FoundModel { table, found: Seq::empty() };
        lemma_find_leads_back(db, impls, concrete_trait_id, 0, start);
    }
}

/// Whether an identifier that was found leads back to the impl, without generic arguments.
pub open spec fn is_found(f: FoundModel, impl_id: ImplId) -> bool {
    exists|k: int|
        0 <= k < f.found.len() && f.table[(#[trigger] f.found[k]).0 as int] == plain_impl(impl_id)
}

/// An impl is among those of the trait exactly when it is among the impls and implements it.
proof fn lemma_among_impls_of_trait(
    db: &SemanticDb,
    impls: Seq<(ImplId, ItemImpl)>,
    concrete_trait_id: ConcreteTraitId,
    n: int,
    impl_id: ImplId,
)
    requires
        0 <= n <= impls.len(),
    ensures
        impls_of_trait(db, impls, concrete_trait_id, n).contains(impl_id) <==> is_impl_of(
            db,
            impl_id,
            concrete_trait_id,
        ) && exists|i: int| 0 <= i < n && (#[trigger] impls[i]).0 == impl_id,
    decreases n,
{
    if 0 < n {
        lemma_among_impls_of_trait(db, impls, concrete_trait_id, n - 1, impl_id);
        let before = impls_of_trait(db, impls, concrete_trait_id, n - 1);
        let ids = impls_of_trait(db, impls, concrete_trait_id, n);
        if is_impl_of(db, impls[n - 1].0, concrete_trait_id) {
            assert(ids == before.push(impls[n - 1].0));
            assert(ids[ids.len() - 1] == impls[n - 1].0);
            if before.contains(impl_id) {
                let k = choose|k: int| 0 <= k < before.len() && before[k] == impl_id;
                assert(ids[k] == impl_id);
            }
            if ids.contains(impl_id) && impls[n - 1].0 != impl_id {
                let k = choose|k: int| 0 <= k < ids.len() && ids[k] == impl_id;
                assert(before[k] == impl_id);
            }
        }
    }
}

proof fn lemma_impls_of_trait_differ(
    db: &SemanticDb,
    impls: Seq<(ImplId, ItemImpl)>,
    concrete_trait_id: ConcreteTraitId,
    n: int,
)
    requires
        unique_keys(impls),
        0 <= n <= impls.len(),
    ensures
        impls_of_trait(db, impls, concrete_trait_id, n).no_duplicates(),
    decreases n,
{
    if 0 < n {
        lemma_impls_of_trait_differ(db, impls, concrete_trait_id, n - 1);
        lemma_among_impls_of_trait(db, impls, concrete_trait_id, n - 1, impls[n - 1].0);
    }
}

/// The search in a module succeeds exactly when its impls are known, and it finds exactly those
/// that implement the concrete trait and have no generic parameters, in their order. An impl whose
/// declaration is not known is passed over. Nothing is found twice.
pub proof fn a_module_gives_its_impls_of_the_trait(
    db: &SemanticDb,
    module_id: ModuleId,
    concrete_trait_id: ConcreteTraitId,
    table: Seq<ConcreteImplModel>,
)
    requires
        module_ok(db, module_id),
        module_found(db, module_id, concrete_trait_id, table) matches Some(f) ==> f.table.len()
            <= usize::MAX,
    ensures
        match db.module_impls_of(module_id) {
            Ok(impls) => {
                let ids = impls_of_trait(db, impls, concrete_trait_id, impls.len() as int);
                &&& module_found(db, module_id, concrete_trait_id, table) matches Some(f)
                &&& lead_back_to(f, ids)
                &&& forall|impl_id: ImplId| #[trigger]
                    is_found(f, impl_id) <==> has_key(impls, impl_id) && is_impl_of(
                        db,
                        impl_id,
                        concrete_trait_id,
                    )
                &&& ids.no_duplicates()
                &&& f.found.no_duplicates()
            },
            Err(_) => module_found(db, module_id, concrete_trait_id, table) is None,
        },
{
    match db.module_impls_of(module_id) {
        Ok(impls) => {
            lemma_module_leads_back(db, module_id, concrete_trait_id, table);
            let f = module_found(db, module_id, concrete_trait_id, table)->0;
            let ids = impls_of_trait(db, impls, concrete_trait_id, impls.len() as int);
            assert forall|impl_id: ImplId| #[trigger] is_found(f, impl_id) <==> has_key(
                impls,
                impl_id,
            ) && is_impl_of(db, impl_id, concrete_trait_id) by {
                lemma_among_impls_of_trait(
                    db,
                    impls,
                    concrete_trait_id,
                    impls.len() as int,
                    impl_id,
                );
                lemma_no_key(impls, impl_id);
                if ids.contains(impl_id) {
                    let k = choose|k: int| 0 <= k < ids.len() && ids[k] == impl_id;
                    assert(f.table[f.found[k].0 as int] == plain_impl(impl_id));
                }
                if is_found(f, impl_id) {
                    let k = choose|k: int|
                        0 <= k < f.found.len() && f.table[(#[trigger] f.found[k]).0 as int]
                            == plain_impl(impl_id);
                    assert(plain_impl(ids[k]).impl_id == impl_id);
                    assert(ids.contains(impl_id));
                }
            }
            lemma_impls_of_trait_differ(db, impls, concrete_trait_id, impls.len() as int);
            assert forall|j: int, k: int|
                0 <= j < f.found.len() && 0 <= k < f.found.len() && j != k implies f.found[j]
                != f.found[k] by {
                assert(plain_impl(ids[j]).impl_id != plain_impl(ids[k]).impl_id);
            }
        },
        Err(_) => {},
    }
}

/// Whether everything that was found implements the concrete trait and has no generic arguments.
pub open spec fn all_implement(
    db: &SemanticDb,
    concrete_trait_id: ConcreteTraitId,
    f: FoundModel,
) -> bool {
    forall|k: int|
        0 <= k < f.found.len() ==> {
            let at = (#[trigger] f.found[k]).0;
            &&& at < f.table.len()
            &&& f.table[at as int].generic_args.len() == 0
            &&& is_impl_of(db, f.table[at as int].impl_id, concrete_trait_id)
        }
}

proof fn lemma_impls_of_trait(
    db: &SemanticDb,
    impls: Seq<(ImplId, ItemImpl)>,
    concrete_trait_id: ConcreteTraitId,
    n: int,
)
    ensures
        forall|k: int|
            0 <= k < impls_of_trait(db, impls, concrete_trait_id, n).len() ==> is_impl_of(
                db,
                #[trigger] impls_of_trait(db, impls, concrete_trait_id, n)[k],
                concrete_trait_id,
            ),
    decreases n,
{
    if 0 < n <= impls.len() {
        lemma_impls_of_trait(db, impls, concrete_trait_id, n - 1);
        let before = impls_of_trait(db, impls, concrete_trait_id, n - 1);
        let ids = impls_of_trait(db, impls, concrete_trait_id, n);
        assert forall|k: int| 0 <= k < ids.len() implies is_impl_of(
            db,
            #[trigger] ids[k],
            concrete_trait_id,
        ) by {
            if k < before.len() {
                assert(ids[k] == before[k]);
            }
        }
    }
}

proof fn lemma_modules_all_implement(
    db: &SemanticDb,
    modules: Seq<ModuleId>,
    concrete_trait_id: ConcreteTraitId,
    strict: bool,
    i: int,
    f: FoundModel,
)
    requires
        0 <= i,
        find_in_modules(db, modules, concrete_trait_id, strict, i, f).0.table.len() <= usize::MAX,
        all_implement(db, concrete_trait_id, f),
    ensures
        all_implement(
            db,
            concrete_trait_id,
            find_in_modules(db, modules, concrete_trait_id, strict, i, f).0,
        ),
        begins(f.table, find_in_modules(db, modules, concrete_trait_id, strict, i, f).0.table),
        begins(f.found, find_in_modules(db, modules, concrete_trait_id, strict, i, f).0.found),
    decreases modules.len() - i,
{
    if i < modules.len() {
        match module_found(db, modules[i], concrete_trait_id, f.table) {
            Some(g) => {
                let h = FoundModel { table: g.table, found: f.found + g.found };
                lemma_modules_extend(db, modules, concrete_trait_id, strict, i + 1, h);
                let impls = db.module_impls_of(modules[i])->Ok_0;
                lemma_module_leads_back(
                    db,
                    modules[i],
                    concrete_trait_id,
                    f.table,
                );
                lemma_impls_of_trait(db, impls, concrete_trait_id, impls.len() as int);
                lemma_find_extends(
                    db,
                    impls,
                    concrete_trait_id,
                    0,
                    FoundModel { table: f.table, found: Seq::empty() },
                );
                assert forall|k: int| 0 <= k < h.found.len() implies ({
                    let at = (#[trigger] h.found[k]).0;
                    &&& at < h.table.len()
                    &&& h.table[at as int].generic_args.len() == 0
                    &&& is_impl_of(db, h.table[at as int].impl_id, concrete_trait_id)
                }) by {
                    if k < f.found.len() {
                        assert(h.found[k] == f.found[k]);
                        assert(h.table[f.found[k].0 as int] == f.table[f.found[k].0 as int]);
                    } else {
                        assert(h.found[k] == g.found[k - f.found.len()]);
                    }
                }
                lemma_modules_all_implement(db, modules, concrete_trait_id, strict, i + 1, h);
            },
            None => {
                if !strict {
                    lemma_modules_all_implement(db, modules, concrete_trait_id, strict, i + 1, f);
                }
            },
        }
    }
}

proof fn lemma_modules_extend(
    db: &SemanticDb,
    modules: Seq<ModuleId>,
    concrete_trait_id: ConcreteTraitId,
    strict: bool,
    i: int,
    f: FoundModel,
)
    ensures
        begins(f.table, find_in_modules(db, modules, concrete_trait_id, strict, i, f).0.table),
        begins(f.found, find_in_modules(db, modules, concrete_trait_id, strict, i, f).0.found),
    decreases modules.len() - i,
{
    if 0 <= i < modules.len() {
        match module_found(db, modules[i], concrete_trait_id, f.table) {
            Some(g) => {
                let h = FoundModel { table: g.table, found: f.found + g.found };
                lemma_find_extends(
                    db,
                    db.module_impls_of(modules[i])->Ok_0,
                    concrete_trait_id,
                    0,
                    FoundModel { table: f.table, found: Seq::empty() },
                );
                lemma_modules_extend(db, modules, concrete_trait_id, strict, i + 1, h);
            },
            None => {
                if !strict {
                    lemma_modules_extend(db, modules, concrete_trait_id, strict, i + 1, f);
                }
            },
        }
    }
}

/// The search in a lookup context finds only impls of the concrete trait that have no generic
/// parameters, and those of the module of the context come first.
pub proof fn a_context_gives_impls_of_the_trait(
    db: &SemanticDb,
    lookup_context: LookupModel,
    concrete_trait_id: ConcreteTraitId,
    table: Seq<ConcreteImplModel>,
)
    requires
        context_found(db, lookup_context, concrete_trait_id, table).0.len() <= usize::MAX,
    ensures
        ({
            let (after, found) = context_found(db, lookup_context, concrete_trait_id, table);
            let of_module = module_found(db, lookup_context.module_id, concrete_trait_id, table);
            found matches Some(ids) ==> {
                &&& all_implement(db, concrete_trait_id, FoundModel { table: after, found: ids })
                &&& of_module is Some
                &&& begins(of_module->0.found, ids)
                &&& begins(of_module->0.table, after)
            }
        }),
{
    let module_id = lookup_context.module_id;
    if context_found(db, lookup_context, concrete_trait_id, table).1 is Some {
        let f0 = module_found(db, module_id, concrete_trait_id, table)->0;
        let extra = lookup_context.extra_modules;
        let f1 = find_in_modules(db, extra, concrete_trait_id, false, 0, f0).0;
        let inner = db.submodules_of(module_id)->Ok_0.map_values(
            |id: SubmoduleId| ModuleId::Submodule(id),
        );
        let f2 = find_in_modules(db, inner, concrete_trait_id, true, 0, f1).0;
        let uses = db.uses_of(module_id)->Ok_0;
        let used = used_modules(db, uses, uses.len() as int);
        lemma_modules_extend(db, extra, concrete_trait_id, false, 0, f0);
        lemma_modules_extend(db, inner, concrete_trait_id, true, 0, f1);
        lemma_modules_extend(db, used, concrete_trait_id, true, 0, f2);
        let impls = db.module_impls_of(module_id)->Ok_0;
        lemma_module_leads_back(db, module_id, concrete_trait_id, table);
        lemma_impls_of_trait(db, impls, concrete_trait_id, impls.len() as int);
        assert(all_implement(db, concrete_trait_id, f0));
        lemma_modules_all_implement(db, extra, concrete_trait_id, false, 0, f0);
        lemma_modules_all_implement(db, inner, concrete_trait_id, true, 0, f1);
        lemma_modules_all_implement(db, used, concrete_trait_id, true, 0, f2);
    }
}

// === Which impls are found ===

/// What the search in a module finds.
proof fn lemma_module_finds(
    db: &SemanticDb,
    module_id: ModuleId,
    concrete_trait_id: ConcreteTraitId,
    table: Seq<ConcreteImplModel>,
    impl_id: ImplId,
)
    requires
        module_found(db, module_id, concrete_trait_id, table) matches Some(f) ==> f.table.len()
            <= usize::MAX,
    ensures
        match db.module_impls_of(module_id) {
            Ok(impls) => {
                &&& module_found(db, module_id, concrete_trait_id, table) matches Some(f)
                &&& is_found(f, impl_id) <==> has_key(impls, impl_id) && is_impl_of(
                    db,
                    impl_id,
                    concrete_trait_id,
                )
                &&& begins(table, f.table)
                &&& forall|k: int| 0 <= k < f.found.len() ==> (#[trigger] f.found[k]).0
                    < f.table.len()
            },
            Err(_) => module_found(db, module_id, concrete_trait_id, table) is None,
        },
{
    if let Ok(impls) = db.module_impls_of(module_id) {
        lemma_module_leads_back(db, module_id, concrete_trait_id, table);
        let f = module_found(db, module_id, concrete_trait_id, table)->0;
        let ids = impls_of_trait(db, impls, concrete_trait_id, impls.len() as int);
        lemma_find_extends(
            db,
            impls,
            concrete_trait_id,
            0,
            FoundModel { table, found: Seq::empty() },
        );
        lemma_among_impls_of_trait(db, impls, concrete_trait_id, impls.len() as int, impl_id);
        lemma_no_key(impls, impl_id);
        if ids.contains(impl_id) {
            let k = choose|k: int| 0 <= k < ids.len() && ids[k] == impl_id;
            assert(f.table[f.found[k].0 as int] == plain_impl(impl_id));
        }
        if is_found(f, impl_id) {
            let k = choose|k: int|
                0 <= k < f.found.len() && f.table[(#[trigger] f.found[k]).0 as int] == plain_impl(
                    impl_id,
                );
            assert(plain_impl(ids[k]).impl_id == impl_id);
            assert(ids.contains(impl_id));
        }
    }
}

/// Whether the identifiers that were found are in the table.
pub open spec fn in_table(f: FoundModel) -> bool {
    forall|k: int| 0 <= k < f.found.len() ==> (#[trigger] f.found[k]).0 < f.table.len()
}

/// Whether the impl is one of the module that implements the concrete trait and has no generic
/// parameters.
pub open spec fn module_has(
    db: &SemanticDb,
    module_id: ModuleId,
    impl_id: ImplId,
    concrete_trait_id: ConcreteTraitId,
) -> bool {
    db.module_impls_of(module_id) matches Ok(impls) && has_key(impls, impl_id) && is_impl_of(
        db,
        impl_id,
        concrete_trait_id,
    )
}

/// Whether one of the modules from the place `i` on has the impl.
pub open spec fn some_module_has(
    db: &SemanticDb,
    modules: Seq<ModuleId>,
    i: int,
    impl_id: ImplId,
    concrete_trait_id: ConcreteTraitId,
) -> bool {
    exists|k: int|
        i <= k < modules.len() && module_has(
            db,
            #[trigger] modules[k],
            impl_id,
            concrete_trait_id,
        )
}

/// Whether the impls of all modules from the place `i` on are known.
pub open spec fn all_known(db: &SemanticDb, modules: Seq<ModuleId>, i: int) -> bool {
    forall|k: int|
        i <= k < modules.len() ==> db.module_impls_of(#[trigger] modules[k]) is Ok
}

proof fn lemma_modules_find(
    db: &SemanticDb,
    modules: Seq<ModuleId>,
    concrete_trait_id: ConcreteTraitId,
    strict: bool,
    i: int,
    f: FoundModel,
    impl_id: ImplId,
)
    requires
        0 <= i <= modules.len(),
        in_table(f),
        find_in_modules(db, modules, concrete_trait_id, strict, i, f).0.table.len() <= usize::MAX,
    ensures
        ({
            let (g, ok) = find_in_modules(db, modules, concrete_trait_id, strict, i, f);
            &&& ok <==> !strict || all_known(db, modules, i)
            &&& in_table(g)
            &&& ok ==> (is_found(g, impl_id) <==> is_found(f, impl_id) || some_module_has(
                db,
                modules,
                i,
                impl_id,
                concrete_trait_id,
            ))
        }),
    decreases modules.len() - i,
{
    if i < modules.len() {
        let (last, ok) = find_in_modules(db, modules, concrete_trait_id, strict, i, f);
        match module_found(db, modules[i], concrete_trait_id, f.table) {
            Some(g) => {
                let h = FoundModel { table: g.table, found: f.found + g.found };
                lemma_modules_extend(db, modules, concrete_trait_id, strict, i + 1, h);
                lemma_module_finds(db, modules[i], concrete_trait_id, f.table, impl_id);
                assert forall|k: int| 0 <= k < h.found.len() implies (#[trigger] h.found[k]).0
                    < h.table.len() by {
                    if k >= f.found.len() {
                        assert(h.found[k] == g.found[k - f.found.len()]);
                    } else {
                        assert(h.found[k] == f.found[k]);
                    }
                }
                assert(is_found(h, impl_id) <==> is_found(f, impl_id) || is_found(g, impl_id)) by {
                    if is_found(f, impl_id) {
                        let k = choose|k: int|
                            0 <= k < f.found.len() && f.table[(#[trigger] f.found[k]).0 as int]
                                == plain_impl(impl_id);
                        assert(h.found[k] == f.found[k]);
                        assert(h.table[f.found[k].0 as int] == f.table[f.found[k].0 as int]);
                    }
                    if is_found(g, impl_id) {
                        let k = choose|k: int|
                            0 <= k < g.found.len() && g.table[(#[trigger] g.found[k]).0 as int]
                                == plain_impl(impl_id);
                        assert(h.found[f.found.len() + k] == g.found[k]);
                    }
                    if is_found(h, impl_id) {
                        let k = choose|k: int|
                            0 <= k < h.found.len() && h.table[(#[trigger] h.found[k]).0 as int]
                                == plain_impl(impl_id);
                        if k < f.found.len() {
                            assert(h.found[k] == f.found[k]);
                            assert(f.table[f.found[k].0 as int] == h.table[f.found[k].0 as int]);
                        } else {
                            assert(g.found[k - f.found.len()] == h.found[k]);
                        }
                    }
                }
                lemma_modules_find(db, modules, concrete_trait_id, strict, i + 1, h, impl_id);
                assert(db.module_impls_of(modules[i]) is Ok);
                if some_module_has(db, modules, i, impl_id, concrete_trait_id) {
                    let k = choose|k: int|
                        i <= k < modules.len() && module_has(
                            db,
                            #[trigger] modules[k],
                            impl_id,
                            concrete_trait_id,
                        );
                    assert(k == i || some_module_has(
                        db,
                        modules,
                        i + 1,
                        impl_id,
                        concrete_trait_id,
                    ));
                }
                if is_found(g, impl_id) {
                    assert(module_has(db, modules[i], impl_id, concrete_trait_id));
                }
            },
            None => {
                assert(db.module_impls_of(modules[i]) is Err);
                if !strict {
                    lemma_modules_find(db, modules, concrete_trait_id, strict, i + 1, f, impl_id);
                    if some_module_has(db, modules, i, impl_id, concrete_trait_id) {
                        let k = choose|k: int|
                            i <= k < modules.len() && module_has(
                                db,
                                #[trigger] modules[k],
                                impl_id,
                                concrete_trait_id,
                            );
                        assert(k != i);
                    }
                }
            },
        }
    }
}

proof fn lemma_used_modules(db: &SemanticDb, uses: Seq<UseId>, n: int, module_id: ModuleId)
    requires
        0 <= n <= uses.len(),
    ensures
        used_modules(db, uses, n).contains(module_id) <==> exists|k: int|
            0 <= k < n && db.use_item_of(#[trigger] uses[k]) == Ok::<_, DiagnosticAdded>(
                ResolvedGenericItem::Module(module_id),
            ),
    decreases n,
{
    if n > 0 {
        lemma_used_modules(db, uses, n - 1, module_id);
        let before = used_modules(db, uses, n - 1);
        let all = used_modules(db, uses, n);
        if let Ok(ResolvedGenericItem::Module(last)) = db.use_item_of(uses[n - 1]) {
            assert(all == before.push(last));
            assert(all[before.len() as int] == last);
            if before.contains(module_id) {
                let k = choose|k: int| 0 <= k < before.len() && before[k] == module_id;
                assert(all[k] == module_id);
            }
            if all.contains(module_id) && last != module_id {
                let k = choose|k: int| 0 <= k < all.len() && all[k] == module_id;
                assert(before[k] == module_id);
            }
        }
    }
}

/// Whether the module is inside the other one.
pub open spec fn is_inside(db: &SemanticDb, module_id: ModuleId, inner: ModuleId) -> bool {
    db.submodules_of(module_id) matches Ok(submodules) && exists|k: int|
        0 <= k < submodules.len() && inner == ModuleId::Submodule(#[trigger] submodules[k])
}

/// Whether a `use` item of the module stands for the other one.
pub open spec fn is_used(db: &SemanticDb, module_id: ModuleId, used: ModuleId) -> bool {
    db.uses_of(module_id) matches Ok(uses) && exists|k: int|
        0 <= k < uses.len() && db.use_item_of(#[trigger] uses[k]) == Ok::<_, DiagnosticAdded>(
            ResolvedGenericItem::Module(used),
        )
}

/// Whether the impls of the module are looked at in the context: it is the module of the context,
/// one of the extra modules, a module inside the module of the context, or one that the module of
/// the context uses.
pub open spec fn is_searched(db: &SemanticDb, context: LookupModel, module_id: ModuleId) -> bool {
    ||| module_id == context.module_id
    ||| context.extra_modules.contains(module_id)
    ||| is_inside(db, context.module_id, module_id)
    ||| is_used(db, context.module_id, module_id)
}

/// Whether everything that the search needs is known: the impls of the module of the context, the
/// modules inside it and its `use` items, and the impls of those modules. The extra modules need not
/// be known.
pub open spec fn can_be_searched(db: &SemanticDb, context: LookupModel) -> bool {
    &&& db.module_impls_of(context.module_id) is Ok
    &&& db.submodules_of(context.module_id) is Ok
    &&& db.uses_of(context.module_id) is Ok
    &&& forall|m: ModuleId| #[trigger]
        is_inside(db, context.module_id, m) ==> db.module_impls_of(m) is Ok
    &&& forall|m: ModuleId| #[trigger]
        is_used(db, context.module_id, m) ==> db.module_impls_of(m) is Ok
}

/// The search in a lookup context succeeds exactly when everything that it needs is known, and then
/// an impl is found exactly when one of the modules that are searched has it, and it implements the
/// concrete trait and has no generic parameters.
pub proof fn a_context_gives_every_impl_of_the_trait(
    db: &SemanticDb,
    context: LookupModel,
    concrete_trait_id: ConcreteTraitId,
    table: Seq<ConcreteImplModel>,
    impl_id: ImplId,
)
    requires
        context_found(db, context, concrete_trait_id, table).0.len() <= usize::MAX,
    ensures
        ({
            let (after, found) = context_found(db, context, concrete_trait_id, table);
            &&& found is Some <==> can_be_searched(db, context)
            &&& found matches Some(ids) ==> (is_found(
                FoundModel { table: after, found: ids },
                impl_id,
            ) <==> exists|m: ModuleId|
                is_searched(db, context, m) && #[trigger] module_has(
                    db,
                    m,
                    impl_id,
                    concrete_trait_id,
                ))
        }),
{
    let module_id = context.module_id;
    let t = concrete_trait_id;
    let extra = context.extra_modules;
    let inner = db.submodules_of(module_id)->Ok_0.map_values(
        |id: SubmoduleId| ModuleId::Submodule(id),
    );
    let uses = db.uses_of(module_id)->Ok_0;
    let used = used_modules(db, uses, uses.len() as int);
    if let Some(f0) = module_found(db, module_id, t, table) {
        let f1 = find_in_modules(db, extra, t, false, 0, f0).0;
        lemma_modules_extend(db, extra, t, false, 0, f0);
        let (f2, ok2) = find_in_modules(db, inner, t, true, 0, f1);
        lemma_modules_extend(db, inner, t, true, 0, f1);
        let (f3, ok3) = find_in_modules(db, used, t, true, 0, f2);
        lemma_modules_extend(db, used, t, true, 0, f2);
        lemma_module_finds(db, module_id, t, table, impl_id);
        lemma_modules_find(db, extra, t, false, 0, f0, impl_id);
        assert forall|m: ModuleId| #[trigger]
            is_used(db, module_id, m) && db.uses_of(module_id) is Ok implies used.contains(m) by {
            lemma_used_modules(db, uses, uses.len() as int, m);
        }
        if db.submodules_of(module_id) is Ok {
            let submodules = db.submodules_of(module_id)->Ok_0;
            lemma_modules_find(db, inner, t, true, 0, f1, impl_id);
            assert(all_known(db, inner, 0) <==> forall|m: ModuleId| #[trigger]
                is_inside(db, module_id, m) ==> db.module_impls_of(m) is Ok) by {
                if all_known(db, inner, 0) {
                    assert forall|m: ModuleId| #[trigger]
                        is_inside(db, module_id, m) implies db.module_impls_of(m) is Ok by {
                        let k = choose|k: int|
                            0 <= k < submodules.len() && m == ModuleId::Submodule(
                                #[trigger] submodules[k],
                            );
                        assert(inner[k] == m);
                    }
                }
                if forall|m: ModuleId| #[trigger]
                    is_inside(db, module_id, m) ==> db.module_impls_of(m) is Ok {
                    assert forall|k: int| 0 <= k < inner.len() implies db.module_impls_of(
                        #[trigger] inner[k],
                    ) is Ok by {
                        assert(inner[k] == ModuleId::Submodule(submodules[k]));
                        assert(is_inside(db, module_id, inner[k]));
                    }
                }
            }
            if ok2 && db.uses_of(module_id) is Ok {
                lemma_modules_find(db, used, t, true, 0, f2, impl_id);
                assert(all_known(db, used, 0) <==> forall|m: ModuleId| #[trigger]
                    is_used(db, module_id, m) ==> db.module_impls_of(m) is Ok) by {
                    if all_known(db, used, 0) {
                        assert forall|m: ModuleId| #[trigger]
                            is_used(db, module_id, m) implies db.module_impls_of(m) is Ok by {
                            assert(used.contains(m));
                            let k = choose|k: int| 0 <= k < used.len() && used[k] == m;
                            assert(db.module_impls_of(used[k]) is Ok);
                        }
                    }
                    if forall|m: ModuleId| #[trigger]
                        is_used(db, module_id, m) ==> db.module_impls_of(m) is Ok {
                        assert forall|k: int| 0 <= k < used.len() implies db.module_impls_of(
                            #[trigger] used[k],
                        ) is Ok by {
                            lemma_used_modules(db, uses, uses.len() as int, used[k]);
                            assert(used.contains(used[k]));
                            assert(is_used(db, module_id, used[k]));
                        }
                    }
                }
                lemma_searched(db, context, t, impl_id);
            }
        }
    }
}

/// Where an impl is found: in the module, or in one of the lists of modules.
proof fn lemma_searched(
    db: &SemanticDb,
    context: LookupModel,
    concrete_trait_id: ConcreteTraitId,
    impl_id: ImplId,
)
    requires
        db.submodules_of(context.module_id) is Ok,
        db.uses_of(context.module_id) is Ok,
    ensures
        ({
            let t = concrete_trait_id;
            let inner = db.submodules_of(context.module_id)->Ok_0.map_values(
                |id: SubmoduleId| ModuleId::Submodule(id),
            );
            let uses = db.uses_of(context.module_id)->Ok_0;
            let used = used_modules(db, uses, uses.len() as int);
            (exists|m: ModuleId|
                is_searched(db, context, m) && #[trigger] module_has(db, m, impl_id, t)) <==> {
                ||| module_has(db, context.module_id, impl_id, t)
                ||| some_module_has(db, context.extra_modules, 0, impl_id, t)
                ||| some_module_has(db, inner, 0, impl_id, t)
                ||| some_module_has(db, used, 0, impl_id, t)
            }
        }),
{
    let t = concrete_trait_id;
    let module_id = context.module_id;
    let extra = context.extra_modules;
    let submodules = db.submodules_of(module_id)->Ok_0;
    let inner = submodules.map_values(|id: SubmoduleId| ModuleId::Submodule(id));
    let uses = db.uses_of(module_id)->Ok_0;
    let used = used_modules(db, uses, uses.len() as int);
    if exists|m: ModuleId|
        is_searched(db, context, m) && #[trigger] module_has(db, m, impl_id, t) {
        let m = choose|m: ModuleId|
            is_searched(db, context, m) && #[trigger] module_has(db, m, impl_id, t);
        lemma_used_modules(db, uses, uses.len() as int, m);
        if extra.contains(m) {
            let k = choose|k: int| 0 <= k < extra.len() && extra[k] == m;
            assert(module_has(db, extra[k], impl_id, t));
        } else if is_inside(db, module_id, m) {
            let k = choose|k: int|
                0 <= k < submodules.len() && m == ModuleId::Submodule(#[trigger] submodules[k]);
            assert(module_has(db, inner[k], impl_id, t));
        } else if is_used(db, module_id, m) {
            let k = choose|k: int| 0 <= k < used.len() && used[k] == m;
            assert(module_has(db, used[k], impl_id, t));
        }
    }
    if some_module_has(db, extra, 0, impl_id, t) {
        let k = choose|k: int|
            0 <= k < extra.len() && module_has(db, #[trigger] extra[k], impl_id, t);
        assert(is_searched(db, context, extra[k]));
    }
    if some_module_has(db, inner, 0, impl_id, t) {
        let k = choose|k: int|
            0 <= k < inner.len() && module_has(db, #[trigger] inner[k], impl_id, t);
        assert(inner[k] == ModuleId::Submodule(submodules[k]));
        assert(is_searched(db, context, inner[k]));
    }
    if some_module_has(db, used, 0, impl_id, t) {
        let k = choose|k: int|
            0 <= k < used.len() && module_has(db, #[trigger] used[k], impl_id, t);
        lemma_used_modules(db, uses, uses.len() as int, used[k]);
        assert(used.contains(used[k]));
        assert(is_searched(db, context, used[k]));
    }
}

/// An impl implements a concrete trait, without generic parameters, exactly when its item is written
/// without generic parameters and the path of its trait stands for that trait.
pub proof fn an_impl_implements_the_trait_of_its_path(
    db: &SemanticDb,
    impls: Seq<(ImplId, ItemImpl)>,
    i: int,
    concrete_trait_id: ConcreteTraitId,
)
    requires
        0 <= i < impls.len(),
        unique_keys(impls),
        db.module_impls_of(db.impls@[impls[i].0.0 as int].0) == Ok::<_, DiagnosticAdded>(impls),
    ensures
        is_impl_of(db, impls[i].0, concrete_trait_id) <==> impls[i].1.generic_params.params@.len()
            == 0 && impls[i].1.trait_path.resolved == Ok::<_, DiagnosticAdded>(
            ResolvedConcreteItem::Trait(concrete_trait_id),
        ),
{
    lemma_impl_from(impls, i, 0);
}

/// The item of an impl is found by its identifier.
proof fn lemma_impl_from(impls: Seq<(ImplId, ItemImpl)>, i: int, from: int)
    requires
        0 <= from <= i < impls.len(),
        unique_keys(impls),
    ensures
        impl_from(impls, impls[i].0, from) == Some(impls[i].1),
    decreases i - from,
{
    if from < i {
        assert(impls[from].0 != impls[i].0);
        lemma_impl_from(impls, i, from + 1);
    }
}

} // verus!

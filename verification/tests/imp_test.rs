use cairo_lang::diagnostics::{DiagnosticAdded, Maybe};
use cairo_lang::ids::{
    ConcreteEnumId, ConcreteImplId, ConcreteStructId, ConcreteTraitId, CrateId, EnumId, ExprId,
    ExternTypeId, FileIndex, FunctionId, GenericParamId, ImplFunctionId, ImplId, LocalVarId,
    MemberId, ModuleFileId, ModuleId, ParamId, SubmoduleId, SyntaxStablePtrId, TraitFunctionId,
    TraitId, TypeId, UseId, VarId, VariantId,
};
use cairo_lang::interner::Interner;
use cairo_lang::semantic::db::{ConcreteEnumEntry, TypeInfoEntry};
use cairo_lang::semantic::diagnostic::{ItemKeyword, SemanticDiagnostic, SemanticDiagnosticKind};
use cairo_lang::semantic::expr::{Expr, ExprBlock, ExprFunctionCall, ExprVar};
use cairo_lang::semantic::imp::{
    find_impls_at_context, find_impls_at_module, impl_functions, impl_generic_params,
    impl_resolved_lookback, impl_semantic_declaration_diagnostics, impl_trait,
    priv_impl_declaration_data, priv_impl_declaration_data_cycle, priv_impl_definition_data,
    ConcreteImplLongId, ImplLookupContext,
};
use cairo_lang::semantic::impl_function::{
    impl_function_body, impl_function_body_diagnostics, impl_function_body_resolved_lookback,
    impl_function_declaration_diagnostics, impl_function_declaration_implicits,
    impl_function_generic_params, impl_function_resolved_lookback, impl_function_signature,
    impl_semantic_definition_diagnostics, priv_impl_function_body_data,
};
use cairo_lang::semantic::program::{
    ConcreteTraitLongId, FunctionNode, GenericArgumentId, Interners, ModuleEntry, SemanticDb,
};
use cairo_lang::semantic::syntax::{
    Attribute, ComputedBody, Environment, FunctionBodySyntax, FunctionSignatureSyntax,
    GenericParamsSyntax, Item, ItemFreeFunction, ItemImpl, ParamSyntax, PathSyntax,
    ResolvedConcreteItem, ResolvedGenericItem, ResolvedLookback,
};
use cairo_lang::semantic::types::{
    ConcreteTypeId, ConcreteVariant, Member, Mutability, Parameter, Signature, TypeInfo, TypeLongId,
};
use std::collections::HashSet;

const UNIT: TypeId = TypeId(0);
const FELT: TypeId = TypeId(1);
const MISSING: TypeId = TypeId(2);
const NEVER: TypeId = TypeId(3);
const STRUCT: TypeId = TypeId(4);
const ENUM: TypeId = TypeId(5);
const PAIR: TypeId = TypeId(6);
const PARAM: TypeId = TypeId(7);

fn root() -> ModuleId {
    ModuleId::CrateRoot(CrateId(0))
}

fn file() -> ModuleFileId {
    ModuleFileId(root(), FileIndex(0))
}

fn ptr(n: usize) -> SyntaxStablePtrId {
    SyntaxStablePtrId(n)
}

fn lookback(n: usize, item: ResolvedConcreteItem) -> ResolvedLookback {
    ResolvedLookback { concrete: vec![(ptr(n), item)], generic: vec![] }
}

fn interners() -> Interners {
    let mut types = Interner::new();
    types.intern(TypeLongId::Tuple(vec![]));
    types.intern(TypeLongId::Concrete(ConcreteTypeId::Extern(ExternTypeId(0))));
    types.intern(TypeLongId::Missing(DiagnosticAdded));
    types.intern(TypeLongId::Concrete(ConcreteTypeId::Enum(ConcreteEnumId(7))));
    types.intern(TypeLongId::Concrete(ConcreteTypeId::Struct(ConcreteStructId(0))));
    types.intern(TypeLongId::Concrete(ConcreteTypeId::Enum(ConcreteEnumId(0))));
    types.intern(TypeLongId::Tuple(vec![FELT, STRUCT]));
    types.intern(TypeLongId::GenericParameter(GenericParamId(0)));
    Interners { types, impl_functions: Interner::new(), concrete_impls: Interner::new() }
}

fn signature(params: Vec<Parameter>, return_type: TypeId, panicable: bool) -> Signature {
    Signature { params, return_type, implicits: vec![], panicable }
}

fn param(id: usize, name: &str, ty: TypeId, mutability: Mutability) -> Parameter {
    Parameter { id: ParamId(id), name: name.to_string(), ty, mutability }
}

fn block(ty: TypeId, at: usize) -> Expr {
    Expr::Block(ExprBlock { statements: vec![], tail: None, ty, stable_ptr: ptr(at) })
}

fn computed(exprs: Vec<Expr>, block: Expr) -> Maybe<ComputedBody> {
    Ok(ComputedBody {
        exprs,
        statements: vec![],
        block,
        diagnostics: vec![],
        lookback: lookback(90, ResolvedConcreteItem::Type(FELT)),
    })
}

/// A function whose nodes have the numbers from `at` on.
fn function(at: usize, semantic: Signature, written_return: bool) -> ItemFreeFunction {
    let parameters = (0..semantic.params.len())
        .map(|i| ParamSyntax { ty_ptr: ptr(at + 10 + i), modifiers_ptr: ptr(at + 20 + i) })
        .collect();
    let return_type = semantic.return_type;
    ItemFreeFunction {
        stable_ptr: ptr(at),
        generic_params: GenericParamsSyntax { params: vec![], diagnostics: vec![] },
        signature: FunctionSignatureSyntax {
            stable_ptr: ptr(at + 1),
            parameters_ptr: ptr(at + 2),
            parameters,
            ret_ty_ptr: if written_return { Some(ptr(at + 3)) } else { None },
            semantic,
            diagnostics: vec![],
            environment: Environment {
                variables: vec![("a".to_string(), VarId::Param(ParamId(1)))],
            },
            lookback: lookback(at + 4, ResolvedConcreteItem::Type(FELT)),
        },
        attributes: vec![],
        body: FunctionBodySyntax {
            stable_ptr: ptr(at + 5),
            lbrace_ptr: ptr(at + 6),
            computed: computed(vec![], block(return_type, at + 5)),
        },
    }
}

fn item_impl(trait_id: usize, items: Vec<Item>) -> ItemImpl {
    ItemImpl {
        stable_ptr: ptr(1),
        generic_params: GenericParamsSyntax { params: vec![], diagnostics: vec![] },
        trait_path: PathSyntax {
            stable_ptr: ptr(2),
            resolved: Ok(ResolvedConcreteItem::Trait(ConcreteTraitId(trait_id))),
            diagnostics: vec![],
            lookback: lookback(2, ResolvedConcreteItem::Trait(ConcreteTraitId(trait_id))),
        },
        attributes: vec![Attribute { id: "Contract".to_string(), args: vec![] }],
        body: Some(items),
    }
}

fn foo_of_trait() -> Signature {
    signature(vec![param(0, "a", FELT, Mutability::Immutable)], UNIT, true)
}

/// A program with one module and the impls in it. The trait 0 has the function `foo`.
fn program(impls: Vec<(ImplId, ItemImpl)>, nodes: Vec<FunctionNode>) -> SemanticDb {
    let n = impls.len();
    SemanticDb {
        modules: vec![ModuleEntry {
            module_id: root(),
            impls: Ok(impls),
            submodules: Ok(vec![]),
            uses: Ok(vec![]),
        }],
        impls: vec![file(); n],
        uses: vec![],
        concrete_traits: vec![ConcreteTraitLongId { trait_id: TraitId(0), generic_args: vec![] }],
        traits: vec![
            Ok(vec![("foo".to_string(), TraitFunctionId(0))]),
            Ok(vec![]),
            Ok(vec![]),
        ],
        trait_functions: vec![Ok(foo_of_trait())],
        function_nodes: nodes,
        type_infos: vec![],
        concrete_structs: vec![Ok(vec![
            Member { id: MemberId(0), ty: FELT },
            Member { id: MemberId(1), ty: PAIR },
        ])],
        concrete_enums: vec![ConcreteEnumEntry {
            enum_id: EnumId(0),
            variants: Ok(vec![ConcreteVariant {
                concrete_enum_id: ConcreteEnumId(0),
                id: VariantId(0),
                ty: FELT,
                idx: 0,
            }]),
        }],
        copy_trait: TraitId(1),
        drop_trait: TraitId(2),
        never_ty: NEVER,
    }
}

fn node(at: usize, name: &str) -> FunctionNode {
    FunctionNode { stable_ptr: ptr(at), impl_id: ImplId(0), name: name.to_string() }
}

/// A program with one impl of the trait 0 that has one function, at the node 100.
fn program_of(name: &str, semantic: Signature, written_return: bool) -> SemanticDb {
    let item = item_impl(0, vec![Item::FreeFunction(function(100, semantic, written_return))]);
    program(vec![(ImplId(0), item)], vec![node(100, name)])
}

fn kinds(diagnostics: &[SemanticDiagnostic]) -> Vec<(usize, SemanticDiagnosticKind)> {
    diagnostics.iter().map(|d| (d.stable_ptr.0, d.kind)).collect()
}

const THE_IMPL: ImplId = ImplId(0);
const FOO: ImplFunctionId = ImplFunctionId(0);

#[test]
fn test_impl() {
    let semantic = signature(vec![param(1, "a", FELT, Mutability::Immutable)], UNIT, true);
    let db = program_of("foo", semantic, false);
    let mut interners = interners();

    assert!(impl_semantic_declaration_diagnostics(&db, THE_IMPL).is_empty());
    assert!(impl_semantic_definition_diagnostics(&db, &mut interners, THE_IMPL).is_empty());

    assert_eq!(format!("{:?}", impl_generic_params(&db, THE_IMPL).unwrap()), "[]");

    let func_ids = impl_functions(&db, &mut interners, THE_IMPL).unwrap();
    assert_eq!(
        format!("{:?}", impl_functions(&db, &mut interners, THE_IMPL).unwrap()),
        "[ImplFunctionId(0)]"
    );

    assert_eq!(
        format!("{:?}", impl_function_signature(&db, &mut interners, func_ids[0]).unwrap()),
        "Signature { params: [Parameter { id: ParamId(1), name: \"a\", ty: TypeId(1), mutability: \
         Immutable }], return_type: TypeId(0), implicits: [], panicable: true }"
    );

    assert_eq!(format!("{:?}", impl_trait(&db, THE_IMPL).unwrap()), "ConcreteTraitId(0)");
}

#[test]
fn the_parts_of_a_declaration() {
    let mut item = item_impl(0, vec![]);
    item.generic_params.params = vec![GenericParamId(4), GenericParamId(2)];
    let db = program(vec![(THE_IMPL, item)], vec![]);
    assert_eq!(
        impl_generic_params(&db, THE_IMPL),
        Ok(vec![GenericParamId(4), GenericParamId(2)])
    );
    assert_eq!(impl_trait(&db, THE_IMPL), Ok(ConcreteTraitId(0)));
    let data = priv_impl_declaration_data(&db, THE_IMPL).unwrap();
    assert_eq!(data.attributes[0].id, "Contract");
    assert_eq!(data.check_no_cycle(), Ok(()));
    let resolved = impl_resolved_lookback(&db, THE_IMPL).unwrap();
    assert_eq!(
        resolved.concrete,
        vec![(ptr(2), ResolvedConcreteItem::Trait(ConcreteTraitId(0)))]
    );
    assert!(resolved.generic.is_empty());
}

#[test]
fn a_path_that_is_not_a_trait_is_reported() {
    for resolved in [Err(DiagnosticAdded), Ok(ResolvedConcreteItem::Type(FELT))] {
        let mut item = item_impl(0, vec![]);
        item.generic_params.diagnostics = vec![SemanticDiagnostic {
            module_file_id: file(),
            stable_ptr: ptr(50),
            kind: SemanticDiagnosticKind::Other(5),
        }];
        item.trait_path.diagnostics = vec![SemanticDiagnostic {
            module_file_id: file(),
            stable_ptr: ptr(51),
            kind: SemanticDiagnosticKind::Other(6),
        }];
        item.trait_path.resolved = resolved;
        let db = program(vec![(THE_IMPL, item)], vec![]);
        let mut interners = interners();
        let found = impl_semantic_declaration_diagnostics(&db, THE_IMPL);
        assert_eq!(
            kinds(&found),
            vec![
                (50, SemanticDiagnosticKind::Other(5)),
                (51, SemanticDiagnosticKind::Other(6)),
                (2, SemanticDiagnosticKind::NotATrait),
            ]
        );
        assert_eq!(found[2].module_file_id, file());
        assert_eq!(impl_trait(&db, THE_IMPL), Err(DiagnosticAdded));
        assert_eq!(
            priv_impl_declaration_data(&db, THE_IMPL).unwrap().check_no_cycle(),
            Err(DiagnosticAdded)
        );
        assert!(impl_functions(&db, &mut interners, THE_IMPL).is_err());
        assert!(impl_semantic_definition_diagnostics(&db, &mut interners, THE_IMPL).is_empty());
    }
}

#[test]
fn a_cycle_leaves_no_trait() {
    let db = program(vec![(THE_IMPL, item_impl(0, vec![]))], vec![]);
    let cycle = ["impl_trait".to_string()];
    let data = priv_impl_declaration_data_cycle(&db, &cycle, &THE_IMPL).unwrap();
    assert_eq!(data.concrete_trait, Err(DiagnosticAdded));
    assert_eq!(kinds(&data.diagnostics), vec![(2, SemanticDiagnosticKind::NotATrait)]);
    assert!(data.resolved_lookback.concrete.is_empty());
    assert_eq!(data.check_no_cycle(), Err(DiagnosticAdded));
}

#[test]
fn an_impl_without_syntax_has_no_declaration() {
    let mut db = program(vec![(THE_IMPL, item_impl(0, vec![]))], vec![]);
    db.impls.push(file());
    let unknown = ImplId(1);
    assert!(priv_impl_declaration_data(&db, unknown).is_err());
    assert!(impl_generic_params(&db, unknown).is_err());
    assert!(impl_resolved_lookback(&db, unknown).is_err());
    assert!(impl_semantic_declaration_diagnostics(&db, unknown).is_empty());
    db.modules[0].impls = Err(DiagnosticAdded);
    assert!(priv_impl_declaration_data(&db, THE_IMPL).is_err());
    assert!(impl_trait(&db, THE_IMPL).is_err());
}

#[test]
fn only_functions_belong_into_an_impl() {
    let items = vec![
        Item::Constant(ptr(10)),
        Item::Module(ptr(11)),
        Item::Use(ptr(12)),
        Item::ExternFunction(ptr(13)),
        Item::ExternType(ptr(14)),
        Item::FreeFunction(function(200, foo_of_trait(), false)),
        Item::Trait(ptr(15)),
        Item::Impl(ptr(16)),
        Item::Struct(ptr(17)),
        Item::Enum(ptr(18)),
        Item::TypeAlias(ptr(19)),
        Item::FreeFunction(function(300, foo_of_trait(), false)),
    ];
    let db = program(vec![(THE_IMPL, item_impl(0, items))], vec![]);
    let mut interners = interners();
    let data = priv_impl_definition_data(&db, &mut interners, THE_IMPL).unwrap();
    let expected = [
        (ItemKeyword::Const, "const"),
        (ItemKeyword::Mod, "mod"),
        (ItemKeyword::Use, "use"),
        (ItemKeyword::ExternFn, "extern"),
        (ItemKeyword::ExternType, "extern"),
        (ItemKeyword::Trait, "trait"),
        (ItemKeyword::Impl, "impl"),
        (ItemKeyword::Struct, "struct"),
        (ItemKeyword::Enum, "enum"),
        (ItemKeyword::Type, "type"),
    ];
    assert_eq!(data.diagnostics.len(), expected.len());
    for (i, (item_kw, text)) in expected.into_iter().enumerate() {
        assert_eq!(
            kinds(&data.diagnostics)[i],
            (10 + i, SemanticDiagnosticKind::InvalidImplItem { item_kw })
        );
        assert_eq!(item_kw.text(), text);
    }
    assert_eq!(
        impl_functions(&db, &mut interners, THE_IMPL),
        Ok(vec![ImplFunctionId(0), ImplFunctionId(1)])
    );
    assert_eq!(interners.impl_functions.lookup(1).unwrap().1, ptr(300));
}

#[test]
fn a_definition_is_stable() {
    let items = vec![
        Item::FreeFunction(function(200, foo_of_trait(), false)),
        Item::FreeFunction(function(300, foo_of_trait(), false)),
    ];
    let other = vec![Item::FreeFunction(function(400, foo_of_trait(), false))];
    let db = program(
        vec![(THE_IMPL, item_impl(0, items)), (ImplId(1), item_impl(0, other))],
        vec![],
    );
    let mut interners = interners();
    assert_eq!(impl_functions(&db, &mut interners, ImplId(1)), Ok(vec![ImplFunctionId(0)]));
    let first = impl_functions(&db, &mut interners, THE_IMPL);
    assert_eq!(first, Ok(vec![ImplFunctionId(1), ImplFunctionId(2)]));
    assert_eq!(impl_functions(&db, &mut interners, ImplId(1)), Ok(vec![ImplFunctionId(0)]));
    assert_eq!(impl_functions(&db, &mut interners, THE_IMPL), first);
    assert_eq!(interners.impl_functions.items.len(), 3);
}

#[test]
fn an_impl_without_braces_has_no_functions() {
    let mut item = item_impl(0, vec![]);
    item.body = None;
    let db = program(vec![(THE_IMPL, item)], vec![]);
    assert_eq!(impl_functions(&db, &mut interners(), THE_IMPL), Ok(vec![]));
}

/// The diagnostics of an impl of Copy (trait 1) or Drop (trait 2) for the type.
fn special(trait_id: usize, ty: TypeId, infos: Vec<(TypeId, bool, bool)>) -> Vec<SemanticDiagnostic> {
    let mut db = program(vec![(THE_IMPL, item_impl(0, vec![]))], vec![]);
    db.concrete_traits = vec![ConcreteTraitLongId {
        trait_id: TraitId(trait_id),
        generic_args: vec![GenericArgumentId::Type(ty)],
    }];
    db.type_infos = infos
        .into_iter()
        .map(|(ty, duplicatable, droppable)| TypeInfoEntry {
            context: ImplLookupContext {
                module_id: root(),
                extra_modules: vec![],
                generic_params: vec![],
            },
            ty,
            info: Ok(TypeInfo { droppable, duplicatable }),
        })
        .collect();
    priv_impl_definition_data(&db, &mut interners(), THE_IMPL).unwrap().diagnostics
}

#[test]
fn copy_needs_inner_types_that_can_be_duplicated() {
    let copy = vec![(1, SemanticDiagnosticKind::InvalidCopyTraitImpl)];
    // The members of the struct are a felt and a pair.
    assert_eq!(kinds(&special(1, STRUCT, vec![(FELT, true, false), (PAIR, true, false)])), vec![]);
    assert_eq!(kinds(&special(1, STRUCT, vec![(FELT, true, true), (PAIR, false, true)])), copy);
    // What is not known of a type is not held against it.
    assert_eq!(kinds(&special(1, STRUCT, vec![(FELT, true, false)])), vec![]);
    assert_eq!(kinds(&special(1, STRUCT, vec![(FELT, false, false)])), copy);
    assert_eq!(kinds(&special(1, ENUM, vec![(FELT, false, true)])), copy);
    assert_eq!(kinds(&special(1, PAIR, vec![(STRUCT, false, true)])), copy);
    assert_eq!(kinds(&special(1, FELT, vec![(FELT, false, false)])), vec![]);
    // The inner types of these are not known.
    assert_eq!(kinds(&special(1, PARAM, vec![(FELT, false, false)])), vec![]);
    assert_eq!(kinds(&special(1, MISSING, vec![(FELT, false, false)])), vec![]);
    assert_eq!(kinds(&special(1, NEVER, vec![(FELT, false, false)])), vec![]);
}

#[test]
fn drop_needs_inner_types_that_can_be_dropped() {
    let refused = vec![(1, SemanticDiagnosticKind::InvalidDropTraitImpl)];
    assert_eq!(kinds(&special(2, PAIR, vec![(FELT, false, true), (STRUCT, false, true)])), vec![]);
    assert_eq!(kinds(&special(2, PAIR, vec![(FELT, true, true), (STRUCT, true, false)])), refused);
    assert_eq!(kinds(&special(2, PARAM, vec![])), vec![]);
    // Any other trait is not checked.
    assert_eq!(kinds(&special(0, PAIR, vec![(FELT, false, false)])), vec![]);
}

/// What is reported of the declaration of a function of the impl of the trait 0.
fn reported(name: &str, actual: Signature, expected: Signature, written: bool) -> Vec<(usize, SemanticDiagnosticKind)> {
    let mut db = program_of(name, actual, written);
    db.trait_functions = vec![Ok(expected)];
    let mut interners = interners();
    impl_functions(&db, &mut interners, THE_IMPL).unwrap();
    let found = impl_function_declaration_diagnostics(&db, &mut interners, FOO);
    for d in &found {
        assert_eq!(d.module_file_id, file());
    }
    kinds(&found)
}

#[test]
fn a_function_must_be_one_of_the_trait() {
    assert_eq!(
        reported("bar", foo_of_trait(), foo_of_trait(), false),
        vec![(
            100,
            SemanticDiagnosticKind::FunctionNotMemberOfTrait {
                impl_id: THE_IMPL,
                impl_function_id: FOO,
                trait_id: TraitId(0),
            }
        )]
    );
    assert_eq!(reported("foo", foo_of_trait(), foo_of_trait(), false), vec![]);
}

#[test]
fn the_number_of_parameters_must_agree() {
    let two = vec![
        param(0, "a", FELT, Mutability::Immutable),
        param(1, "b", FELT, Mutability::Immutable),
    ];
    let wrong = |expected: usize, actual: usize| {
        vec![(
            102,
            SemanticDiagnosticKind::WrongNumberOfParameters {
                impl_id: THE_IMPL,
                impl_function_id: FOO,
                trait_id: TraitId(0),
                expected,
                actual,
            },
        )]
    };
    assert_eq!(reported("foo", signature(two, UNIT, true), foo_of_trait(), false), wrong(1, 2));
    let two = vec![
        param(0, "a", FELT, Mutability::Immutable),
        param(1, "b", FELT, Mutability::Immutable),
    ];
    assert_eq!(reported("foo", foo_of_trait(), signature(two, UNIT, true), false), wrong(2, 1));
}

#[test]
fn the_parameters_must_agree() {
    let subject = (THE_IMPL, FOO, TraitId(0));
    let actual = vec![
        param(0, "a", UNIT, Mutability::Reference),
        param(1, "b", FELT, Mutability::Mutable),
        param(2, "c", FELT, Mutability::Immutable),
    ];
    let expected = vec![
        param(3, "x", FELT, Mutability::Immutable),
        param(4, "y", FELT, Mutability::Immutable),
        param(5, "z", FELT, Mutability::Reference),
    ];
    let found = reported(
        "foo",
        signature(actual, UNIT, false),
        signature(expected, UNIT, false),
        false,
    );
    let (impl_id, impl_function_id, trait_id) = subject;
    assert_eq!(
        found,
        vec![
            (
                110,
                SemanticDiagnosticKind::WrongParameterType {
                    impl_id,
                    impl_function_id,
                    trait_id,
                    expected_ty: FELT,
                    actual_ty: UNIT,
                }
            ),
            (
                120,
                SemanticDiagnosticKind::ParamaterShouldNotBeReference {
                    impl_id,
                    impl_function_id,
                    trait_id,
                }
            ),
            (
                122,
                SemanticDiagnosticKind::ParamaterShouldBeReference {
                    impl_id,
                    impl_function_id,
                    trait_id,
                }
            ),
        ]
    );
}

#[test]
fn a_function_may_panic_only_if_that_of_the_trait_may() {
    let none = || signature(vec![], UNIT, false);
    let some = || signature(vec![], UNIT, true);
    assert_eq!(reported("foo", none(), some(), false), vec![]);
    assert_eq!(
        reported("foo", some(), none(), false),
        vec![(
            101,
            SemanticDiagnosticKind::PassPanicAsNopanic {
                impl_function_id: FOO,
                trait_id: TraitId(0),
            }
        )]
    );
}

#[test]
fn the_return_type_must_agree() {
    let wrong = SemanticDiagnosticKind::WrongReturnTypeForImpl {
        impl_id: THE_IMPL,
        impl_function_id: FOO,
        trait_id: TraitId(0),
        expected_ty: UNIT,
        actual_ty: FELT,
    };
    let actual = || signature(vec![], FELT, true);
    let expected = || signature(vec![], UNIT, true);
    // The type is written, or the opening brace of the body stands in its place.
    assert_eq!(reported("foo", actual(), expected(), true), vec![(103, wrong)]);
    assert_eq!(reported("foo", actual(), expected(), false), vec![(106, wrong)]);
}

#[test]
fn an_unknown_trait_is_not_held_against_the_function() {
    let wrong = || signature(vec![], FELT, true);
    let mut db = program_of("foo", wrong(), false);
    let mut interners = interners();
    impl_functions(&db, &mut interners, THE_IMPL).unwrap();
    db.trait_functions = vec![Err(DiagnosticAdded)];
    assert!(impl_function_declaration_diagnostics(&db, &mut interners, FOO).is_empty());
    db.traits = vec![Err(DiagnosticAdded)];
    assert!(impl_function_declaration_diagnostics(&db, &mut interners, FOO).is_empty());
}

#[test]
fn the_parts_of_a_function_declaration() {
    let mut semantic = foo_of_trait();
    semantic.implicits = vec![FELT, UNIT];
    let mut func = function(100, semantic, false);
    func.generic_params.params = vec![GenericParamId(3)];
    func.generic_params.diagnostics = vec![SemanticDiagnostic {
        module_file_id: file(),
        stable_ptr: ptr(60),
        kind: SemanticDiagnosticKind::Other(1),
    }];
    func.signature.diagnostics = vec![SemanticDiagnostic {
        module_file_id: file(),
        stable_ptr: ptr(61),
        kind: SemanticDiagnosticKind::Other(2),
    }];
    let item = item_impl(0, vec![Item::FreeFunction(func)]);
    let db = program(vec![(THE_IMPL, item)], vec![node(100, "bar")]);
    let mut interners = interners();
    impl_functions(&db, &mut interners, THE_IMPL).unwrap();
    assert_eq!(
        impl_function_declaration_implicits(&db, &mut interners, FOO),
        Ok(vec![FELT, UNIT])
    );
    assert_eq!(
        impl_function_generic_params(&db, &mut interners, FOO),
        Ok(vec![GenericParamId(3)])
    );
    let resolved = impl_function_resolved_lookback(&db, &mut interners, FOO).unwrap();
    assert_eq!(resolved.concrete, vec![(ptr(104), ResolvedConcreteItem::Type(FELT))]);
    let found = impl_function_declaration_diagnostics(&db, &mut interners, FOO);
    let places: Vec<usize> = found.iter().map(|d| d.stable_ptr.0).collect();
    assert_eq!(places, vec![60, 61, 100]);
    assert_eq!(interners.impl_functions.items.len(), 1);
}

fn call(function: usize, at: usize) -> Expr {
    Expr::FunctionCall(ExprFunctionCall {
        function: FunctionId(function),
        ref_args: vec![],
        args: vec![],
        ty: FELT,
        stable_ptr: ptr(at),
    })
}

/// A program whose function has the body.
fn program_with_body(return_type: TypeId, body: Maybe<ComputedBody>) -> SemanticDb {
    let mut func = function(100, signature(vec![], return_type, true), true);
    func.body.computed = body;
    let item = item_impl(0, vec![Item::FreeFunction(func)]);
    let mut db = program(vec![(THE_IMPL, item)], vec![node(100, "foo")]);
    db.trait_functions = vec![Ok(signature(vec![], return_type, true))];
    db
}

#[test]
fn the_parts_of_a_body() {
    let var = Expr::Var(ExprVar {
        var: VarId::Local(LocalVarId(0)),
        ty: FELT,
        stable_ptr: ptr(71),
    });
    let exprs = vec![call(5, 70), var, call(3, 72), call(5, 73), call(3, 71)];
    let db = program_with_body(FELT, computed(exprs, block(FELT, 74)));
    let mut interners = interners();
    impl_functions(&db, &mut interners, THE_IMPL).unwrap();
    let body = impl_function_body(&db, &mut interners, FOO).unwrap();
    assert_eq!(body.exprs.len(), 6);
    assert_eq!(body.body_expr, ExprId(5));
    assert_eq!(body.exprs[5].stable_ptr(), ptr(74));
    assert_eq!(body.direct_callees, vec![FunctionId(5), FunctionId(3)]);
    let data = priv_impl_function_body_data(&db, &mut interners, FOO).unwrap();
    assert_eq!(data.expr_lookup.get(ptr(70)), Some(ExprId(0)));
    // Of two expressions in one place it is the last.
    assert_eq!(data.expr_lookup.get(ptr(71)), Some(ExprId(4)));
    assert_eq!(data.expr_lookup.get(ptr(74)), Some(ExprId(5)));
    assert_eq!(data.expr_lookup.get(ptr(75)), None);
    assert!(impl_function_body_diagnostics(&db, &mut interners, FOO).is_empty());
    let resolved = impl_function_body_resolved_lookback(&db, &mut interners, FOO).unwrap();
    assert_eq!(resolved.concrete, vec![(ptr(90), ResolvedConcreteItem::Type(FELT))]);
}

/// What is reported of a body of one type in a function that returns another.
fn body_reported(return_type: TypeId, body_type: TypeId) -> Vec<(usize, SemanticDiagnosticKind)> {
    let db = program_with_body(return_type, computed(vec![], block(body_type, 74)));
    let mut interners = interners();
    impl_functions(&db, &mut interners, THE_IMPL).unwrap();
    kinds(&impl_function_body_diagnostics(&db, &mut interners, FOO))
}

#[test]
fn a_body_must_have_the_return_type() {
    let wrong = |expected_ty: TypeId, actual_ty: TypeId| {
        vec![(105, SemanticDiagnosticKind::WrongReturnType { expected_ty, actual_ty })]
    };
    assert_eq!(body_reported(FELT, FELT), vec![]);
    assert_eq!(body_reported(FELT, UNIT), wrong(FELT, UNIT));
    assert_eq!(body_reported(NEVER, UNIT), wrong(NEVER, UNIT));
    // What could not be found out was reported before, and what never ends has every type.
    assert_eq!(body_reported(FELT, MISSING), vec![]);
    assert_eq!(body_reported(MISSING, FELT), vec![]);
    assert_eq!(body_reported(FELT, NEVER), vec![]);
}

#[test]
fn a_body_that_was_not_computed_is_not_known() {
    let db = program_with_body(FELT, Err(DiagnosticAdded));
    let mut interners = interners();
    impl_functions(&db, &mut interners, THE_IMPL).unwrap();
    assert!(impl_function_body(&db, &mut interners, FOO).is_err());
    assert!(impl_function_body_resolved_lookback(&db, &mut interners, FOO).is_err());
    assert!(impl_function_body_diagnostics(&db, &mut interners, FOO).is_empty());
}

#[test]
fn the_diagnostics_of_a_definition_come_in_order() {
    let mut func = function(100, signature(vec![], FELT, true), false);
    func.body.computed = computed(vec![], block(UNIT, 105));
    let items = vec![
        Item::Use(ptr(12)),
        Item::FreeFunction(func),
        Item::FreeFunction(function(200, foo_of_trait(), false)),
        Item::Enum(ptr(13)),
    ];
    let db = program(
        vec![(THE_IMPL, item_impl(0, items))],
        vec![node(100, "foo"), node(200, "bar")],
    );
    let mut interners = interners();
    let found = impl_semantic_definition_diagnostics(&db, &mut interners, THE_IMPL);
    let places: Vec<usize> = found.iter().map(|d| d.stable_ptr.0).collect();
    // The items, then of the first function the number of parameters, the return type and the
    // body, then of the second one that the trait does not have it.
    assert_eq!(places, vec![12, 13, 102, 106, 105, 200]);
}

/// Impls of the traits 0 and 1 in three modules.
fn modules() -> SemanticDb {
    let inner = ModuleId::Submodule(SubmoduleId(0));
    let used = ModuleId::Submodule(SubmoduleId(1));
    let extra = ModuleId::Submodule(SubmoduleId(2));
    let mut generic = item_impl(0, vec![]);
    generic.generic_params.params = vec![GenericParamId(0)];
    let mut not_a_trait = item_impl(0, vec![]);
    not_a_trait.trait_path.resolved = Err(DiagnosticAdded);
    let mut db = program(
        vec![
            (ImplId(0), item_impl(1, vec![])),
            (ImplId(1), item_impl(0, vec![])),
            (ImplId(2), generic),
            (ImplId(3), not_a_trait),
            (ImplId(4), item_impl(0, vec![])),
        ],
        vec![],
    );
    let entry = |module_id: ModuleId, impls: Vec<(ImplId, ItemImpl)>| ModuleEntry {
        module_id,
        impls: Ok(impls),
        submodules: Ok(vec![]),
        uses: Ok(vec![]),
    };
    db.modules.push(entry(inner, vec![(ImplId(5), item_impl(0, vec![]))]));
    db.modules.push(entry(used, vec![(ImplId(6), item_impl(0, vec![]))]));
    db.modules.push(entry(extra, vec![(ImplId(7), item_impl(0, vec![]))]));
    for module_id in [inner, used, extra] {
        db.impls.push(ModuleFileId(module_id, FileIndex(0)));
    }
    db.modules[0].submodules = Ok(vec![SubmoduleId(0)]);
    db.modules[0].uses = Ok(vec![UseId(0), UseId(1), UseId(2)]);
    db.uses = vec![
        Ok(ResolvedGenericItem::Trait(TraitId(0))),
        Ok(ResolvedGenericItem::Module(used)),
        Err(DiagnosticAdded),
    ];
    db
}

fn impl_ids(interners: &Interners, found: Vec<ConcreteImplId>) -> Vec<usize> {
    found
        .into_iter()
        .map(|id| {
            let long_id = interners.concrete_impls.lookup(id.0).unwrap();
            assert!(long_id.generic_args.is_empty());
            long_id.impl_id.0
        })
        .collect()
}

#[test]
fn a_module_gives_its_impls_of_the_trait() {
    let db = modules();
    let mut interners = interners();
    let found = find_impls_at_module(&db, &mut interners, root(), ConcreteTraitId(0)).unwrap();
    assert_eq!(found, vec![ConcreteImplId(0), ConcreteImplId(1)]);
    assert_eq!(impl_ids(&interners, found), vec![1, 4]);
    let found = find_impls_at_module(&db, &mut interners, root(), ConcreteTraitId(1)).unwrap();
    assert_eq!(found, vec![ConcreteImplId(2)]);
    assert_eq!(impl_ids(&interners, found), vec![0]);
    // Those found before keep their identifiers.
    let found = find_impls_at_module(&db, &mut interners, root(), ConcreteTraitId(0)).unwrap();
    assert_eq!(found, vec![ConcreteImplId(0), ConcreteImplId(1)]);
    let unknown = ModuleId::Submodule(SubmoduleId(9));
    assert!(find_impls_at_module(&db, &mut interners, unknown, ConcreteTraitId(0)).is_err());
}

#[test]
fn exactly_the_impls_of_the_trait_are_found_once() {
    let db = modules();
    for t in [ConcreteTraitId(0), ConcreteTraitId(1), ConcreteTraitId(2)] {
        let mut interners = interners();
        let found = find_impls_at_module(&db, &mut interners, root(), t).unwrap();
        // The impls of the module are 0 to 4; the declaration of 3 is not known.
        let expected: Vec<usize> = (0..5)
            .filter(|n| {
                impl_generic_params(&db, ImplId(*n)) == Ok(vec![])
                    && impl_trait(&db, ImplId(*n)) == Ok(t)
            })
            .collect();
        let distinct: HashSet<usize> = found.iter().map(|id| id.0).collect();
        assert_eq!(distinct.len(), found.len());
        assert_eq!(impl_ids(&interners, found), expected);
    }
}

#[test]
fn a_concrete_impl_is_copied_compared_and_hashed() {
    let concrete = |n: usize, ty: TypeId| ConcreteImplLongId {
        impl_id: ImplId(n),
        generic_args: vec![GenericArgumentId::Type(ty)],
    };
    let one = concrete(1, FELT);
    assert_eq!(one.clone(), one);
    assert_ne!(concrete(2, FELT), one);
    assert_ne!(concrete(1, UNIT), one);
    let all: HashSet<ConcreteImplLongId> =
        [one.clone(), concrete(2, FELT), one].into_iter().collect();
    assert_eq!(all.len(), 2);
}

#[test]
fn a_lookup_context_is_copied_compared_and_hashed() {
    let context = |extra: usize, param: usize| ImplLookupContext {
        module_id: root(),
        extra_modules: vec![ModuleId::Submodule(SubmoduleId(extra))],
        generic_params: vec![GenericParamId(param)],
    };
    let one = context(1, 1);
    assert_eq!(one.clone(), one);
    assert_ne!(context(2, 1), one);
    assert_ne!(context(1, 2), one);
    let all: HashSet<ImplLookupContext> = [one.clone(), context(2, 1), one].into_iter().collect();
    assert_eq!(all.len(), 2);
}

#[test]
fn declarations_and_definitions_are_copied_and_compared() {
    let items = vec![
        Item::Constant(ptr(10)),
        Item::FreeFunction(function(200, foo_of_trait(), false)),
    ];
    let mut generic = item_impl(0, vec![]);
    generic.generic_params.params = vec![GenericParamId(0)];
    let db = program(vec![(THE_IMPL, item_impl(0, items)), (ImplId(1), generic)], vec![]);
    let declaration = priv_impl_declaration_data(&db, THE_IMPL).unwrap();
    assert_eq!(declaration.clone(), declaration);
    assert_ne!(priv_impl_declaration_data(&db, ImplId(1)).unwrap(), declaration);
    let mut interners = interners();
    let definition = priv_impl_definition_data(&db, &mut interners, THE_IMPL).unwrap();
    assert_eq!(definition.diagnostics.len(), 1);
    assert_eq!(definition.function_asts.entries.len(), 1);
    assert_eq!(definition.clone(), definition);
    let other = priv_impl_definition_data(&db, &mut interners, ImplId(1)).unwrap();
    assert_ne!(other, definition);
}

#[test]
fn the_syntax_of_an_impl_is_copied_and_compared() {
    let mut item = item_impl(0, vec![Item::FreeFunction(function(200, foo_of_trait(), true))]);
    assert_eq!(item.clone(), item);
    let copy = item.clone();
    item.trait_path.resolved = Err(DiagnosticAdded);
    assert_eq!(item.clone(), item);
    assert_ne!(item, copy);
    let mut f = function(200, foo_of_trait(), true);
    let copy = f.clone();
    f.body.computed = Err(DiagnosticAdded);
    assert_eq!(f.clone(), f);
    assert_ne!(f, copy);
}

#[test]
fn a_context_gives_impls_of_the_trait() {
    let db = modules();
    let mut interners = interners();
    let context = ImplLookupContext {
        module_id: root(),
        extra_modules: vec![
            ModuleId::Submodule(SubmoduleId(9)),
            ModuleId::Submodule(SubmoduleId(2)),
        ],
        generic_params: vec![],
    };
    let found =
        find_impls_at_context(&db, &mut interners, &context, ConcreteTraitId(0)).unwrap();
    // The module itself, the extra modules that are known, the modules inside, and those in use.
    assert_eq!(impl_ids(&interners, found), vec![1, 4, 7, 5, 6]);
}

#[test]
fn a_context_needs_its_modules() {
    let context = ImplLookupContext {
        module_id: root(),
        extra_modules: vec![],
        generic_params: vec![],
    };
    let find = |db: &SemanticDb| {
        find_impls_at_context(db, &mut interners(), &context, ConcreteTraitId(0))
    };
    assert!(find(&modules()).is_ok());
    let mut db = modules();
    db.modules[0].impls = Err(DiagnosticAdded);
    assert!(find(&db).is_err());
    let mut db = modules();
    db.modules[0].submodules = Err(DiagnosticAdded);
    assert!(find(&db).is_err());
    let mut db = modules();
    db.modules[0].uses = Err(DiagnosticAdded);
    assert!(find(&db).is_err());
    let mut db = modules();
    db.modules[1].impls = Err(DiagnosticAdded);
    assert!(find(&db).is_err());
    let mut db = modules();
    db.modules[2].impls = Err(DiagnosticAdded);
    assert!(find(&db).is_err());
}

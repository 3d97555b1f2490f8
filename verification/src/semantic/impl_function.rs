//! The semantic model of the functions of `impl` items.
use crate::collections::{
    assign, contains_key, copy_vec, extend_copies, has_key, is_first, key_index,
    lemma_lookup_assign, lemma_no_key, lookup, OrderedMap,
};
use crate::diagnostics::Maybe;
use crate::ids::{
    ExprId, FunctionId, GenericParamId, ImplFunctionId, ImplId, ModuleFileId, SyntaxStablePtrId,
    TraitId, TypeId,
};
use crate::semantic::diagnostic::{SemanticDiagnostic, SemanticDiagnosticKind, SemanticDiagnostics};
use crate::semantic::expr::{Expr, FunctionBody, Statement};
use crate::semantic::imp::{
    a_definition_extends_the_table, a_definition_is_stable, declaration_of, definition_of,
    functions_lead_back, impl_ast_of, impl_ok, is_item, items_of, priv_impl_declaration_data,
    priv_impl_definition_data,
};
use crate::semantic::program::{ImplFunctionLongId, Interners, SemanticDb};
use crate::semantic::syntax::{
    Attribute, ComputedBody, Environment, FunctionSignatureSyntax, ItemFreeFunction, LookbackModel,
    ParamSyntax, ResolvedLookback,
};
use crate::semantic::types::{Mutability, Parameter, Signature, TypeInterner, TypeLongId, TypeModel};
use std::sync::Arc;
use vstd::pervasive::unreached;
use vstd::prelude::*;

verus! {

// === Validation ===

/// What a validation is about: the function, and the trait that it must agree with.
pub struct Subject {
    pub module_file_id: ModuleFileId,
    pub impl_id: ImplId,
    pub impl_function_id: ImplFunctionId,
    pub trait_id: TraitId,
}

/// A diagnostic about the function.
pub open spec fn about(
    s: Subject,
    stable_ptr: SyntaxStablePtrId,
    kind: SemanticDiagnosticKind,
) -> SemanticDiagnostic {
    SemanticDiagnostic { module_file_id: s.module_file_id, stable_ptr, kind }
}

/// The elements, if the condition holds.
pub open spec fn when<T>(condition: bool, elements: Seq<T>) -> Seq<T> {
    if condition {
        elements
    } else {
        Seq::empty()
    }
}

/// What is reported of the number of parameters.
pub open spec fn count_diagnostics(
    s: Subject,
    syntax: FunctionSignatureSyntax,
    actual: Seq<Parameter>,
    expected: Seq<Parameter>,
) -> Seq<SemanticDiagnostic> {
    when(
        actual.len() != expected.len(),
        seq![
            about(
                s,
                syntax.parameters_ptr,
                SemanticDiagnosticKind::WrongNumberOfParameters {
                    impl_id: s.impl_id,
                    impl_function_id: s.impl_function_id,
                    trait_id: s.trait_id,
                    expected: expected.len() as usize,
                    actual: actual.len() as usize,
                },
            ),
        ],
    )
}

/// What is reported of a parameter.
pub open spec fn param_diagnostics(
    s: Subject,
    syntax: ParamSyntax,
    actual: Parameter,
    expected: Parameter,
) -> Seq<SemanticDiagnostic> {
    let by_ref = Mutability::Reference;
    when(
        expected.ty != actual.ty,
        seq![
            about(
                s,
                syntax.ty_ptr,
                SemanticDiagnosticKind::WrongParameterType {
                    impl_id: s.impl_id,
                    impl_function_id: s.impl_function_id,
                    trait_id: s.trait_id,
                    expected_ty: expected.ty,
                    actual_ty: actual.ty,
                },
            ),
        ],
    ) + when(
        expected.mutability == by_ref && actual.mutability != by_ref,
        seq![
            about(
                s,
                syntax.modifiers_ptr,
                SemanticDiagnosticKind::ParamaterShouldBeReference {
                    impl_id: s.impl_id,
                    impl_function_id: s.impl_function_id,
                    trait_id: s.trait_id,
                },
            ),
        ],
    ) + when(
        actual.mutability == by_ref && expected.mutability != by_ref,
        seq![
            about(
                s,
                syntax.modifiers_ptr,
                SemanticDiagnosticKind::ParamaterShouldNotBeReference {
                    impl_id: s.impl_id,
                    impl_function_id: s.impl_function_id,
                    trait_id: s.trait_id,
                },
            ),
        ],
    )
}

/// What is reported of the first `n` parameters.
pub open spec fn params_diagnostics(
    s: Subject,
    syntax: Seq<ParamSyntax>,
    actual: Seq<Parameter>,
    expected: Seq<Parameter>,
    n: int,
) -> Seq<SemanticDiagnostic>
    decreases n,
{
    if n <= 0 {
        Seq::empty()
    } else {
        params_diagnostics(s, syntax, actual, expected, n - 1) + param_diagnostics(
            s,
            syntax[n - 1],
            actual[n - 1],
            expected[n - 1],
        )
    }
}

/// How many parameters are compared: as many as both signatures have.
pub open spec fn common_len(actual: Seq<Parameter>, expected: Seq<Parameter>) -> int {
    if actual.len() <= expected.len() {
        actual.len() as int
    } else {
        expected.len() as int
    }
}

/// What is reported of the panics of the function.
pub open spec fn panic_diagnostics(
    s: Subject,
    syntax: FunctionSignatureSyntax,
    actual: Signature,
    expected: Signature,
) -> Seq<SemanticDiagnostic> {
    when(
        !expected.panicable && actual.panicable,
        seq![
            about(
                s,
                syntax.stable_ptr,
                SemanticDiagnosticKind::PassPanicAsNopanic {
                    impl_function_id: s.impl_function_id,
                    trait_id: s.trait_id,
                },
            ),
        ],
    )
}

/// What is reported of the return type: where it is written, or where the body begins.
pub open spec fn return_diagnostics(
    s: Subject,
    syntax: FunctionSignatureSyntax,
    actual: Signature,
    expected: Signature,
    function_syntax: ItemFreeFunction,
) -> Seq<SemanticDiagnostic> {
    when(
        expected.return_type != actual.return_type,
        seq![
            about(
                s,
                match syntax.ret_ty_ptr {
                    Some(ptr) => ptr,
                    None => function_syntax.body.lbrace_ptr,
                },
                SemanticDiagnosticKind::WrongReturnTypeForImpl {
                    impl_id: s.impl_id,
                    impl_function_id: s.impl_function_id,
                    trait_id: s.trait_id,
                    expected_ty: expected.return_type,
                    actual_ty: actual.return_type,
                },
            ),
        ],
    )
}

/// What is reported of a signature that must agree with that of the trait.
pub open spec fn signature_diagnostics(
    s: Subject,
    syntax: FunctionSignatureSyntax,
    actual: Signature,
    expected: Signature,
    function_syntax: ItemFreeFunction,
) -> Seq<SemanticDiagnostic> {
    count_diagnostics(s, syntax, actual.params@, expected.params@) + params_diagnostics(
        s,
        syntax.parameters@,
        actual.params@,
        expected.params@,
        common_len(actual.params@, expected.params@),
    ) + panic_diagnostics(s, syntax, actual, expected) + return_diagnostics(
        s,
        syntax,
        actual,
        expected,
        function_syntax,
    )
}

/// What is reported when the function is held against the trait of its impl.
pub open spec fn validation_of(
    db: &SemanticDb,
    impl_id: ImplId,
    impl_function_id: ImplFunctionId,
    long_id: ImplFunctionLongId,
    module_file_id: ModuleFileId,
    syntax: FunctionSignatureSyntax,
    signature: Signature,
    function_syntax: ItemFreeFunction,
) -> Seq<SemanticDiagnostic> {
    match declaration_of(db, impl_id, true) {
        None => Seq::empty(),
        Some(data) => match data.concrete_trait {
            None => Seq::empty(),
            Some(concrete_trait) => {
                let trait_id = db.concrete_traits@[concrete_trait.0 as int].trait_id;
                let s = Subject { module_file_id, impl_id, impl_function_id, trait_id };
                match db.trait_function_of(trait_id, (db.node_of(long_id.1)->0).name) {
                    Err(_) => Seq::empty(),
                    Ok(None) => seq![
                        about(
                            s,
                            function_syntax.stable_ptr,
                            SemanticDiagnosticKind::FunctionNotMemberOfTrait {
                                impl_id,
                                impl_function_id,
                                trait_id,
                            },
                        ),
                    ],
                    Ok(Some(trait_function_id)) => match db.trait_signature_of(trait_function_id) {
                        None => Seq::empty(),
                        Some(expected) => signature_diagnostics(
                            s,
                            syntax,
                            signature,
                            expected,
                            function_syntax,
                        ),
                    },
                }
            },
        },
    }
}

/// Whether the signature agrees with that of the trait: the same types, the same parameters passed
/// by reference, and no panic where the trait has none.
pub open spec fn agrees(actual: Signature, expected: Signature) -> bool {
    &&& actual.params@.len() == expected.params@.len()
    &&& forall|i: int|
        0 <= i < actual.params@.len() ==> (#[trigger] actual.params@[i]).ty
            == expected.params@[i].ty && (actual.params@[i].mutability == Mutability::Reference
            <==> expected.params@[i].mutability == Mutability::Reference)
    &&& actual.panicable ==> expected.panicable
    &&& actual.return_type == expected.return_type
}

/// A parameter is reported exactly when it differs.
proof fn lemma_param_diagnostics(
    s: Subject,
    syntax: Seq<ParamSyntax>,
    actual: Seq<Parameter>,
    expected: Seq<Parameter>,
    n: int,
)
    requires
        0 <= n <= actual.len(),
        n <= expected.len(),
    ensures
        params_diagnostics(s, syntax, actual, expected, n).len() == 0 <==> forall|i: int|
            0 <= i < n ==> (#[trigger] actual[i]).ty == expected[i].ty && (actual[i].mutability
                == Mutability::Reference <==> expected[i].mutability == Mutability::Reference),
    decreases n,
{
    if n > 0 {
        lemma_param_diagnostics(s, syntax, actual, expected, n - 1);
        let last = actual[n - 1];
        assert(param_diagnostics(s, syntax[n - 1], last, expected[n - 1]).len() == 0 <==> last.ty
            == expected[n - 1].ty && (last.mutability == Mutability::Reference
            <==> expected[n - 1].mutability == Mutability::Reference));
    }
}

/// Nothing is reported of a signature exactly when it agrees with that of the trait.
pub proof fn only_a_disagreement_is_reported(
    s: Subject,
    syntax: FunctionSignatureSyntax,
    actual: Signature,
    expected: Signature,
    function_syntax: ItemFreeFunction,
)
    ensures
        signature_diagnostics(s, syntax, actual, expected, function_syntax).len() == 0 <==> agrees(
            actual,
            expected,
        ),
{
    lemma_param_diagnostics(
        s,
        syntax.parameters@,
        actual.params@,
        expected.params@,
        common_len(actual.params@, expected.params@),
    );
}

/// Holds the signature against that of the trait.
fn validate_impl_function_signature(
    db: &SemanticDb,
    interners: &Interners,
    diagnostics: &mut SemanticDiagnostics,
    impl_id: ImplId,
    impl_function_id: ImplFunctionId,
    signature_syntax: &FunctionSignatureSyntax,
    signature: &Signature,
    function_syntax: &ItemFreeFunction,
)
    requires
        impl_ok(db, interners.types@, impl_id),
        impl_function_id.0 < interners.impl_functions@.len(),
        db.node_of(interners.impl_functions@[impl_function_id.0 as int].1) is Some,
        signature.params@.len() <= signature_syntax.parameters@.len(),
    ensures
        final(diagnostics)@ == old(diagnostics)@ + validation_of(
            db,
            impl_id,
            impl_function_id,
            interners.impl_functions@[impl_function_id.0 as int],
            old(diagnostics).module_file_id,
            *signature_syntax,
            *signature,
            *function_syntax,
        ),
        final(diagnostics).module_file_id == old(diagnostics).module_file_id,
{
    let ghost d0 = diagnostics@;
    let ghost long_id = interners.impl_functions@[impl_function_id.0 as int];
    let ghost whole = validation_of(
        db,
        impl_id,
        impl_function_id,
        long_id,
        diagnostics.module_file_id,
        *signature_syntax,
        *signature,
        *function_syntax,
    );
    assert(d0 + Seq::<SemanticDiagnostic>::empty() =~= d0);
    let declaraton_data = match priv_impl_declaration_data(db, impl_id) {
        Ok(declaraton_data) => declaraton_data,
        Err(_) => {
            return ;
        },
    };
    let concrete_trait = match declaraton_data.concrete_trait {
        Ok(concrete_trait) => concrete_trait,
        Err(_) => {
            return ;
        },
    };
    let trait_id = db.concrete_traits[concrete_trait.0].trait_id;
    let function_node = match interners.impl_functions.lookup(impl_function_id.0) {
        Some(long_id) => match db.function_node(long_id.1) {
            Some(node) => node,
            None => unreached(),
        },
        None => unreached(),
    };
    let trait_function = match db.trait_function_by_name(trait_id, &function_node.name) {
        Ok(trait_function) => trait_function,
        Err(_) => {
            return ;
        },
    };
    let ghost s = Subject {
        module_file_id: diagnostics.module_file_id,
        impl_id,
        impl_function_id,
        trait_id,
    };
    let trait_function_id = match trait_function {
        Some(trait_function_id) => trait_function_id,
        None => {
            diagnostics.report_by_ptr(
                function_syntax.stable_ptr,
                SemanticDiagnosticKind::FunctionNotMemberOfTrait {
                    impl_id,
                    impl_function_id,
                    trait_id,
                },
            );
            assert(diagnostics@ =~= d0 + whole);
            return ;
        },
    };
    let trait_signature = match db.trait_function_signature(trait_function_id) {
        Ok(trait_signature) => trait_signature,
        Err(_) => {
            return ;
        },
    };
    let ghost actual = signature.params@;
    let ghost expected = trait_signature.params@;
    if signature.params.len() != trait_signature.params.len() {
        diagnostics.report_by_ptr(
            signature_syntax.parameters_ptr,
            SemanticDiagnosticKind::WrongNumberOfParameters {
                impl_id,
                impl_function_id,
                trait_id,
                expected: trait_signature.params.len(),
                actual: signature.params.len(),
            },
        );
    }
    let ghost d1 = d0 + count_diagnostics(s, *signature_syntax, actual, expected);
    assert(diagnostics@ =~= d1);
    assert(d1 + params_diagnostics(s, signature_syntax.parameters@, actual, expected, 0) =~= d1);
    let mut idx: usize = 0;
    while idx < signature.params.len() && idx < trait_signature.params.len()
        invariant
            idx <= common_len(actual, expected),
            actual == signature.params@,
            expected == trait_signature.params@,
            actual.len() <= signature_syntax.parameters@.len(),
            s.impl_id == impl_id,
            s.impl_function_id == impl_function_id,
            s.trait_id == trait_id,
            s.module_file_id == diagnostics.module_file_id,
            diagnostics.module_file_id == old(diagnostics).module_file_id,
            diagnostics@ == d1 + params_diagnostics(
                s,
                signature_syntax.parameters@,
                actual,
                expected,
                idx as int,
            ),
        decreases signature.params@.len() - idx,
    {
        let ghost before = diagnostics@;
        let param = &signature.params[idx];
        let trait_param = &trait_signature.params[idx];
        let param_syntax = signature_syntax.parameters[idx];
        let expected_ty = trait_param.ty;
        let actual_ty = param.ty;
        if expected_ty != actual_ty {
            diagnostics.report_by_ptr(
                param_syntax.ty_ptr,
                SemanticDiagnosticKind::WrongParameterType {
                    impl_id,
                    impl_function_id,
                    trait_id,
                    expected_ty,
                    actual_ty,
                },
            );
        }
        if trait_param.mutability != param.mutability {
            if trait_param.mutability == Mutability::Reference {
                diagnostics.report_by_ptr(
                    param_syntax.modifiers_ptr,
                    SemanticDiagnosticKind::ParamaterShouldBeReference {
                        impl_id,
                        impl_function_id,
                        trait_id,
                    },
                );
            }
            if param.mutability == Mutability::Reference {
                diagnostics.report_by_ptr(
                    param_syntax.modifiers_ptr,
                    SemanticDiagnosticKind::ParamaterShouldNotBeReference {
                        impl_id,
                        impl_function_id,
                        trait_id,
                    },
                );
            }
        }
        proof {
            assert(diagnostics@ =~= before + param_diagnostics(
                s,
                param_syntax,
                *param,
                *trait_param,
            ));
            assert(diagnostics@ =~= d1 + params_diagnostics(
                s,
                signature_syntax.parameters@,
                actual,
                expected,
                idx + 1,
            ));
        }
        idx += 1;
    }
    let ghost d2 = diagnostics@;
    if !trait_signature.panicable && signature.panicable {
        diagnostics.report_by_ptr(
            signature_syntax.stable_ptr,
            SemanticDiagnosticKind::PassPanicAsNopanic { impl_function_id, trait_id },
        );
    }
    let ghost d3 = d2 + panic_diagnostics(s, *signature_syntax, *signature, *trait_signature);
    assert(diagnostics@ =~= d3);
    let expected_ty = trait_signature.return_type;
    let actual_ty = signature.return_type;
    if expected_ty != actual_ty {
        let location_ptr = match signature_syntax.ret_ty_ptr {
            Some(ret_ty_ptr) => ret_ty_ptr,
            None => function_syntax.body.lbrace_ptr,
        };
        diagnostics.report_by_ptr(
            location_ptr,
            SemanticDiagnosticKind::WrongReturnTypeForImpl {
                impl_id,
                impl_function_id,
                trait_id,
                expected_ty,
                actual_ty,
            },
        );
    }
    proof {
        assert(diagnostics@ =~= d3 + return_diagnostics(
            s,
            *signature_syntax,
            *signature,
            *trait_signature,
            *function_syntax,
        ));
        assert(diagnostics@ =~= d0 + whole);
    }
}

// === Declaration ===

/// What the declaration of a function with a body means.
#[derive(Debug, PartialEq, Eq)]
pub struct FunctionWithBodyDeclarationData<'a> {
    pub diagnostics: Vec<SemanticDiagnostic>,
    pub signature: &'a Signature,
    pub generic_params: Vec<GenericParamId>,
    pub environment: &'a Environment,
    pub attributes: &'a Vec<Attribute>,
    pub resolved_lookback: Arc<ResolvedLookback>,
}

/// The mathematical counterpart of [FunctionWithBodyDeclarationData].
#[verifier::ext_equal]
pub struct FunctionDeclarationModel {
    pub diagnostics: Seq<SemanticDiagnostic>,
    pub signature: Signature,
    pub generic_params: Seq<GenericParamId>,
    pub environment: Environment,
    pub attributes: Seq<Attribute>,
    pub lookback: LookbackModel,
}

impl<'a> View for FunctionWithBodyDeclarationData<'a> {
    type V = FunctionDeclarationModel;

    open spec fn view(&self) -> FunctionDeclarationModel {
        FunctionDeclarationModel {
            diagnostics: self.diagnostics@,
            signature: *self.signature,
            generic_params: self.generic_params@,
            environment: *self.environment,
            attributes: self.attributes@,
            lookback: self.resolved_lookback@,
        }
    }
}

/// The `impl` item around the function.
pub open spec fn impl_of(
    db: &SemanticDb,
    table: Seq<ImplFunctionLongId>,
    impl_function_id: ImplFunctionId,
) -> ImplId {
    (db.node_of(table[impl_function_id.0 as int].1)->0).impl_id
}

/// Whether the function is known: its place in the syntax tree, the impl around it, and, where the
/// definition of the impl is known, its syntax.
pub open spec fn function_ok(
    db: &SemanticDb,
    types: Seq<TypeModel>,
    table: Seq<ImplFunctionLongId>,
    impl_function_id: ImplFunctionId,
) -> bool {
    let impl_id = impl_of(db, table, impl_function_id);
    &&& impl_function_id.0 < table.len()
    &&& db.node_of(table[impl_function_id.0 as int].1) is Some
    &&& impl_ok(db, types, impl_id)
    &&& match definition_of(db, types, table, impl_id).1 {
        Some(data) => {
            &&& has_key(data.functions, impl_function_id)
            &&& function_syntax_ok(*lookup(data.functions, impl_function_id)->0)
        },
        None => true,
    }
}

/// Whether the parameters of the signature are written down.
pub open spec fn function_syntax_ok(f: ItemFreeFunction) -> bool {
    f.signature.semantic.params@.len() <= f.signature.parameters@.len()
}

/// What the declaration of the function means, when its syntax is known.
pub open spec fn function_declaration_from(
    db: &SemanticDb,
    impl_id: ImplId,
    impl_function_id: ImplFunctionId,
    long_id: ImplFunctionLongId,
    f: ItemFreeFunction,
) -> FunctionDeclarationModel {
    FunctionDeclarationModel {
        diagnostics: f.generic_params.diagnostics@ + f.signature.diagnostics@ + validation_of(
            db,
            impl_id,
            impl_function_id,
            long_id,
            long_id.0,
            f.signature,
            f.signature.semantic,
            f,
        ),
        signature: f.signature.semantic,
        generic_params: f.generic_params.params@,
        environment: f.signature.environment,
        attributes: f.attributes@,
        lookback: f.signature.lookback@,
    }
}

/// What the declaration of the function means, where the definition of its impl is known, and the
/// table of functions after it.
pub open spec fn function_declaration_of(
    db: &SemanticDb,
    types: Seq<TypeModel>,
    table: Seq<ImplFunctionLongId>,
    impl_function_id: ImplFunctionId,
) -> (Seq<ImplFunctionLongId>, Option<FunctionDeclarationModel>) {
    let impl_id = impl_of(db, table, impl_function_id);
    let (after, definition) = definition_of(db, types, table, impl_id);
    (
        after,
        match definition {
            Some(data) => Some(
                function_declaration_from(
                    db,
                    impl_id,
                    impl_function_id,
                    table[impl_function_id.0 as int],
                    *lookup(data.functions, impl_function_id)->0,
                ),
            ),
            None => None,
        },
    )
}

/// The counterpart of a declaration, where there is one.
pub open spec fn function_declaration_result(r: Maybe<FunctionWithBodyDeclarationData>) -> Option<
    FunctionDeclarationModel,
> {
    match r {
        Ok(data) => Some(data@),
        Err(_) => None,
    }
}

/// The definition of the impl around the function leaves the function as it was.
proof fn lemma_function_later(
    db: &SemanticDb,
    types: Seq<TypeModel>,
    table: Seq<ImplFunctionLongId>,
    impl_function_id: ImplFunctionId,
)
    requires
        function_ok(db, types, table, impl_function_id),
    ensures
        ({
            let impl_id = impl_of(db, table, impl_function_id);
            let (after, definition) = definition_of(db, types, table, impl_id);
            &&& function_ok(db, types, after, impl_function_id)
            &&& after[impl_function_id.0 as int] == table[impl_function_id.0 as int]
            &&& impl_of(db, after, impl_function_id) == impl_id
            &&& definition_of(db, types, after, impl_id) == (after, definition)
        }),
{
    let impl_id = impl_of(db, table, impl_function_id);
    let after = definition_of(db, types, table, impl_id).0;
    a_definition_extends_the_table(db, types, table, impl_id);
    a_definition_is_stable(db, types, table, impl_id, after);
}

/// What the declaration of the function means.
pub fn priv_impl_function_declaration_data<'a>(
    db: &'a SemanticDb,
    interners: &mut Interners,
    impl_function_id: ImplFunctionId,
) -> (r: Maybe<FunctionWithBodyDeclarationData<'a>>)
    requires
        function_ok(db, old(interners).types@, old(interners).impl_functions@, impl_function_id),
    ensures
        function_declaration_of(
            db,
            old(interners).types@,
            old(interners).impl_functions@,
            impl_function_id,
        ) == (final(interners).impl_functions@, function_declaration_result(r)),
        final(interners).types == old(interners).types,
        final(interners).concrete_impls == old(interners).concrete_impls,
{
    proof {
        lemma_function_later(db, interners.types@, interners.impl_functions@, impl_function_id);
    }
    let long_id = match interners.impl_functions.lookup(impl_function_id.0) {
        Some(long_id) => *long_id,
        None => unreached(),
    };
    let module_file_id = long_id.0;
    let mut diagnostics = SemanticDiagnostics::new(module_file_id);
    let impl_id = match db.function_node(long_id.1) {
        Some(node) => node.impl_id,
        None => unreached(),
    };
    let data = match priv_impl_definition_data(db, interners, impl_id) {
        Ok(data) => data,
        Err(diag_added) => {
            return Err(diag_added);
        },
    };
    let function_syntax = match data.function_asts.get(impl_function_id) {
        Some(function_syntax) => function_syntax,
        None => unreached(),
    };
    let generic_params = copy_vec(&function_syntax.generic_params.params);
    diagnostics.extend(&function_syntax.generic_params.diagnostics);
    let signature_syntax = &function_syntax.signature;
    let signature = &signature_syntax.semantic;
    diagnostics.extend(&signature_syntax.diagnostics);
    validate_impl_function_signature(
        db,
        interners,
        &mut diagnostics,
        impl_id,
        impl_function_id,
        signature_syntax,
        signature,
        function_syntax,
    );
    let resolved_lookback = Arc::new(signature_syntax.lookback.clone());
    let data = FunctionWithBodyDeclarationData {
        diagnostics: diagnostics.build(),
        signature,
        generic_params,
        environment: &signature_syntax.environment,
        attributes: &function_syntax.attributes,
        resolved_lookback,
    };
    assert(data@ =~= function_declaration_from(
        db,
        impl_id,
        impl_function_id,
        long_id,
        *function_syntax,
    ));
    Ok(data)
}

/// The signature of the function.
pub fn impl_function_signature<'a>(
    db: &'a SemanticDb,
    interners: &mut Interners,
    impl_function_id: ImplFunctionId,
) -> (r: Maybe<&'a Signature>)
    requires
        function_ok(db, old(interners).types@, old(interners).impl_functions@, impl_function_id),
    ensures
        ({
            let (table, declaration) = function_declaration_of(
                db,
                old(interners).types@,
                old(interners).impl_functions@,
                impl_function_id,
            );
            &&& final(interners).impl_functions@ == table
            &&& match declaration {
                Some(data) => r is Ok && *r->Ok_0 == data.signature,
                None => r is Err,
            }
        }),
        final(interners).types == old(interners).types,
        final(interners).concrete_impls == old(interners).concrete_impls,
{
    match priv_impl_function_declaration_data(db, interners, impl_function_id) {
        Ok(data) => Ok(data.signature),
        Err(diag_added) => Err(diag_added),
    }
}

/// The implicits that the function declares.
pub fn impl_function_declaration_implicits(
    db: &SemanticDb,
    interners: &mut Interners,
    impl_function_id: ImplFunctionId,
) -> (r: Maybe<Vec<TypeId>>)
    requires
        function_ok(db, old(interners).types@, old(interners).impl_functions@, impl_function_id),
    ensures
        ({
            let (table, declaration) = function_declaration_of(
                db,
                old(interners).types@,
                old(interners).impl_functions@,
                impl_function_id,
            );
            &&& final(interners).impl_functions@ == table
            &&& match declaration {
                Some(data) => r is Ok && r->Ok_0@ == data.signature.implicits@,
                None => r is Err,
            }
        }),
        final(interners).types == old(interners).types,
        final(interners).concrete_impls == old(interners).concrete_impls,
{
    match priv_impl_function_declaration_data(db, interners, impl_function_id) {
        Ok(data) => Ok(copy_vec(&data.signature.implicits)),
        Err(diag_added) => Err(diag_added),
    }
}

/// The generic parameters of the function.
pub fn impl_function_generic_params(
    db: &SemanticDb,
    interners: &mut Interners,
    impl_function_id: ImplFunctionId,
) -> (r: Maybe<Vec<GenericParamId>>)
    requires
        function_ok(db, old(interners).types@, old(interners).impl_functions@, impl_function_id),
    ensures
        ({
            let (table, declaration) = function_declaration_of(
                db,
                old(interners).types@,
                old(interners).impl_functions@,
                impl_function_id,
            );
            &&& final(interners).impl_functions@ == table
            &&& match declaration {
                Some(data) => r is Ok && r->Ok_0@ == data.generic_params,
                None => r is Err,
            }
        }),
        final(interners).types == old(interners).types,
        final(interners).concrete_impls == old(interners).concrete_impls,
{
    match priv_impl_function_declaration_data(db, interners, impl_function_id) {
        Ok(data) => Ok(data.generic_params),
        Err(diag_added) => Err(diag_added),
    }
}

/// The diagnostics of the declaration of the function.
pub open spec fn declaration_diagnostics_of(
    db: &SemanticDb,
    types: Seq<TypeModel>,
    table: Seq<ImplFunctionLongId>,
    impl_function_id: ImplFunctionId,
) -> Seq<SemanticDiagnostic> {
    match function_declaration_of(db, types, table, impl_function_id).1 {
        Some(data) => data.diagnostics,
        None => Seq::empty(),
    }
}

/// The diagnostics of the declaration of the function.
pub fn impl_function_declaration_diagnostics(
    db: &SemanticDb,
    interners: &mut Interners,
    impl_function_id: ImplFunctionId,
) -> (r: Vec<SemanticDiagnostic>)
    requires
        function_ok(db, old(interners).types@, old(interners).impl_functions@, impl_function_id),
    ensures
        r@ == declaration_diagnostics_of(
            db,
            old(interners).types@,
            old(interners).impl_functions@,
            impl_function_id,
        ),
        final(interners).impl_functions@ == function_declaration_of(
            db,
            old(interners).types@,
            old(interners).impl_functions@,
            impl_function_id,
        ).0,
        final(interners).types == old(interners).types,
        final(interners).concrete_impls == old(interners).concrete_impls,
{
    match priv_impl_function_declaration_data(db, interners, impl_function_id) {
        Ok(data) => data.diagnostics,
        Err(_) => Vec::new(),
    }
}

/// What the identifiers of the declaration of the function were resolved to.
pub fn impl_function_resolved_lookback(
    db: &SemanticDb,
    interners: &mut Interners,
    impl_function_id: ImplFunctionId,
) -> (r: Maybe<Arc<ResolvedLookback>>)
    requires
        function_ok(db, old(interners).types@, old(interners).impl_functions@, impl_function_id),
    ensures
        ({
            let (table, declaration) = function_declaration_of(
                db,
                old(interners).types@,
                old(interners).impl_functions@,
                impl_function_id,
            );
            &&& final(interners).impl_functions@ == table
            &&& match declaration {
                Some(data) => r is Ok && r->Ok_0@ == data.lookback,
                None => r is Err,
            }
        }),
        final(interners).types == old(interners).types,
        final(interners).concrete_impls == old(interners).concrete_impls,
{
    match priv_impl_function_declaration_data(db, interners, impl_function_id) {
        Ok(data) => Ok(data.resolved_lookback),
        Err(diag_added) => Err(diag_added),
    }
}

// === Body ===

/// What the body of a function means.
#[derive(Debug, PartialEq, Eq)]
pub struct FunctionBodyData<'a> {
    pub diagnostics: Vec<SemanticDiagnostic>,
    /// The expressions by their places.
    pub expr_lookup: OrderedMap<SyntaxStablePtrId, ExprId>,
    pub resolved_lookback: Arc<ResolvedLookback>,
    pub body: Arc<FunctionBody<'a>>,
}

/// The mathematical counterpart of [FunctionBody].
#[verifier::ext_equal]
pub struct BodyModel {
    pub exprs: Seq<Expr>,
    pub statements: Seq<Statement>,
    pub body_expr: ExprId,
    pub direct_callees: Seq<FunctionId>,
}

/// The mathematical counterpart of [FunctionBodyData].
#[verifier::ext_equal]
pub struct BodyDataModel {
    pub diagnostics: Seq<SemanticDiagnostic>,
    pub expr_lookup: Seq<(SyntaxStablePtrId, ExprId)>,
    pub lookback: LookbackModel,
    pub body: BodyModel,
}

impl<'a> View for FunctionBody<'a> {
    type V = BodyModel;

    open spec fn view(&self) -> BodyModel {
        BodyModel {
            exprs: self.exprs@.map_values(|e: &'a Expr| *e),
            statements: self.statements@,
            body_expr: self.body_expr,
            direct_callees: self.direct_callees@,
        }
    }
}

impl<'a> View for FunctionBodyData<'a> {
    type V = BodyDataModel;

    open spec fn view(&self) -> BodyDataModel {
        BodyDataModel {
            diagnostics: self.diagnostics@,
            expr_lookup: self.expr_lookup@,
            lookback: self.resolved_lookback@,
            body: self.body@,
        }
    }
}

/// The counterpart of a body, where there is one.
pub open spec fn body_result(r: Maybe<FunctionBodyData>) -> Option<BodyDataModel> {
    match r {
        Ok(data) => Some(data@),
        Err(_) => None,
    }
}

/// Whether the type could not be found out.
pub open spec fn is_missing(types: Seq<TypeModel>, ty: TypeId) -> bool {
    ty.0 < types.len() && types[ty.0 as int] is Missing
}

/// Whether the type could not be found out.
fn type_is_missing(types: &TypeInterner, ty: TypeId) -> (r: bool)
    ensures
        r == is_missing(types@, ty),
{
    match types.lookup(ty.0) {
        Some(TypeLongId::Missing(_)) => true,
        _ => false,
    }
}

/// Whether a body of the type does not fit the return type.
pub open spec fn is_wrong_return(
    db: &SemanticDb,
    types: Seq<TypeModel>,
    expr_ty: TypeId,
    return_type: TypeId,
) -> bool {
    &&& expr_ty != return_type
    &&& !is_missing(types, expr_ty)
    &&& !is_missing(types, return_type)
    &&& expr_ty != db.never_ty
}

/// The functions that the first `n` expressions call, each one once.
pub open spec fn callees_of(exprs: Seq<Expr>, n: int) -> Seq<FunctionId>
    decreases n,
{
    if n <= 0 || n > exprs.len() {
        Seq::empty()
    } else {
        let before = callees_of(exprs, n - 1);
        match exprs[n - 1] {
            Expr::FunctionCall(call) => if before.contains(call.function) {
                before
            } else {
                before.push(call.function)
            },
            _ => before,
        }
    }
}

/// The first `n` expressions by their places. Of several in one place it is the last.
pub open spec fn lookup_of(exprs: Seq<Expr>, n: int) -> Seq<(SyntaxStablePtrId, ExprId)>
    decreases n,
{
    if n <= 0 || n > exprs.len() {
        Seq::empty()
    } else {
        assign(lookup_of(exprs, n - 1), exprs[n - 1].ptr_of(), ExprId((n - 1) as usize))
    }
}

/// What the body means when the type checker made something of it: the block comes after the
/// expressions inside it.
pub open spec fn body_from(
    db: &SemanticDb,
    types: Seq<TypeModel>,
    module_file_id: ModuleFileId,
    body_ptr: SyntaxStablePtrId,
    return_type: TypeId,
    computed: ComputedBody,
) -> BodyDataModel {
    let exprs = computed.exprs@.push(computed.block);
    BodyDataModel {
        diagnostics: computed.diagnostics@ + when(
            is_wrong_return(db, types, computed.block.ty_of(), return_type),
            seq![
                SemanticDiagnostic {
                    module_file_id,
                    stable_ptr: body_ptr,
                    kind: SemanticDiagnosticKind::WrongReturnType {
                        expected_ty: return_type,
                        actual_ty: computed.block.ty_of(),
                    },
                },
            ],
        ),
        expr_lookup: lookup_of(exprs, exprs.len() as int),
        lookback: computed.lookback@,
        body: BodyModel {
            exprs,
            statements: computed.statements@,
            body_expr: ExprId(computed.exprs@.len() as usize),
            direct_callees: callees_of(exprs, exprs.len() as int),
        },
    }
}

/// What the body of the function means, where it is known, and the table of functions after it.
pub open spec fn function_body_of(
    db: &SemanticDb,
    types: Seq<TypeModel>,
    table: Seq<ImplFunctionLongId>,
    impl_function_id: ImplFunctionId,
) -> (Seq<ImplFunctionLongId>, Option<BodyDataModel>) {
    let (table1, definition) = definition_of(
        db,
        types,
        table,
        impl_of(db, table, impl_function_id),
    );
    match definition {
        None => (table1, None),
        Some(data) => {
            let f = *lookup(data.functions, impl_function_id)->0;
            let (table2, declaration) = function_declaration_of(
                db,
                types,
                table1,
                impl_function_id,
            );
            match (declaration, f.body.computed) {
                (Some(declaration), Ok(computed)) => (
                    table2,
                    Some(
                        body_from(
                            db,
                            types,
                            table[impl_function_id.0 as int].0,
                            f.body.stable_ptr,
                            declaration.signature.return_type,
                            computed,
                        ),
                    ),
                ),
                _ => (table2, None),
            }
        },
    }
}

/// The callees of a body are the functions that its expressions call, and none is there twice.
pub proof fn callees_are_the_called_functions(exprs: Seq<Expr>, n: int)
    requires
        0 <= n <= exprs.len(),
    ensures
        callees_of(exprs, n).no_duplicates(),
        forall|f: FunctionId| #[trigger]
            callees_of(exprs, n).contains(f) <==> exists|i: int|
                0 <= i < n && is_call_of(#[trigger] exprs[i], f),
    decreases n,
{
    if n > 0 {
        callees_are_the_called_functions(exprs, n - 1);
        let before = callees_of(exprs, n - 1);
        let after = callees_of(exprs, n);
        assert forall|f: FunctionId| #[trigger] after.contains(f) <==> exists|i: int|
            0 <= i < n && is_call_of(#[trigger] exprs[i], f) by {
            if after.contains(f) {
                if before.contains(f) {
                    let i = choose|i: int| 0 <= i < n - 1 && is_call_of(#[trigger] exprs[i], f);
                    assert(is_call_of(exprs[i], f));
                } else {
                    let k = choose|k: int| 0 <= k < after.len() && after[k] == f;
                    assert(after == before.push((exprs[n - 1]->FunctionCall_0).function));
                    if k < before.len() {
                        assert(before[k] == f);
                    }
                    assert(is_call_of(exprs[n - 1], f));
                }
            }
            if exists|i: int| 0 <= i < n && is_call_of(#[trigger] exprs[i], f) {
                let i = choose|i: int| 0 <= i < n && is_call_of(#[trigger] exprs[i], f);
                if i < n - 1 {
                    assert(before.contains(f));
                    let k = choose|k: int| 0 <= k < before.len() && before[k] == f;
                    assert(after[k] == f);
                } else if !before.contains(f) {
                    assert(after[before.len() as int] == f);
                }
            }
        }
    }
}

/// Whether the expression is a call of the function.
pub open spec fn is_call_of(e: Expr, f: FunctionId) -> bool {
    match e {
        Expr::FunctionCall(call) => call.function == f,
        _ => false,
    }
}

/// Every expression of a body is found by its place, unless a later one stands in the same place.
pub proof fn expressions_are_found_by_their_places(exprs: Seq<Expr>, n: int, i: int)
    requires
        0 <= i < n <= exprs.len() <= usize::MAX,
        forall|j: int| i < j < n ==> (#[trigger] exprs[j]).ptr_of() != exprs[i].ptr_of(),
    ensures
        lookup(lookup_of(exprs, n), exprs[i].ptr_of()) == Some(ExprId(i as usize)),
    decreases n,
{
    let before = lookup_of(exprs, n - 1);
    lemma_lookup_assign(before, exprs[n - 1].ptr_of(), ExprId((n - 1) as usize));
    if i < n - 1 {
        expressions_are_found_by_their_places(exprs, n - 1, i);
    }
}

/// The functions that the expressions call, each one once.
fn collect_callees(exprs: &Vec<&Expr>) -> (r: Vec<FunctionId>)
    ensures
        r@ == callees_of(exprs@.map_values(|e: &Expr| *e), exprs@.len() as int),
{
    let ghost es = exprs@.map_values(|e: &Expr| *e);
    let mut r: Vec<FunctionId> = Vec::new();
    let mut i: usize = 0;
    assert(r@ =~= Seq::empty());
    while i < exprs.len()
        invariant
            i <= exprs@.len(),
            es == exprs@.map_values(|e: &Expr| *e),
            r@ == callees_of(es, i as int),
        decreases exprs@.len() - i,
    {
        assert(es[i as int] == *exprs@[i as int]);
        if let Expr::FunctionCall(call) = exprs[i] {
            if !contains_key(&r, call.function) {
                r.push(call.function);
            }
        }
        i += 1;
    }
    r
}

/// The expressions by their places.
fn collect_lookup(exprs: &Vec<&Expr>) -> (r: OrderedMap<SyntaxStablePtrId, ExprId>)
    ensures
        r@ == lookup_of(exprs@.map_values(|e: &Expr| *e), exprs@.len() as int),
{
    let ghost es = exprs@.map_values(|e: &Expr| *e);
    let mut r: OrderedMap<SyntaxStablePtrId, ExprId> = OrderedMap::new();
    let mut i: usize = 0;
    while i < exprs.len()
        invariant
            i <= exprs@.len(),
            es == exprs@.map_values(|e: &Expr| *e),
            r@ == lookup_of(es, i as int),
        decreases exprs@.len() - i,
    {
        assert(es[i as int] == *exprs@[i as int]);
        r.put(exprs[i].stable_ptr(), ExprId(i));
        i += 1;
    }
    r
}

/// What the body of the function means.
pub fn priv_impl_function_body_data<'a>(
    db: &'a SemanticDb,
    interners: &mut Interners,
    impl_function_id: ImplFunctionId,
) -> (r: Maybe<FunctionBodyData<'a>>)
    requires
        function_ok(db, old(interners).types@, old(interners).impl_functions@, impl_function_id),
    ensures
        function_body_of(
            db,
            old(interners).types@,
            old(interners).impl_functions@,
            impl_function_id,
        ) == (final(interners).impl_functions@, body_result(r)),
        final(interners).types == old(interners).types,
        final(interners).concrete_impls == old(interners).concrete_impls,
{
    proof {
        lemma_function_later(db, interners.types@, interners.impl_functions@, impl_function_id);
    }
    let long_id = match interners.impl_functions.lookup(impl_function_id.0) {
        Some(long_id) => *long_id,
        None => unreached(),
    };
    let module_file_id = long_id.0;
    let mut diagnostics = SemanticDiagnostics::new(module_file_id);
    let impl_id = match db.function_node(long_id.1) {
        Some(node) => node.impl_id,
        None => unreached(),
    };
    let data = match priv_impl_definition_data(db, interners, impl_id) {
        Ok(data) => data,
        Err(diag_added) => {
            return Err(diag_added);
        },
    };
    let function_syntax = match data.function_asts.get(impl_function_id) {
        Some(function_syntax) => function_syntax,
        None => unreached(),
    };
    // Compute declaration semantic.
    let declaration = match priv_impl_function_declaration_data(db, interners, impl_function_id) {
        Ok(declaration) => declaration,
        Err(diag_added) => {
            return Err(diag_added);
        },
    };
    // Compute body semantic expr.
    let function_body = &function_syntax.body;
    let computed = match &function_body.computed {
        Ok(computed) => computed,
        Err(diag_added) => {
            return Err(*diag_added);
        },
    };
    diagnostics.extend(&computed.diagnostics);
    let expr_ty = computed.block.ty();
    let return_type = declaration.signature.return_type;
    if expr_ty != return_type && !type_is_missing(&interners.types, expr_ty) && !type_is_missing(
        &interners.types,
        return_type,
    ) && expr_ty != db.never_ty {
        diagnostics.report_by_ptr(
            function_body.stable_ptr,
            SemanticDiagnosticKind::WrongReturnType {
                expected_ty: return_type,
                actual_ty: expr_ty,
            },
        );
    }
    let mut exprs: Vec<&'a Expr> = Vec::new();
    let mut i: usize = 0;
    while i < computed.exprs.len()
        invariant
            i <= computed.exprs@.len(),
            exprs@.len() == i,
            forall|j: int| 0 <= j < i ==> *(#[trigger] exprs@[j]) == computed.exprs@[j],
        decreases computed.exprs@.len() - i,
    {
        exprs.push(&computed.exprs[i]);
        i += 1;
    }
    let body_expr = ExprId(exprs.len());
    exprs.push(&computed.block);
    assert(exprs@.map_values(|e: &'a Expr| *e) =~= computed.exprs@.push(computed.block));
    let direct_callees = collect_callees(&exprs);
    let expr_lookup = collect_lookup(&exprs);
    let resolved_lookback = Arc::new(computed.lookback.clone());
    let data = FunctionBodyData {
        diagnostics: diagnostics.build(),
        expr_lookup,
        resolved_lookback,
        body: Arc::new(
            FunctionBody { exprs, statements: &computed.statements, body_expr, direct_callees },
        ),
    };
    assert(data@ =~= body_from(
        db,
        interners.types@,
        module_file_id,
        function_body.stable_ptr,
        return_type,
        *computed,
    ));
    Ok(data)
}

/// The diagnostics of the body of the function.
pub open spec fn body_diagnostics_of(
    db: &SemanticDb,
    types: Seq<TypeModel>,
    table: Seq<ImplFunctionLongId>,
    impl_function_id: ImplFunctionId,
) -> Seq<SemanticDiagnostic> {
    match function_body_of(db, types, table, impl_function_id).1 {
        Some(data) => data.diagnostics,
        None => Seq::empty(),
    }
}

/// The diagnostics of the body of the function.
pub fn impl_function_body_diagnostics(
    db: &SemanticDb,
    interners: &mut Interners,
    impl_function_id: ImplFunctionId,
) -> (r: Vec<SemanticDiagnostic>)
    requires
        function_ok(db, old(interners).types@, old(interners).impl_functions@, impl_function_id),
    ensures
        r@ == body_diagnostics_of(
            db,
            old(interners).types@,
            old(interners).impl_functions@,
            impl_function_id,
        ),
        final(interners).impl_functions@ == function_body_of(
            db,
            old(interners).types@,
            old(interners).impl_functions@,
            impl_function_id,
        ).0,
        final(interners).types == old(interners).types,
        final(interners).concrete_impls == old(interners).concrete_impls,
{
    match priv_impl_function_body_data(db, interners, impl_function_id) {
        Ok(data) => data.diagnostics,
        Err(_) => Vec::new(),
    }
}

/// The body of the function.
pub fn impl_function_body<'a>(
    db: &'a SemanticDb,
    interners: &mut Interners,
    impl_function_id: ImplFunctionId,
) -> (r: Maybe<Arc<FunctionBody<'a>>>)
    requires
        function_ok(db, old(interners).types@, old(interners).impl_functions@, impl_function_id),
    ensures
        ({
            let (table, body) = function_body_of(
                db,
                old(interners).types@,
                old(interners).impl_functions@,
                impl_function_id,
            );
            &&& final(interners).impl_functions@ == table
            &&& match body {
                Some(data) => r is Ok && r->Ok_0@ == data.body,
                None => r is Err,
            }
        }),
        final(interners).types == old(interners).types,
        final(interners).concrete_impls == old(interners).concrete_impls,
{
    match priv_impl_function_body_data(db, interners, impl_function_id) {
        Ok(data) => Ok(data.body),
        Err(diag_added) => Err(diag_added),
    }
}

/// What the identifiers of the body of the function were resolved to.
pub fn impl_function_body_resolved_lookback(
    db: &SemanticDb,
    interners: &mut Interners,
    impl_function_id: ImplFunctionId,
) -> (r: Maybe<Arc<ResolvedLookback>>)
    requires
        function_ok(db, old(interners).types@, old(interners).impl_functions@, impl_function_id),
    ensures
        ({
            let (table, body) = function_body_of(
                db,
                old(interners).types@,
                old(interners).impl_functions@,
                impl_function_id,
            );
            &&& final(interners).impl_functions@ == table
            &&& match body {
                Some(data) => r is Ok && r->Ok_0@ == data.lookback,
                None => r is Err,
            }
        }),
        final(interners).types == old(interners).types,
        final(interners).concrete_impls == old(interners).concrete_impls,
{
    match priv_impl_function_body_data(db, interners, impl_function_id) {
        Ok(data) => Ok(data.resolved_lookback),
        Err(diag_added) => Err(diag_added),
    }
}

// === All diagnostics of an impl ===

/// Whether the functions among the items of the impl are known as functions of the impl.
pub open spec fn functions_ok(db: &SemanticDb, impl_id: ImplId) -> bool {
    match impl_ast_of(db, impl_id) {
        Some(item) => forall|f: ItemFreeFunction| #[trigger]
            is_item(items_of(item), f) ==> {
                &&& db.node_of(f.stable_ptr) is Some
                &&& (db.node_of(f.stable_ptr)->0).impl_id == impl_id
                &&& function_syntax_ok(f)
            },
        None => true,
    }
}

/// The diagnostics of the declarations and bodies of the first `n` functions.
pub open spec fn functions_diagnostics<'a>(
    db: &SemanticDb,
    types: Seq<TypeModel>,
    table: Seq<ImplFunctionLongId>,
    functions: Seq<(ImplFunctionId, &'a ItemFreeFunction)>,
    n: int,
) -> Seq<SemanticDiagnostic>
    decreases n,
{
    if n <= 0 {
        Seq::empty()
    } else {
        functions_diagnostics(db, types, table, functions, n - 1) + declaration_diagnostics_of(
            db,
            types,
            table,
            functions[n - 1].0,
        ) + body_diagnostics_of(db, types, table, functions[n - 1].0)
    }
}

/// The diagnostics of the definition of the impl and of its functions, in order.
pub open spec fn definition_diagnostics_of(
    db: &SemanticDb,
    types: Seq<TypeModel>,
    table: Seq<ImplFunctionLongId>,
    impl_id: ImplId,
) -> Seq<SemanticDiagnostic> {
    let (after, definition) = definition_of(db, types, table, impl_id);
    match definition {
        Some(data) => data.diagnostics + functions_diagnostics(
            db,
            types,
            after,
            data.functions,
            data.functions.len() as int,
        ),
        None => Seq::empty(),
    }
}

/// After the definition of an impl, its functions are known.
proof fn lemma_functions_known(
    db: &SemanticDb,
    types: Seq<TypeModel>,
    table: Seq<ImplFunctionLongId>,
    impl_id: ImplId,
    k: int,
)
    requires
        impl_ok(db, types, impl_id),
        functions_ok(db, impl_id),
        definition_of(db, types, table, impl_id).0.len() <= usize::MAX,
        definition_of(db, types, table, impl_id).1 is Some,
        0 <= k < (definition_of(db, types, table, impl_id).1->0).functions.len(),
    ensures
        ({
            let (after, definition) = definition_of(db, types, table, impl_id);
            let id = (definition->0).functions[k].0;
            &&& function_ok(db, types, after, id)
            &&& function_declaration_of(db, types, after, id).0 == after
            &&& function_body_of(db, types, after, id).0 == after
        }),
{
    let (after, definition) = definition_of(db, types, table, impl_id);
    let functions = (definition->0).functions;
    let id = functions[k].0;
    functions_lead_back(db, types, table, impl_id);
    a_definition_is_stable(db, types, table, impl_id, after);
    assert(is_item(items_of(impl_ast_of(db, impl_id)->0), *functions[k].1));
    lemma_no_key(functions, id);
    assert(has_key(functions, id));
    let j = key_index(functions, id);
    assert(is_first(functions, id, j));
    assert(is_item(items_of(impl_ast_of(db, impl_id)->0), *functions[j].1));
}

/// The diagnostics of the definition of the impl and of its functions, in order.
pub fn impl_semantic_definition_diagnostics(
    db: &SemanticDb,
    interners: &mut Interners,
    impl_id: ImplId,
) -> (r: Vec<SemanticDiagnostic>)
    requires
        impl_ok(db, old(interners).types@, impl_id),
        functions_ok(db, impl_id),
    ensures
        r@ == definition_diagnostics_of(
            db,
            old(interners).types@,
            old(interners).impl_functions@,
            impl_id,
        ),
        final(interners).impl_functions@ == definition_of(
            db,
            old(interners).types@,
            old(interners).impl_functions@,
            impl_id,
        ).0,
        final(interners).types == old(interners).types,
        final(interners).concrete_impls == old(interners).concrete_impls,
{
    let ghost types = interners.types@;
    let ghost table = interners.impl_functions@;
    let data = match priv_impl_definition_data(db, interners, impl_id) {
        Ok(data) => data,
        Err(_) => {
            return Vec::new();
        },
    };
    let ghost after = interners.impl_functions@;
    let ghost functions = data.function_asts@;
    let ghost first = data.diagnostics@;
    let mut diagnostics = data.diagnostics;
    let entries = &data.function_asts.entries;
    let mut i: usize = 0;
    assert(first + functions_diagnostics(db, types, after, functions, 0) =~= first);
    while i < entries.len()
        invariant
            i <= entries@.len(),
            entries@ == functions,
            impl_ok(db, types, impl_id),
            functions_ok(db, impl_id),
            definition_of(db, types, table, impl_id).0 == after,
            definition_of(db, types, table, impl_id).1 is Some,
            (definition_of(db, types, table, impl_id).1->0).functions == functions,
            interners.types@ == types,
            interners.types == old(interners).types,
            interners.concrete_impls == old(interners).concrete_impls,
            interners.impl_functions@ == after,
            diagnostics@ == first + functions_diagnostics(db, types, after, functions, i as int),
        decreases entries@.len() - i,
    {
        proof {
            assert(interners.impl_functions.items.len() == after.len());
            lemma_functions_known(db, types, table, impl_id, i as int);
        }
        let impl_function_id = entries[i].0;
        let of_declaration = impl_function_declaration_diagnostics(db, interners, impl_function_id);
        let of_body = impl_function_body_diagnostics(db, interners, impl_function_id);
        extend_copies(&mut diagnostics, &of_declaration);
        extend_copies(&mut diagnostics, &of_body);
        i += 1;
        assert(diagnostics@ =~= first + functions_diagnostics(
            db,
            types,
            after,
            functions,
            i as int,
        ));
    }
    diagnostics
}

} // verus!

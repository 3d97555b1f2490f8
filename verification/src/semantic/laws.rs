//! What the semantic model of `impl` items is for: what is reported of a function and where, what
//! an impl keeps of its items, and what its declaration says.
use crate::collections::{begins, lemma_lookup_assign, lookup};
use crate::diagnostics::DiagnosticAdded;
use crate::ids::{
    ConcreteTraitId, ExprId, FunctionId, ImplFunctionId, ImplId, ModuleFileId, SyntaxStablePtrId,
    TraitFunctionId, TraitId, TypeId,
};
use crate::interner::{interning_is_stable, short_id};
use crate::semantic::db::{
    concrete_variant_from, type_info_from, variant_from, ConcreteVariantEntry, TypeInfoEntry,
    VariantEntry,
};
use crate::semantic::diagnostic::{ItemKeyword, SemanticDiagnostic, SemanticDiagnosticKind};
use crate::semantic::expr::Expr;
use crate::semantic::imp::{
    a_definition_extends_the_table, a_definition_is_stable, allows, context_of, declaration_of,
    definition_of, every_other_item_is_reported, first_items, impl_ast_of, implementor_of,
    inner_check, inner_types_of, invalid_items, items_of, lemma_items_extend, special_check,
    special_diagnostics, with_item, with_items, ItemsModel, LookupModel,
};
use crate::semantic::impl_function::{
    body_diagnostics_of, callees_are_the_called_functions, count_diagnostics,
    declaration_diagnostics_of, definition_diagnostics_of, expressions_are_found_by_their_places,
    function_body_of, function_declaration_of, functions_diagnostics, is_call_of, panic_diagnostics,
    param_diagnostics, params_diagnostics, return_diagnostics, signature_diagnostics, validation_of,
    Subject,
};
use crate::semantic::program::{
    module_from, named_from, node_from, FunctionNode, ImplFunctionLongId, ModuleEntry, SemanticDb,
};
use crate::semantic::syntax::{
    ComputedBody, FunctionSignatureSyntax, Item, ItemFreeFunction, ItemImpl, ResolvedConcreteItem,
};
use crate::semantic::types::{ConcreteTypeId, Mutability, Parameter, Signature, TypeModel};
use vstd::prelude::*;

verus! {

// === Signatures ===

/// A signature of an impl, and that of the trait that it must agree with.
pub struct Comparison {
    pub subject: Subject,
    pub syntax: FunctionSignatureSyntax,
    pub actual: Signature,
    pub expected: Signature,
    pub function_syntax: ItemFreeFunction,
}

/// What is reported of the comparison.
pub open spec fn reported(c: Comparison) -> Seq<SemanticDiagnostic> {
    signature_diagnostics(c.subject, c.syntax, c.actual, c.expected, c.function_syntax)
}

/// Whether it is reported at the place that the signatures have different numbers of parameters.
pub open spec fn is_count_fault(
    c: Comparison,
    ptr: SyntaxStablePtrId,
    kind: SemanticDiagnosticKind,
) -> bool {
    &&& c.actual.params@.len() != c.expected.params@.len()
    &&& ptr == c.syntax.parameters_ptr
    &&& kind == SemanticDiagnosticKind::WrongNumberOfParameters {
        impl_id: c.subject.impl_id,
        impl_function_id: c.subject.impl_function_id,
        trait_id: c.subject.trait_id,
        expected: c.expected.params@.len() as usize,
        actual: c.actual.params@.len() as usize,
    }
}

/// Whether it is reported at the place that the parameter has another type in the trait.
pub open spec fn is_type_fault(
    c: Comparison,
    i: int,
    ptr: SyntaxStablePtrId,
    kind: SemanticDiagnosticKind,
) -> bool {
    &&& c.actual.params@[i].ty != c.expected.params@[i].ty
    &&& ptr == c.syntax.parameters@[i].ty_ptr
    &&& kind == SemanticDiagnosticKind::WrongParameterType {
        impl_id: c.subject.impl_id,
        impl_function_id: c.subject.impl_function_id,
        trait_id: c.subject.trait_id,
        expected_ty: c.expected.params@[i].ty,
        actual_ty: c.actual.params@[i].ty,
    }
}

/// Whether the parameter is passed by reference.
pub open spec fn by_reference(p: Parameter) -> bool {
    p.mutability == Mutability::Reference
}

/// Whether it is reported at the place that only one of the two parameters is passed by reference.
pub open spec fn is_reference_fault(
    c: Comparison,
    i: int,
    ptr: SyntaxStablePtrId,
    kind: SemanticDiagnosticKind,
) -> bool {
    &&& by_reference(c.actual.params@[i]) != by_reference(c.expected.params@[i])
    &&& ptr == c.syntax.parameters@[i].modifiers_ptr
    &&& kind == if by_reference(c.expected.params@[i]) {
        SemanticDiagnosticKind::ParamaterShouldBeReference {
            impl_id: c.subject.impl_id,
            impl_function_id: c.subject.impl_function_id,
            trait_id: c.subject.trait_id,
        }
    } else {
        SemanticDiagnosticKind::ParamaterShouldNotBeReference {
            impl_id: c.subject.impl_id,
            impl_function_id: c.subject.impl_function_id,
            trait_id: c.subject.trait_id,
        }
    }
}

/// Whether it is reported at the place that the function may panic and that of the trait may not.
pub open spec fn is_panic_fault(
    c: Comparison,
    ptr: SyntaxStablePtrId,
    kind: SemanticDiagnosticKind,
) -> bool {
    &&& c.actual.panicable
    &&& !c.expected.panicable
    &&& ptr == c.syntax.stable_ptr
    &&& kind == SemanticDiagnosticKind::PassPanicAsNopanic {
        impl_function_id: c.subject.impl_function_id,
        trait_id: c.subject.trait_id,
    }
}

/// Whether it is reported at the place that the return types differ: where the type is written, and
/// where the body begins if none is.
pub open spec fn is_return_fault(
    c: Comparison,
    ptr: SyntaxStablePtrId,
    kind: SemanticDiagnosticKind,
) -> bool {
    &&& c.actual.return_type != c.expected.return_type
    &&& c.syntax.ret_ty_ptr matches Some(written) ==> ptr == written
    &&& c.syntax.ret_ty_ptr is None ==> ptr == c.function_syntax.body.lbrace_ptr
    &&& kind == SemanticDiagnosticKind::WrongReturnTypeForImpl {
        impl_id: c.subject.impl_id,
        impl_function_id: c.subject.impl_function_id,
        trait_id: c.subject.trait_id,
        expected_ty: c.expected.return_type,
        actual_ty: c.actual.return_type,
    }
}

/// How many parameters both signatures have.
pub open spec fn shared_params(c: Comparison) -> int {
    if c.actual.params@.len() < c.expected.params@.len() {
        c.actual.params@.len() as int
    } else {
        c.expected.params@.len() as int
    }
}

/// A point at which two signatures can differ, in the order in which they are compared.
pub open spec fn type_point(i: int) -> int {
    1 + 2 * i
}

/// The point at which the ways that a parameter is passed can differ.
pub open spec fn reference_point(i: int) -> int {
    2 + 2 * i
}

/// Whether a difference at the point is reported so: first the number of parameters, then the type
/// of each parameter that both signatures have and the way it is passed, then the panics, and at
/// last the return type.
pub open spec fn is_fault_at(c: Comparison, at: int, d: SemanticDiagnostic) -> bool {
    let n = shared_params(c);
    &&& d.module_file_id == c.subject.module_file_id
    &&& {
        ||| at == 0 && is_count_fault(c, d.stable_ptr, d.kind)
        ||| exists|i: int|
            0 <= i < n && at == #[trigger] type_point(i) && is_type_fault(
                c,
                i,
                d.stable_ptr,
                d.kind,
            )
        ||| exists|i: int|
            0 <= i < n && at == #[trigger] reference_point(i) && is_reference_fault(
                c,
                i,
                d.stable_ptr,
                d.kind,
            )
        ||| at == 1 + 2 * n && is_panic_fault(c, d.stable_ptr, d.kind)
        ||| at == 2 + 2 * n && is_return_fault(c, d.stable_ptr, d.kind)
    }
}

/// Whether the diagnostics are those of the differences before the point, one of each, in order.
pub open spec fn lists_faults(
    c: Comparison,
    ds: Seq<SemanticDiagnostic>,
    points: Seq<int>,
    before: int,
) -> bool {
    &&& points.len() == ds.len()
    &&& forall|k: int|
        0 <= k < ds.len() ==> 0 <= #[trigger] points[k] < before && is_fault_at(
            c,
            points[k],
            ds[k],
        )
    &&& forall|k: int, l: int|
        0 <= k < l < points.len() ==> #[trigger] points[k] < #[trigger] points[l]
    &&& forall|at: int, d: SemanticDiagnostic|
        0 <= at < before && #[trigger] is_fault_at(c, at, d) ==> points.contains(at)
}

proof fn lemma_next_point(
    c: Comparison,
    ds: Seq<SemanticDiagnostic>,
    points: Seq<int>,
    at: int,
    more: Seq<SemanticDiagnostic>,
) -> (r: Seq<int>)
    requires
        at >= 0,
        lists_faults(c, ds, points, at),
        more.len() <= 1,
        more.len() == 1 ==> is_fault_at(c, at, more[0]),
        more.len() == 0 ==> forall|d: SemanticDiagnostic| !is_fault_at(c, at, d),
    ensures
        lists_faults(c, ds + more, r, at + 1),
{
    if more.len() == 0 {
        assert(ds + more =~= ds);
        points
    } else {
        let r = points.push(at);
        assert forall|a: int, d: SemanticDiagnostic|
            0 <= a < at + 1 && #[trigger] is_fault_at(c, a, d) implies r.contains(a) by {
            if a < at {
                let k = choose|k: int| 0 <= k < points.len() && points[k] == a;
                assert(r[k] == a);
            } else {
                assert(r[points.len() as int] == a);
            }
        }
        r
    }
}

proof fn lemma_params_faults(c: Comparison, n: int) -> (r: Seq<int>)
    requires
        0 <= n <= shared_params(c),
    ensures
        lists_faults(
            c,
            count_diagnostics(c.subject, c.syntax, c.actual.params@, c.expected.params@)
                + params_diagnostics(
                c.subject,
                c.syntax.parameters@,
                c.actual.params@,
                c.expected.params@,
                n,
            ),
            r,
            1 + 2 * n,
        ),
    decreases n,
{
    let (s, a, e) = (c.subject, c.actual.params@, c.expected.params@);
    let first = count_diagnostics(s, c.syntax, a, e);
    let ds = first + params_diagnostics(s, c.syntax.parameters@, a, e, n);
    if n == 0 {
        let none = Seq::<SemanticDiagnostic>::empty();
        if a.len() == e.len() {
            assert forall|d: SemanticDiagnostic| !is_fault_at(c, 0, d) by {}
        } else {
            assert(is_fault_at(c, 0, first[0]));
        }
        let r = lemma_next_point(c, none, Seq::empty(), 0, first);
        assert(none + first =~= ds);
        r
    } else {
        let before = first + params_diagnostics(s, c.syntax.parameters@, a, e, n - 1);
        let r0 = lemma_params_faults(c, n - 1);
        let own = param_diagnostics(s, c.syntax.parameters@[n - 1], a[n - 1], e[n - 1]);
        let differ = a[n - 1].ty != e[n - 1].ty;
        let of_type = if differ {
            own.take(1)
        } else {
            Seq::empty()
        };
        let rest = own.skip(of_type.len() as int);
        assert(own =~= of_type + rest);
        let (at_type, at_reference) = (type_point(n - 1), reference_point(n - 1));
        if differ {
            assert(is_type_fault(c, n - 1, of_type[0].stable_ptr, of_type[0].kind));
            assert(is_fault_at(c, at_type, of_type[0]));
        } else {
            assert forall|d: SemanticDiagnostic| !is_fault_at(c, at_type, d) by {}
        }
        let r1 = lemma_next_point(c, before, r0, at_type, of_type);
        if by_reference(a[n - 1]) != by_reference(e[n - 1]) {
            assert(rest.len() == 1);
            assert(is_reference_fault(c, n - 1, rest[0].stable_ptr, rest[0].kind));
            assert(is_fault_at(c, at_reference, rest[0]));
        } else {
            assert(rest.len() == 0);
            assert forall|d: SemanticDiagnostic| !is_fault_at(c, at_reference, d) by {}
        }
        let r2 = lemma_next_point(c, before + of_type, r1, at_reference, rest);
        assert(before + of_type + rest =~= ds);
        r2
    }
}

/// A function of an impl is reported for every difference from the function of the trait, and for
/// nothing else: once each, where the difference is written, and in the order of the signature.
pub proof fn every_difference_is_reported_in_order(c: Comparison) -> (points: Seq<int>)
    ensures
        lists_faults(
            c,
            reported(c),
            points,
            3 + 2 * shared_params(c),
        ),
{
    let n = shared_params(c);
    let ds = count_diagnostics(c.subject, c.syntax, c.actual.params@, c.expected.params@)
        + params_diagnostics(
        c.subject,
        c.syntax.parameters@,
        c.actual.params@,
        c.expected.params@,
        n,
    );
    let r0 = lemma_params_faults(c, n);
    let of_panic = panic_diagnostics(c.subject, c.syntax, c.actual, c.expected);
    let of_return = return_diagnostics(
        c.subject,
        c.syntax,
        c.actual,
        c.expected,
        c.function_syntax,
    );
    let (at_panic, at_return) = (1 + 2 * n, 2 + 2 * n);
    if of_panic.len() == 1 {
        assert(is_fault_at(c, at_panic, of_panic[0]));
    } else {
        assert forall|d: SemanticDiagnostic| !is_fault_at(c, at_panic, d) by {}
    }
    let r1 = lemma_next_point(c, ds, r0, at_panic, of_panic);
    if of_return.len() == 1 {
        assert(is_fault_at(c, at_return, of_return[0]));
    } else {
        assert forall|d: SemanticDiagnostic| !is_fault_at(c, at_return, d) by {}
    }
    lemma_next_point(c, ds + of_panic, r1, at_return, of_return)
}

// === The function of the trait ===

/// Whether the node is the first of the table in its place.
pub open spec fn is_first_node(nodes: Seq<FunctionNode>, i: int) -> bool {
    &&& 0 <= i < nodes.len()
    &&& forall|j: int| 0 <= j < i ==> (#[trigger] nodes[j]).stable_ptr != nodes[i].stable_ptr
}

proof fn lemma_first_node(nodes: Seq<FunctionNode>, i: int, from: int)
    requires
        is_first_node(nodes, i),
        0 <= from <= i,
    ensures
        node_from(nodes, nodes[i].stable_ptr, from) == Some(nodes[i]),
    decreases i - from,
{
    if from < i {
        lemma_first_node(nodes, i, from + 1);
    }
}

/// Whether the function is the first of the list with the name.
pub open spec fn is_first_named(
    functions: Seq<(String, TraitFunctionId)>,
    name: Seq<char>,
    i: int,
) -> bool {
    &&& 0 <= i < functions.len()
    &&& functions[i].0@ == name
    &&& forall|j: int| 0 <= j < i ==> (#[trigger] functions[j]).0@ != name
}

/// Whether no function of the list has the name.
pub open spec fn none_named(functions: Seq<(String, TraitFunctionId)>, name: Seq<char>) -> bool {
    forall|j: int| 0 <= j < functions.len() ==> (#[trigger] functions[j]).0@ != name
}

proof fn lemma_first_named(
    functions: Seq<(String, TraitFunctionId)>,
    name: String,
    i: int,
    from: int,
)
    requires
        is_first_named(functions, name@, i),
        0 <= from <= i,
    ensures
        named_from(functions, name, from) == Some(functions[i].1),
    decreases i - from,
{
    if from < i {
        lemma_first_named(functions, name, i, from + 1);
    }
}

proof fn lemma_none_named(functions: Seq<(String, TraitFunctionId)>, name: String, from: int)
    requires
        none_named(functions, name@),
        0 <= from <= functions.len(),
    ensures
        named_from(functions, name, from) is None,
    decreases functions.len() - from,
{
    if from < functions.len() {
        lemma_none_named(functions, name, from + 1);
    }
}

/// A function of an impl, and where its impl and its name are written down.
pub struct Placed {
    pub impl_function_id: ImplFunctionId,
    pub long_id: ImplFunctionLongId,
    pub function_syntax: ItemFreeFunction,
    /// The place of the function in the table of nodes.
    pub node: int,
    pub concrete_trait: ConcreteTraitId,
}

/// The trait that the impl of the function implements.
pub open spec fn trait_of(db: &SemanticDb, p: Placed) -> TraitId {
    db.concrete_traits@[p.concrete_trait.0 as int].trait_id
}

/// The impl around the function.
pub open spec fn impl_around(db: &SemanticDb, p: Placed) -> ImplId {
    db.function_nodes@[p.node].impl_id
}

/// The name of the function.
pub open spec fn name_of(db: &SemanticDb, p: Placed) -> Seq<char> {
    db.function_nodes@[p.node].name@
}

/// Whether the function stands in the impl, and the impl implements the trait.
pub open spec fn is_placed(db: &SemanticDb, p: Placed) -> bool {
    &&& is_first_node(db.function_nodes@, p.node)
    &&& db.function_nodes@[p.node].stable_ptr == p.long_id.1
    &&& declaration_of(db, impl_around(db, p), true) matches Some(data)
        && data.concrete_trait == Some(p.concrete_trait)
}

/// What is reported of the function when it is held against the trait.
pub open spec fn reported_of(db: &SemanticDb, p: Placed) -> Seq<SemanticDiagnostic> {
    validation_of(
        db,
        impl_around(db, p),
        p.impl_function_id,
        p.long_id,
        p.long_id.0,
        p.function_syntax.signature,
        p.function_syntax.signature.semantic,
        p.function_syntax,
    )
}

/// The signature of the function, held against a signature of the trait.
pub open spec fn held_against(db: &SemanticDb, p: Placed, expected: Signature) -> Comparison {
    Comparison {
        subject: Subject {
            module_file_id: p.long_id.0,
            impl_id: impl_around(db, p),
            impl_function_id: p.impl_function_id,
            trait_id: trait_of(db, p),
        },
        syntax: p.function_syntax.signature,
        actual: p.function_syntax.signature.semantic,
        expected,
        function_syntax: p.function_syntax,
    }
}

/// A function of an impl is held against the function of the trait that has its name.
pub proof fn a_function_is_held_against_its_namesake(
    db: &SemanticDb,
    p: Placed,
    functions: Vec<(String, TraitFunctionId)>,
    i: int,
    expected: Signature,
)
    requires
        is_placed(db, p),
        trait_of(db, p).0 < db.traits@.len(),
        db.traits@[trait_of(db, p).0 as int] == Ok::<_, DiagnosticAdded>(functions),
        is_first_named(functions@, name_of(db, p), i),
        functions@[i].1.0 < db.trait_functions@.len(),
        db.trait_functions@[functions@[i].1.0 as int] == Ok::<_, DiagnosticAdded>(expected),
    ensures
        reported_of(db, p) == reported(held_against(db, p, expected)),
{
    lemma_first_node(db.function_nodes@, p.node, 0);
    lemma_first_named(functions@, db.function_nodes@[p.node].name, i, 0);
}

/// A function of an impl that the trait has no function of the same name for is reported, once,
/// where it stands.
pub proof fn a_function_without_a_namesake_is_reported(
    db: &SemanticDb,
    p: Placed,
    functions: Vec<(String, TraitFunctionId)>,
)
    requires
        is_placed(db, p),
        trait_of(db, p).0 < db.traits@.len(),
        db.traits@[trait_of(db, p).0 as int] == Ok::<_, DiagnosticAdded>(functions),
        none_named(functions@, name_of(db, p)),
    ensures
        reported_of(db, p).len() == 1,
        reported_of(db, p)[0].module_file_id == p.long_id.0,
        reported_of(db, p)[0].stable_ptr == p.function_syntax.stable_ptr,
        reported_of(db, p)[0].kind == (SemanticDiagnosticKind::FunctionNotMemberOfTrait {
            impl_id: impl_around(db, p),
            impl_function_id: p.impl_function_id,
            trait_id: trait_of(db, p),
        }),
{
    lemma_first_node(db.function_nodes@, p.node, 0);
    lemma_none_named(functions@, db.function_nodes@[p.node].name, 0);
}

// === The items of an impl ===

/// Whether the item is not a function, and has the keyword in the place.
pub open spec fn begins_with(item: Item, ptr: SyntaxStablePtrId, keyword: ItemKeyword) -> bool {
    ||| item == Item::Constant(ptr) && keyword is Const
    ||| item == Item::Module(ptr) && keyword is Mod
    ||| item == Item::Use(ptr) && keyword is Use
    ||| item == Item::ExternFunction(ptr) && keyword is ExternFn
    ||| item == Item::ExternType(ptr) && keyword is ExternType
    ||| item == Item::Trait(ptr) && keyword is Trait
    ||| item == Item::Impl(ptr) && keyword is Impl
    ||| item == Item::Struct(ptr) && keyword is Struct
    ||| item == Item::Enum(ptr) && keyword is Enum
    ||| item == Item::TypeAlias(ptr) && keyword is Type
}

/// Whether it is reported that the item cannot stand in an impl.
pub open spec fn is_refusal_of(
    module_file_id: ModuleFileId,
    item: Item,
    d: SemanticDiagnostic,
) -> bool {
    &&& d.module_file_id == module_file_id
    &&& d.kind matches SemanticDiagnosticKind::InvalidImplItem { item_kw } && begins_with(
        item,
        d.stable_ptr,
        item_kw,
    )
}

/// Whether the diagnostics from the place `from` on are the refusals of the items in the places,
/// and every other of the first `n` items is a function.
pub open spec fn lists_refusals(
    module_file_id: ModuleFileId,
    items: Seq<Item>,
    n: int,
    ds: Seq<SemanticDiagnostic>,
    from: int,
    places: Seq<int>,
) -> bool {
    &&& ds.len() == from + places.len()
    &&& forall|k: int|
        0 <= k < places.len() ==> 0 <= #[trigger] places[k] < n && is_refusal_of(
            module_file_id,
            items[places[k]],
            ds[from + k],
        )
    &&& forall|k: int, l: int|
        0 <= k < l < places.len() ==> #[trigger] places[k] < #[trigger] places[l]
    &&& forall|i: int|
        0 <= i < n && !(#[trigger] items[i] is FreeFunction) ==> places.contains(i)
}

proof fn lemma_refusals(
    module_file_id: ModuleFileId,
    items: Seq<Item>,
    n: int,
    first: Seq<SemanticDiagnostic>,
) -> (places: Seq<int>)
    requires
        0 <= n <= items.len(),
    ensures
        lists_refusals(
            module_file_id,
            items,
            n,
            first + invalid_items(module_file_id, items, n),
            first.len() as int,
            places,
        ),
    decreases n,
{
    if n == 0 {
        Seq::empty()
    } else {
        let before = lemma_refusals(module_file_id, items, n - 1, first);
        let ds0 = first + invalid_items(module_file_id, items, n - 1);
        let ds = first + invalid_items(module_file_id, items, n);
        assert forall|k: int| 0 <= k < ds0.len() implies ds0[k] == #[trigger] ds[k] by {}
        if items[n - 1] is FreeFunction {
            assert(ds =~= ds0);
            before
        } else {
            let places = before.push(n - 1);
            assert forall|i: int| 0 <= i < n && !(#[trigger] items[i] is FreeFunction) implies
                places.contains(i) by {
                if i < n - 1 {
                    let k = choose|k: int| 0 <= k < before.len() && before[k] == i;
                    assert(places[k] == i);
                } else {
                    assert(places[before.len() as int] == i);
                }
            }
            assert(is_refusal_of(module_file_id, items[n - 1], ds[ds0.len() as int]));
            assert forall|k: int| 0 <= k < places.len() implies 0 <= #[trigger] places[k] < n
                && is_refusal_of(
                module_file_id,
                items[places[k]],
                ds[first.len() + k],
            ) by {
                if k < before.len() {
                    assert(before[k] == places[k]);
                }
            }
            places
        }
    }
}

// === Copy and Drop ===

/// Whether the type has the part: a member, a variant or an item of the type.
pub open spec fn has_part(
    db: &SemanticDb,
    types: Seq<TypeModel>,
    ty: TypeId,
    part: TypeId,
) -> bool {
    match types[ty.0 as int] {
        TypeModel::Concrete(ConcreteTypeId::Struct(id)) => id.0 < db.concrete_structs@.len()
            && match db.concrete_structs@[id.0 as int] {
            Ok(members) => exists|k: int|
                0 <= k < members@.len() && (#[trigger] members@[k]).ty == part,
            Err(_) => false,
        },
        TypeModel::Concrete(ConcreteTypeId::Enum(id)) => id.0 < db.concrete_enums@.len()
            && match db.concrete_enums@[id.0 as int].variants {
            Ok(variants) => exists|k: int|
                0 <= k < variants@.len() && (#[trigger] variants@[k]).ty == part,
            Err(_) => false,
        },
        TypeModel::Tuple(tys) => exists|k: int| 0 <= k < tys.len() && #[trigger] tys[k] == part,
        _ => false,
    }
}

/// Whether the entry is the first about the type in the context.
pub open spec fn is_first_info(
    entries: Seq<TypeInfoEntry>,
    context: LookupModel,
    ty: TypeId,
    i: int,
) -> bool {
    &&& 0 <= i < entries.len()
    &&& entries[i].ty == ty
    &&& entries[i].context@ == context
    &&& forall|j: int|
        0 <= j < i ==> (#[trigger] entries[j]).ty != ty || entries[j].context@ != context
}

/// Whether it is known that the values of the type cannot be duplicated (`copy`) or dropped.
pub open spec fn lacks(db: &SemanticDb, context: LookupModel, ty: TypeId, copy: bool) -> bool {
    exists|i: int| #[trigger]
        is_first_info(db.type_infos@, context, ty, i) && (db.type_infos@[i].info matches Ok(info)
            && (copy ==> !info.duplicatable) && (!copy ==> !info.droppable))
}

/// Whether a part of the type is known to lack the trait.
pub open spec fn some_part_lacks(
    db: &SemanticDb,
    types: Seq<TypeModel>,
    context: LookupModel,
    ty: TypeId,
    copy: bool,
) -> bool {
    exists|part: TypeId| #[trigger]
        has_part(db, types, ty, part) && lacks(db, context, part, copy)
}

/// What is known of a type in a context is what the first entry about it says.
pub proof fn the_first_entry_tells_of_the_type(
    entries: Seq<TypeInfoEntry>,
    context: LookupModel,
    ty: TypeId,
    i: int,
    from: int,
)
    requires
        is_first_info(entries, context, ty, i),
        0 <= from <= i,
    ensures
        type_info_from(entries, context, ty, from) == entries[i].info,
    decreases i - from,
{
    if from < i {
        the_first_entry_tells_of_the_type(entries, context, ty, i, from + 1);
    }
}

proof fn lemma_info_is_of_an_entry(
    entries: Seq<TypeInfoEntry>,
    context: LookupModel,
    ty: TypeId,
    from: int,
) -> (i: int)
    requires
        0 <= from <= entries.len(),
        forall|j: int|
            0 <= j < from ==> (#[trigger] entries[j]).ty != ty || entries[j].context@ != context,
        type_info_from(entries, context, ty, from) is Ok,
    ensures
        is_first_info(entries, context, ty, i),
    decreases entries.len() - from,
{
    if from < entries.len() && (entries[from].ty != ty || entries[from].context@ != context) {
        lemma_info_is_of_an_entry(entries, context, ty, from + 1)
    } else {
        from
    }
}

proof fn lemma_lacks(db: &SemanticDb, context: LookupModel, ty: TypeId, copy: bool)
    ensures
        lacks(db, context, ty, copy) <==> !allows(db, context, ty, copy),
{
    let entries = db.type_infos@;
    if lacks(db, context, ty, copy) {
        let i = choose|i: int| #[trigger]
            is_first_info(entries, context, ty, i) && (entries[i].info matches Ok(info)
                && (copy ==> !info.duplicatable) && (!copy ==> !info.droppable));
        the_first_entry_tells_of_the_type(entries, context, ty, i, 0);
    }
    if !allows(db, context, ty, copy) {
        let i = lemma_info_is_of_an_entry(entries, context, ty, 0);
        the_first_entry_tells_of_the_type(entries, context, ty, i, 0);
    }
}

proof fn lemma_inner_check(
    db: &SemanticDb,
    types: Seq<TypeModel>,
    context: LookupModel,
    ty: TypeId,
    copy: bool,
)
    ensures
        inner_check(db, types, context, ty, copy) is Refused <==> some_part_lacks(
            db,
            types,
            context,
            ty,
            copy,
        ),
{
    let check = inner_check(db, types, context, ty, copy);
    match inner_types_of(db, types, ty) {
        Some(tys) => {
            if check is Refused {
                let i = choose|i: int|
                    0 <= i < tys.len() && !allows(db, context, #[trigger] tys[i], copy);
                lemma_lacks(db, context, tys[i], copy);
                assert(has_part(db, types, ty, tys[i]));
            }
            if some_part_lacks(db, types, context, ty, copy) {
                let part = choose|part: TypeId| #[trigger]
                    has_part(db, types, ty, part) && lacks(db, context, part, copy);
                lemma_lacks(db, context, part, copy);
                assert(tys.contains(part)) by {
                    lemma_part_is_inner(db, types, ty, part);
                }
                let i = choose|i: int| 0 <= i < tys.len() && tys[i] == part;
                assert(!allows(db, context, tys[i], copy));
            }
        },
        None => {},
    }
}

proof fn lemma_part_is_inner(db: &SemanticDb, types: Seq<TypeModel>, ty: TypeId, part: TypeId)
    requires
        has_part(db, types, ty, part),
    ensures
        inner_types_of(db, types, ty) matches Some(tys) && tys.contains(part),
{
    let tys = inner_types_of(db, types, ty)->0;
    match types[ty.0 as int] {
        TypeModel::Concrete(ConcreteTypeId::Struct(id)) => {
            let members = db.concrete_structs@[id.0 as int]->Ok_0@;
            let k = choose|k: int| 0 <= k < members.len() && (#[trigger] members[k]).ty == part;
            assert(tys[k] == part);
        },
        TypeModel::Concrete(ConcreteTypeId::Enum(id)) => {
            let variants = db.concrete_enums@[id.0 as int].variants->Ok_0@;
            let k = choose|k: int| 0 <= k < variants.len() && (#[trigger] variants[k]).ty == part;
            assert(tys[k] == part);
        },
        _ => {},
    }
}

/// Whether the impl of the trait is refused for the reason: the type is made of a part that lacks
/// the trait. An impl of another trait than Copy and Drop is not refused.
pub open spec fn is_refused_for(
    db: &SemanticDb,
    types: Seq<TypeModel>,
    context: LookupModel,
    concrete_trait: ConcreteTraitId,
    kind: SemanticDiagnosticKind,
) -> bool {
    let long_id = db.concrete_traits@[concrete_trait.0 as int];
    let ty = long_id.generic_args@[0]->Type_0;
    let of_copy = long_id.trait_id == db.copy_trait && some_part_lacks(
        db,
        types,
        context,
        ty,
        true,
    );
    let of_drop = long_id.trait_id == db.drop_trait && some_part_lacks(
        db,
        types,
        context,
        ty,
        false,
    );
    ||| of_copy && kind == SemanticDiagnosticKind::InvalidCopyTraitImpl
    ||| of_drop && !of_copy && (long_id.trait_id == db.copy_trait ==> inner_types_of(
        db,
        types,
        ty,
    ) is Some) && kind == SemanticDiagnosticKind::InvalidDropTraitImpl
}

/// The definition of an impl reports, in the file of the impl and in this order: the refusal of the
/// impl, where the impl stands, if a part of its type lacks the trait, and the refusal of every
/// item that is not a function.
pub proof fn a_definition_reports_what_is_refused(
    db: &SemanticDb,
    types: Seq<TypeModel>,
    table: Seq<ImplFunctionLongId>,
    impl_id: ImplId,
    item: ItemImpl,
    concrete_trait: ConcreteTraitId,
) -> (places: Seq<int>)
    requires
        impl_ast_of(db, impl_id) == Some(item),
        item.trait_path.resolved == Ok::<_, DiagnosticAdded>(
            ResolvedConcreteItem::Trait(concrete_trait),
        ),
    ensures
        definition_of(db, types, table, impl_id).1 matches Some(data) && {
            let file = db.impls@[impl_id.0 as int];
            let context = LookupModel {
                module_id: file.0,
                extra_modules: Seq::empty(),
                generic_params: item.generic_params.params@,
            };
            let items = items_of(item);
            let ds = data.diagnostics;
            if exists|kind| #[trigger] is_refused_for(db, types, context, concrete_trait, kind) {
                &&& ds.len() > 0
                &&& ds[0].module_file_id == file
                &&& ds[0].stable_ptr == item.stable_ptr
                &&& is_refused_for(db, types, context, concrete_trait, ds[0].kind)
                &&& lists_refusals(file, items, items.len() as int, ds, 1, places)
            } else {
                lists_refusals(file, items, items.len() as int, ds, 0, places)
            }
        },
{
    let file = db.impls@[impl_id.0 as int];
    let context = LookupModel {
        module_id: file.0,
        extra_modules: Seq::empty(),
        generic_params: item.generic_params.params@,
    };
    let declaration = declaration_of(db, impl_id, true)->0;
    assert(context_of(db, impl_id, declaration.generic_params) =~= context);
    let check = special_check(db, types, context, concrete_trait);
    let first = special_diagnostics(file, item.stable_ptr, check);
    let ty = implementor_of(db, concrete_trait);
    lemma_inner_check(db, types, context, ty, true);
    lemma_inner_check(db, types, context, ty, false);
    every_other_item_is_reported(db, types, table, impl_id);
    if check is Refused {
        assert(is_refused_for(db, types, context, concrete_trait, check->Refused_0));
    } else {
        assert forall|kind| !#[trigger] is_refused_for(
            db,
            types,
            context,
            concrete_trait,
            kind,
        ) by {}
    }
    let items = items_of(item);
    lemma_refusals(file, items, items.len() as int, first)
}

// === The functions of an impl ===

/// Whether no item from the place on is a function in the place of the syntax tree.
pub open spec fn no_function_at(items: Seq<Item>, from: int, ptr: SyntaxStablePtrId) -> bool {
    forall|l: int|
        from <= l < items.len() ==> (#[trigger] items[l] matches Item::FreeFunction(g)
            ==> g.stable_ptr != ptr)
}

proof fn lemma_kept_later<'a>(
    file: ModuleFileId,
    m: ItemsModel<'a>,
    items: Seq<Item>,
    i: int,
    id: ImplFunctionId,
    func: &'a ItemFreeFunction,
)
    requires
        0 <= i <= items.len(),
        id.0 < m.table.len(),
        m.table[id.0 as int] == ImplFunctionLongId(file, func.stable_ptr),
        lookup(m.functions, id) == Some(func),
        no_function_at(items, i, func.stable_ptr),
        with_items(file, m, items, i).table.len() <= usize::MAX,
    ensures
        begins(m.table, with_items(file, m, items, i).table),
        lookup(with_items(file, m, items, i).functions, id) == Some(func),
    decreases items.len() - i,
{
    if i < items.len() {
        let m1 = with_item(file, m, &items[i]);
        lemma_items_extend(file, m1, items, i + 1);
        match &items[i] {
            Item::FreeFunction(g) => {
                let long_id = ImplFunctionLongId(file, g.stable_ptr);
                let other = ImplFunctionId(short_id(m.table, long_id) as usize);
                interning_is_stable(m.table, long_id);
                assert(m1.table[id.0 as int] == m.table[id.0 as int]);
                assert(other != id);
                lemma_lookup_assign(m.functions, other, g);
            },
            _ => {},
        }
        lemma_kept_later(file, m1, items, i + 1, id, func);
    }
}

proof fn lemma_kept<'a>(
    file: ModuleFileId,
    m: ItemsModel<'a>,
    items: Seq<Item>,
    i: int,
    k: int,
) -> (id: ImplFunctionId)
    requires
        0 <= i <= k < items.len(),
        items[k] is FreeFunction,
        no_function_at(items, k + 1, (items[k]->FreeFunction_0).stable_ptr),
        with_items(file, m, items, i).table.len() <= usize::MAX,
    ensures
        ({
            let last = with_items(file, m, items, i);
            let func = items[k]->FreeFunction_0;
            &&& id.0 < last.table.len()
            &&& last.table[id.0 as int] == ImplFunctionLongId(file, func.stable_ptr)
            &&& lookup(last.functions, id) == Some(&func)
        }),
    decreases k - i,
{
    let m1 = with_item(file, m, &items[i]);
    if i < k {
        lemma_kept(file, m1, items, i + 1, k)
    } else {
        let func = items[k]->FreeFunction_0;
        let long_id = ImplFunctionLongId(file, func.stable_ptr);
        let id = ImplFunctionId(short_id(m.table, long_id) as usize);
        lemma_items_extend(file, m1, items, i + 1);
        interning_is_stable(m.table, long_id);
        lemma_lookup_assign(m.functions, id, &func);
        lemma_kept_later(file, m1, items, i + 1, id, &func);
        id
    }
}

/// Every function of an impl is kept under an identifier that leads back to its file and its place,
/// unless a later function stands in the same place.
pub proof fn every_function_is_kept(
    db: &SemanticDb,
    types: Seq<TypeModel>,
    table: Seq<ImplFunctionLongId>,
    impl_id: ImplId,
    k: int,
) -> (id: ImplFunctionId)
    requires
        definition_of(db, types, table, impl_id).1 is Some,
        definition_of(db, types, table, impl_id).0.len() <= usize::MAX,
        0 <= k < items_of(impl_ast_of(db, impl_id)->0).len(),
        items_of(impl_ast_of(db, impl_id)->0)[k] is FreeFunction,
        no_function_at(
            items_of(impl_ast_of(db, impl_id)->0),
            k + 1,
            (items_of(impl_ast_of(db, impl_id)->0)[k]->FreeFunction_0).stable_ptr,
        ),
    ensures
        ({
            let (after, definition) = definition_of(db, types, table, impl_id);
            let func = items_of(impl_ast_of(db, impl_id)->0)[k]->FreeFunction_0;
            &&& id.0 < after.len()
            &&& after[id.0 as int].0 == db.impls@[impl_id.0 as int]
            &&& after[id.0 as int].1 == func.stable_ptr
            &&& lookup((definition->0).functions, id) == Some(&func)
        }),
{
    let item = impl_ast_of(db, impl_id)->0;
    let declaration = declaration_of(db, impl_id, true)->0;
    let m = first_items(
        db,
        types,
        table,
        impl_id,
        declaration,
        declaration.concrete_trait->0,
        item,
    );
    lemma_kept(db.impls@[impl_id.0 as int], m, items_of(item), 0, k)
}

// === Declarations and bodies ===

/// The declaration of an impl says what is written in it: its generic parameters, its attributes,
/// and the trait that its path stands for. It reports what was reported of the generic parameters
/// and of the path, and then, where the path stands, if it is not that of a trait.
pub proof fn a_declaration_says_what_is_written(db: &SemanticDb, impl_id: ImplId, item: ItemImpl)
    requires
        impl_ast_of(db, impl_id) == Some(item),
    ensures
        declaration_of(db, impl_id, true) matches Some(data) && {
            let of_params = item.generic_params.diagnostics@;
            let of_path = item.trait_path.diagnostics@;
            let ds = data.diagnostics;
            let n = of_params.len() + of_path.len();
            &&& data.generic_params == item.generic_params.params@
            &&& data.attributes == item.attributes@
            &&& data.lookback == item.trait_path.lookback@
            &&& item.trait_path.resolved matches Ok(ResolvedConcreteItem::Trait(t))
                ==> data.concrete_trait == Some(t)
            &&& data.concrete_trait matches Some(t) ==> item.trait_path.resolved == Ok::<
                _,
                DiagnosticAdded,
            >(ResolvedConcreteItem::Trait(t))
            &&& forall|k: int| 0 <= k < of_params.len() ==> #[trigger] ds[k] == of_params[k]
            &&& forall|k: int|
                0 <= k < of_path.len() ==> ds[of_params.len() + k] == #[trigger] of_path[k]
            &&& if data.concrete_trait is Some {
                ds.len() == n
            } else {
                &&& ds.len() == n + 1
                &&& ds[n as int].module_file_id == db.impls@[impl_id.0 as int]
                &&& ds[n as int].stable_ptr == item.trait_path.stable_ptr
                &&& ds[n as int].kind == SemanticDiagnosticKind::NotATrait
            }
        },
{
}

/// Whether the function is known under the identifier in the definition of its impl.
pub open spec fn is_known(
    db: &SemanticDb,
    types: Seq<TypeModel>,
    table: Seq<ImplFunctionLongId>,
    p: Placed,
) -> bool {
    &&& is_placed(db, p)
    &&& p.impl_function_id.0 < table.len()
    &&& table[p.impl_function_id.0 as int] == p.long_id
    &&& definition_of(db, types, table, impl_around(db, p)).1 matches Some(data) && lookup(
        data.functions,
        p.impl_function_id,
    ) == Some(&p.function_syntax)
}

/// The declaration of a function says what is written in it. It reports what was reported of its
/// generic parameters and of its signature, and then what is found against the trait.
pub proof fn a_function_declaration_says_what_is_written(
    db: &SemanticDb,
    types: Seq<TypeModel>,
    table: Seq<ImplFunctionLongId>,
    p: Placed,
)
    requires
        is_known(db, types, table, p),
    ensures
        function_declaration_of(db, types, table, p.impl_function_id).1 matches Some(data) && {
            let f = p.function_syntax;
            let of_params = f.generic_params.diagnostics@;
            let of_signature = f.signature.diagnostics@;
            let found = reported_of(db, p);
            let ds = data.diagnostics;
            &&& data.signature == f.signature.semantic
            &&& data.generic_params == f.generic_params.params@
            &&& data.environment == f.signature.environment
            &&& data.attributes == f.attributes@
            &&& data.lookback == f.signature.lookback@
            &&& ds.len() == of_params.len() + of_signature.len() + found.len()
            &&& forall|k: int| 0 <= k < of_params.len() ==> #[trigger] ds[k] == of_params[k]
            &&& forall|k: int|
                0 <= k < of_signature.len() ==> ds[of_params.len() + k]
                    == #[trigger] of_signature[k]
            &&& forall|k: int|
                0 <= k < found.len() ==> ds[of_params.len() + of_signature.len() + k]
                    == #[trigger] found[k]
        },
{
    lemma_first_node(db.function_nodes@, p.node, 0);
}

/// Whether the type is known to the table and could not be found out.
pub open spec fn not_found_out(types: Seq<TypeModel>, ty: TypeId) -> bool {
    ty.0 < types.len() && (types[ty.0 as int] matches TypeModel::Missing(_))
}

/// The body of a function is the block that was made of it, after the expressions inside the block,
/// every one of them found by its place; its callees are the functions that they call. Where the
/// type of the block is not the return type, this is reported last, where the body stands, unless a
/// type is not known or the block never comes to its end.
pub proof fn a_body_says_what_is_written(
    db: &SemanticDb,
    types: Seq<TypeModel>,
    table: Seq<ImplFunctionLongId>,
    p: Placed,
    computed: ComputedBody,
)
    requires
        is_known(db, types, table, p),
        p.function_syntax.body.computed == Ok::<_, DiagnosticAdded>(computed),
        computed.exprs@.len() < usize::MAX,
    ensures
        function_body_of(db, types, table, p.impl_function_id).1 matches Some(data) && {
            let n = computed.exprs@.len();
            let exprs = data.body.exprs;
            let of_body = computed.diagnostics@;
            let ds = data.diagnostics;
            let return_type = p.function_syntax.signature.semantic.return_type;
            let ty = computed.block.ty_of();
            &&& exprs.len() == n + 1
            &&& forall|k: int| 0 <= k < n ==> #[trigger] exprs[k] == computed.exprs@[k]
            &&& exprs[data.body.body_expr.0 as int] == computed.block
            &&& data.body.body_expr.0 == n
            &&& data.body.statements == computed.statements@
            &&& data.lookback == computed.lookback@
            &&& data.body.direct_callees.no_duplicates()
            &&& forall|f: FunctionId| #[trigger]
                data.body.direct_callees.contains(f) <==> exists|i: int|
                    0 <= i < exprs.len() && is_call_of(#[trigger] exprs[i], f)
            &&& forall|i: int|
                0 <= i < exprs.len() && alone_at_its_place(exprs, i) ==> lookup(
                    data.expr_lookup,
                    #[trigger] exprs[i].ptr_of(),
                ) == Some(ExprId(i as usize))
            &&& forall|k: int| 0 <= k < of_body.len() ==> #[trigger] ds[k] == of_body[k]
            &&& if ty == return_type || ty == db.never_ty || not_found_out(types, ty)
                || not_found_out(types, return_type) {
                ds.len() == of_body.len()
            } else {
                let last = ds[of_body.len() as int];
                &&& ds.len() == of_body.len() + 1
                &&& last.module_file_id == p.long_id.0
                &&& last.stable_ptr == p.function_syntax.body.stable_ptr
                &&& last.kind == SemanticDiagnosticKind::WrongReturnType {
                    expected_ty: return_type,
                    actual_ty: ty,
                }
            }
        },
{
    let id = p.impl_function_id;
    let impl_id = impl_around(db, p);
    lemma_first_node(db.function_nodes@, p.node, 0);
    let after = definition_of(db, types, table, impl_id).0;
    a_definition_extends_the_table(db, types, table, impl_id);
    a_definition_is_stable(db, types, table, impl_id, after);
    assert(after[id.0 as int] == table[id.0 as int]);
    let data = function_body_of(db, types, table, id).1->0;
    let exprs = data.body.exprs;
    callees_are_the_called_functions(exprs, exprs.len() as int);
    assert forall|i: int| 0 <= i < exprs.len() && alone_at_its_place(exprs, i) implies lookup(
        data.expr_lookup,
        #[trigger] exprs[i].ptr_of(),
    ) == Some(ExprId(i as usize)) by {
        expressions_are_found_by_their_places(exprs, exprs.len() as int, i);
    }
}

/// Whether no later expression stands in the place of the expression.
pub open spec fn alone_at_its_place(exprs: Seq<Expr>, i: int) -> bool {
    forall|j: int| i < j < exprs.len() ==> (#[trigger] exprs[j]).ptr_of() != exprs[i].ptr_of()
}

/// A function whose body the type checker made nothing of has no body.
pub proof fn a_body_that_is_not_known_is_none(
    db: &SemanticDb,
    types: Seq<TypeModel>,
    table: Seq<ImplFunctionLongId>,
    p: Placed,
)
    requires
        is_known(db, types, table, p),
        p.function_syntax.body.computed is Err,
    ensures
        function_body_of(db, types, table, p.impl_function_id).1 is None,
{
    lemma_first_node(db.function_nodes@, p.node, 0);
}

/// Whether the diagnostics from the place on are these.
pub open spec fn stand_at(
    ds: Seq<SemanticDiagnostic>,
    from: int,
    part: Seq<SemanticDiagnostic>,
) -> bool {
    &&& 0 <= from <= from + part.len() <= ds.len()
    &&& forall|k: int| 0 <= k < part.len() ==> ds[from + k] == #[trigger] part[k]
}

/// Whether the diagnostics are, after the first ones, those of the declaration and of the body of
/// each function in turn.
pub open spec fn lists_functions<'a>(
    db: &SemanticDb,
    types: Seq<TypeModel>,
    table: Seq<ImplFunctionLongId>,
    functions: Seq<(ImplFunctionId, &'a ItemFreeFunction)>,
    n: int,
    ds: Seq<SemanticDiagnostic>,
    starts: Seq<int>,
) -> bool {
    &&& starts.len() == n + 1
    &&& starts[n] == ds.len()
    &&& forall|k: int|
        0 <= k < n ==> {
            let id = (#[trigger] functions[k]).0;
            let of_declaration = declaration_diagnostics_of(db, types, table, id);
            let of_body = body_diagnostics_of(db, types, table, id);
            &&& stand_at(ds, starts[k], of_declaration)
            &&& stand_at(ds, starts[k] + of_declaration.len(), of_body)
            &&& starts[k + 1] == starts[k] + of_declaration.len() + of_body.len()
        }
}

proof fn lemma_functions_listed<'a>(
    db: &SemanticDb,
    types: Seq<TypeModel>,
    table: Seq<ImplFunctionLongId>,
    functions: Seq<(ImplFunctionId, &'a ItemFreeFunction)>,
    n: int,
    first: Seq<SemanticDiagnostic>,
) -> (starts: Seq<int>)
    requires
        0 <= n <= functions.len(),
    ensures
        lists_functions(
            db,
            types,
            table,
            functions,
            n,
            first + functions_diagnostics(db, types, table, functions, n),
            starts,
        ),
        starts[0] == first.len(),
    decreases n,
{
    let ds = first + functions_diagnostics(db, types, table, functions, n);
    if n == 0 {
        Seq::empty().push(ds.len() as int)
    } else {
        let before = lemma_functions_listed(db, types, table, functions, n - 1, first);
        let ds0 = first + functions_diagnostics(db, types, table, functions, n - 1);
        let starts = before.push(ds.len() as int);
        assert forall|k: int| 0 <= k < n implies {
            let id = (#[trigger] functions[k]).0;
            let of_declaration = declaration_diagnostics_of(db, types, table, id);
            let of_body = body_diagnostics_of(db, types, table, id);
            &&& stand_at(ds, starts[k], of_declaration)
            &&& stand_at(ds, starts[k] + of_declaration.len(), of_body)
            &&& starts[k + 1] == starts[k] + of_declaration.len() + of_body.len()
        } by {
            if k < n - 1 {
                assert(before[k] == starts[k] && before[k + 1] == starts[k + 1]);
                let id = functions[k].0;
                let of_declaration = declaration_diagnostics_of(db, types, table, id);
                let of_body = body_diagnostics_of(db, types, table, id);
                assert(stand_at(ds0, starts[k], of_declaration));
                assert(stand_at(ds0, starts[k] + of_declaration.len(), of_body));
            } else {
                assert(before[n - 1] == starts[k]);
            }
        }
        starts
    }
}

/// The diagnostics of an impl are those of its definition, and then those of the declaration and of
/// the body of each of its functions in turn.
pub proof fn a_definition_reports_its_functions_in_turn(
    db: &SemanticDb,
    types: Seq<TypeModel>,
    table: Seq<ImplFunctionLongId>,
    impl_id: ImplId,
) -> (starts: Seq<int>)
    ensures
        definition_of(db, types, table, impl_id).1 matches Some(data) ==> {
            let ds = definition_diagnostics_of(db, types, table, impl_id);
            let after = definition_of(db, types, table, impl_id).0;
            &&& stand_at(ds, 0, data.diagnostics)
            &&& lists_functions(
                db,
                types,
                after,
                data.functions,
                data.functions.len() as int,
                ds,
                starts,
            )
            &&& starts[0] == data.diagnostics.len()
        },
        definition_of(db, types, table, impl_id).1 is None ==> definition_diagnostics_of(
            db,
            types,
            table,
            impl_id,
        ).len() == 0,
{
    let (after, definition) = definition_of(db, types, table, impl_id);
    match definition {
        Some(data) => lemma_functions_listed(
            db,
            types,
            after,
            data.functions,
            data.functions.len() as int,
            data.diagnostics,
        ),
        None => Seq::empty(),
    }
}

// === Tables ===

/// The facts about a module are those of the first entry with its identifier.
pub proof fn a_module_is_found_by_its_identifier(entries: Seq<ModuleEntry>, i: int, from: int)
    requires
        0 <= from <= i < entries.len(),
        forall|j: int|
            0 <= j < i ==> (#[trigger] entries[j]).module_id != entries[i].module_id,
    ensures
        module_from(entries, entries[i].module_id, from) == Some(entries[i]),
    decreases i - from,
{
    if from < i {
        a_module_is_found_by_its_identifier(entries, i, from + 1);
    }
}

/// What is known of a variant of an enum is what the first entry about it says.
pub proof fn the_first_entry_tells_of_the_variant(entries: Seq<VariantEntry>, i: int, from: int)
    requires
        0 <= from <= i < entries.len(),
        forall|j: int|
            0 <= j < i ==> (#[trigger] entries[j]).enum_id != entries[i].enum_id
                || entries[j].variant_id != entries[i].variant_id,
    ensures
        variant_from(entries, entries[i].enum_id, entries[i].variant_id, from)
            == entries[i].semantic,
    decreases i - from,
{
    if from < i {
        the_first_entry_tells_of_the_variant(entries, i, from + 1);
    }
}

/// What is known of a variant under the generic arguments of its enum is what the first entry about
/// it says.
pub proof fn the_first_entry_tells_of_the_concrete_variant(
    entries: Seq<ConcreteVariantEntry>,
    i: int,
    from: int,
)
    requires
        0 <= from <= i < entries.len(),
        forall|j: int|
            0 <= j < i ==> (#[trigger] entries[j]).concrete_enum_id != entries[i].concrete_enum_id
                || entries[j].variant != entries[i].variant,
    ensures
        concrete_variant_from(entries, entries[i].concrete_enum_id, entries[i].variant, from)
            == entries[i].concrete,
    decreases i - from,
{
    if from < i {
        the_first_entry_tells_of_the_concrete_variant(entries, i, from + 1);
    }
}

} // verus!

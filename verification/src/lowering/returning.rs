//! What a function gives back where it is left.
use crate::collections::{lemma_lookup_assign, lemma_lookup_without, lookup};
use crate::ids::{TypeId, VarId, VariableId};
use crate::lowering::context::{flow_end, LoweringContextBuilder};
use crate::lowering::function::{builds, ref_params_of};
use crate::lowering::merging::{has_value, is_in};
use crate::lowering::model::{
    take_implicit, CtxModel, Failure, FlowModel, LoweredExprModel, ScopeEndModel, ScopeModel,
    SemanticVariableEntry, Step,
};
use crate::lowering::objects::{LoweringDiagnostic, LoweringDiagnosticKind};
use crate::lowering::steps::{
    expr_end, expr_var, expr_vars, finish_call, full_return_vars, lower_statement, take_implicits,
    use_ref_params, use_var, Lowering,
};
use crate::semantic::db::{FunctionWithBodyEntry, LoweringDb};
use crate::semantic::expr::{ExprFunctionCall, Statement};
use crate::semantic::types::{Mutability, Parameter};
use vstd::prelude::*;

verus! {

// === The reference parameters ===

/// Whether the parameter is passed by reference.
pub open spec fn by_reference() -> spec_fn(Parameter) -> bool {
    |p: Parameter| p.mutability == Mutability::Reference
}

/// The parameters that are passed by reference, in the order in which they are declared.
pub open spec fn declared_references(params: Seq<Parameter>) -> Seq<Parameter> {
    params.filter(by_reference())
}

proof fn lemma_ref_params(params: Seq<Parameter>, n: int)
    requires
        0 <= n <= params.len(),
    ensures
        ref_params_of(params, n) == declared_references(params.take(n)).map_values(
            |p: Parameter| VarId::Param(p.id),
        ),
    decreases n,
{
    reveal(Seq::filter);
    let to_id = |p: Parameter| VarId::Param(p.id);
    if n > 0 {
        lemma_ref_params(params, n - 1);
        assert(params.take(n).drop_last() =~= params.take(n - 1));
        assert(params.take(n).last() == params[n - 1]);
        let before = declared_references(params.take(n - 1));
        let all = declared_references(params.take(n));
        if params[n - 1].mutability == Mutability::Reference {
            assert(all == before.push(params[n - 1]));
            assert(all.map_values(to_id) =~= before.map_values(to_id).push(to_id(params[n - 1])));
        } else {
            assert(all == before);
        }
    } else {
        assert(params.take(0) =~= Seq::empty());
        assert(declared_references(params.take(0)).map_values(to_id) =~= Seq::empty());
    }
}

/// The reference parameters of a function are those of its signature that are passed by reference,
/// in the order in which they are declared.
pub proof fn references_are_in_the_order_of_declaration(
    b: LoweringContextBuilder,
    db: LoweringDb,
    entry: FunctionWithBodyEntry,
)
    requires
        builds(b, db, entry),
    ensures
        ({
            let references = declared_references(entry.signature->Ok_0.params@);
            &&& b.ref_params@.len() == references.len()
            &&& forall|k: int|
                0 <= k < references.len() ==> b.ref_params@[k] == VarId::Param(
                    (#[trigger] references[k]).id,
                )
        }),
{
    let params = entry.signature->Ok_0.params@;
    lemma_ref_params(params, params.len() as int);
    assert(params.take(params.len() as int) =~= params);
}

// === What is given back ===

/// Whether the variables are what the scope has for each implicit of the function, and then for each
/// of its reference parameters, in their order.
pub open spec fn gives_back(
    b: &LoweringContextBuilder,
    s: ScopeModel,
    refs: Seq<VariableId>,
) -> bool {
    let n = b.implicits@.len();
    &&& refs.len() == n + b.ref_params@.len()
    &&& forall|j: int|
        0 <= j < n ==> lookup(s.implicits, #[trigger] b.implicits@[j]) == Some(refs[j])
    &&& forall|k: int|
        0 <= k < b.ref_params@.len() ==> is_in(s.vars, #[trigger] b.ref_params@[k], refs[n + k])
}

/// Whether the expression is the empty tuple.
pub open spec fn is_nothing(e: LoweredExprModel) -> bool {
    e matches LoweredExprModel::Tuple(es) && es.len() == 0
}

/// Whether the step only reads variables.
pub open spec fn adds_nothing(c: CtxModel, s: ScopeModel, c1: CtxModel, s1: ScopeModel) -> bool {
    &&& c1 == c
    &&& s1.statements == s.statements
    &&& s1.inputs == s.inputs
    &&& s1.initial_refs == s.initial_refs
}

proof fn lemma_references_used(
    b: &LoweringContextBuilder,
    c: CtxModel,
    s: ScopeModel,
    i: int,
    taken: Seq<VariableId>,
)
    requires
        0 <= i <= b.ref_params@.len(),
    ensures
        ({
            let step = use_ref_params(b, c, s, i, taken);
            step.r matches Ok(all) ==> {
                &&& adds_nothing(c, s, step.c, step.s)
                &&& all.len() == taken.len() + b.ref_params@.len() - i
                &&& forall|k: int| 0 <= k < taken.len() ==> #[trigger] all[k] == taken[k]
                &&& forall|k: int|
                    i <= k < b.ref_params@.len() ==> is_in(
                        s.vars,
                        #[trigger] b.ref_params@[k],
                        all[taken.len() + k - i],
                    )
            }
        }),
    decreases b.ref_params@.len() - i,
{
    if i < b.ref_params@.len() {
        let id = b.ref_params@[i];
        if let Some(ptr) = b.db.variable_ptr_of(id) {
            let step = use_var(c, s, id, ptr);
            if let Ok(var) = step.r {
                lemma_references_used(b, step.c, step.s, i + 1, taken.push(var));
                lemma_lookup_assign(s.vars, id, SemanticVariableEntry::Moved);
                assert(is_in(s.vars, id, var));
                let last = use_ref_params(b, c, s, i, taken);
                if let Ok(all) = last.r {
                    assert forall|k: int| 0 <= k < taken.len() implies #[trigger] all[k]
                        == taken[k] by {
                        assert(taken.push(var)[k] == taken[k]);
                    }
                    assert forall|k: int| i <= k < b.ref_params@.len() implies is_in(
                        s.vars,
                        #[trigger] b.ref_params@[k],
                        all[taken.len() + k - i],
                    ) by {
                        if k == i {
                            assert(taken.push(var)[taken.len() as int] == var);
                        } else {
                            assert(is_in(
                                step.s.vars,
                                b.ref_params@[k],
                                all[taken.len() + k - i],
                            ));
                        }
                    }
                }
            }
        }
    }
}

pub proof fn lemma_implicits_taken(
    s: ScopeModel,
    tys: Seq<TypeId>,
    i: int,
    taken: Seq<VariableId>,
)
    requires
        0 <= i <= tys.len(),
        tys.no_duplicates(),
    ensures
        ({
            let (s1, r) = take_implicits(s, tys, i, taken);
            &&& s1.vars == s.vars
            &&& s1.statements == s.statements
            &&& s1.inputs == s.inputs
            &&& s1.initial_refs == s.initial_refs
            &&& r is Some <==> forall|k: int|
                i <= k < tys.len() ==> lookup(s.implicits, #[trigger] tys[k]) is Some
            &&& r matches Some(all) ==> {
                &&& all.len() == taken.len() + tys.len() - i
                &&& forall|k: int| 0 <= k < taken.len() ==> #[trigger] all[k] == taken[k]
                &&& forall|k: int|
                    i <= k < tys.len() ==> lookup(s.implicits, #[trigger] tys[k]) == Some(
                        all[taken.len() + k - i],
                    )
                &&& forall|ty: TypeId|
                    (forall|k: int| i <= k < tys.len() ==> #[trigger] tys[k] != ty)
                        ==> #[trigger] lookup(s1.implicits, ty) == lookup(s.implicits, ty)
                &&& forall|k: int|
                    i <= k < tys.len() ==> s1.changed.contains(#[trigger] tys[k])
                &&& forall|ty: TypeId|
                    s.changed.contains(ty) ==> #[trigger] s1.changed.contains(ty)
            }
        }),
    decreases tys.len() - i,
{
    if i < tys.len() {
        if let Some(var) = lookup(s.implicits, tys[i]) {
            lemma_lookup_without(s.implicits, tys[i]);
            let s0 = take_implicit(s, tys[i]);
            assert(s0.changed.contains(tys[i]) && forall|ty: TypeId|
                s.changed.contains(ty) ==> #[trigger] s0.changed.contains(ty)) by {
                if !s.changed.contains(tys[i]) {
                    assert(s0.changed == s.changed.push(tys[i]));
                    assert(s0.changed[s.changed.len() as int] == tys[i]);
                    assert forall|ty: TypeId| s.changed.contains(ty) implies
                        #[trigger] s0.changed.contains(ty) by {
                        let k = choose|k: int| 0 <= k < s.changed.len() && s.changed[k] == ty;
                        assert(s0.changed[k] == ty);
                    }
                }
            }
            lemma_implicits_taken(s0, tys, i + 1, taken.push(var));
            let (s1, r) = take_implicits(s, tys, i, taken);
            assert forall|k: int| i < k < tys.len() implies lookup(
                s0.implicits,
                #[trigger] tys[k],
            ) == lookup(s.implicits, tys[k]) by {
                assert(tys[i] != tys[k]);
            }
            if let Some(all) = r {
                assert forall|k: int| 0 <= k < taken.len() implies #[trigger] all[k]
                    == taken[k] by {
                    assert(taken.push(var)[k] == taken[k]);
                }
                assert forall|k: int| i <= k < tys.len() implies lookup(
                    s.implicits,
                    #[trigger] tys[k],
                ) == Some(all[taken.len() + k - i]) by {
                    if k == i {
                        assert(taken.push(var)[taken.len() as int] == var);
                    } else {
                        assert(lookup(s0.implicits, tys[k]) == Some(all[taken.len() + k - i]));
                    }
                }
                assert forall|ty: TypeId|
                    (forall|k: int| i <= k < tys.len() ==> #[trigger] tys[k]
                        != ty) implies #[trigger] lookup(s1.implicits, ty) == lookup(
                    s.implicits,
                    ty,
                ) by {
                    assert(tys[i] != ty);
                    assert(lookup(s0.implicits, ty) == lookup(s.implicits, ty));
                }
            }
        }
    }
}

/// Where a function is left with a value, the value is stored in a variable, if there is one, and
/// the function gives back what the scope then has for each implicit, and after these for each
/// reference parameter, both in the order in which they are declared. Nothing but the value is
/// computed for that.
pub proof fn a_function_gives_back_implicits_and_references(
    b: &LoweringContextBuilder,
    c: CtxModel,
    s: ScopeModel,
    e: LoweredExprModel,
)
    requires
        b.implicits@.no_duplicates(),
    ensures
        ({
            let step = full_return_vars(b, c, s, e);
            let value = expr_var(b, c, s, e);
            step.r matches Ok((refs, returned)) ==> if is_nothing(e) {
                &&& returned.len() == 0
                &&& gives_back(b, s, refs)
                &&& adds_nothing(c, s, step.c, step.s)
            } else {
                &&& value.r is Ok
                &&& returned == seq![value.r->Ok_0]
                &&& gives_back(b, value.s, refs)
                &&& adds_nothing(value.c, value.s, step.c, step.s)
            }
        }),
{
    reveal(full_return_vars);
    let step = full_return_vars(b, c, s, e);
    if step.r is Ok {
        let value = expr_var(b, c, s, e);
        let (c0, s0) = if is_nothing(e) {
            (c, s)
        } else {
            (value.c, value.s)
        };
        let none = Seq::<VariableId>::empty();
        lemma_implicits_taken(s0, b.implicits@, 0, none);
        let s1 = take_implicits(s0, b.implicits@, 0, none).0;
        lemma_references_used(b, c0, s1, 0, none);
        let refs = (step.r->Ok_0).0;
        let n = b.implicits@.len();
        assert forall|k: int| 0 <= k < b.ref_params@.len() implies is_in(
            s0.vars,
            #[trigger] b.ref_params@[k],
            refs[n + k],
        ) by {}
        assert forall|j: int| 0 <= j < n implies lookup(
            s0.implicits,
            #[trigger] b.implicits@[j],
        ) == Some(refs[j]) by {}
    }
}

/// Whether the place of every reference parameter in the syntax tree is known.
pub open spec fn references_are_known(b: &LoweringContextBuilder) -> bool {
    forall|k: int|
        0 <= k < b.ref_params@.len() ==> b.db.variable_ptr_of(#[trigger] b.ref_params@[k]) is Some
}

/// Whether every reference parameter before the place has a value, and none is declared twice.
pub open spec fn have_values(b: &LoweringContextBuilder, s: ScopeModel, n: int) -> bool {
    &&& b.ref_params@.no_duplicates()
    &&& forall|k: int| 0 <= k < n ==> has_value(s.vars, #[trigger] b.ref_params@[k])
}

proof fn lemma_has_value(vars: Seq<(VarId, SemanticVariableEntry)>, id: VarId)
    ensures
        has_value(vars, id) <==> lookup(vars, id) matches Some(SemanticVariableEntry::Alive(_)),
{
    if let Some(SemanticVariableEntry::Alive(v)) = lookup(vars, id) {
        assert(is_in(vars, id, v));
    }
}

proof fn lemma_references_there(
    b: &LoweringContextBuilder,
    c: CtxModel,
    s: ScopeModel,
    i: int,
    n: int,
    taken: Seq<VariableId>,
)
    requires
        0 <= i <= n <= b.ref_params@.len(),
        references_are_known(b),
        b.ref_params@.no_duplicates(),
        forall|k: int| i <= k < n ==> has_value(s.vars, #[trigger] b.ref_params@[k]),
        n < b.ref_params@.len() ==> !has_value(s.vars, b.ref_params@[n]),
    ensures
        ({
            let step = use_ref_params(b, c, s, i, taken);
            if n == b.ref_params@.len() {
                step.r is Ok
            } else {
                &&& step.r is Err
                &&& step.c.diagnostics == c.diagnostics.push(
                    LoweringDiagnostic {
                        stable_ptr: b.db.variable_ptr_of(b.ref_params@[n])->0,
                        kind: LoweringDiagnosticKind::VariableMoved,
                    },
                )
            }
        }),
    decreases n - i,
{
    if i < b.ref_params@.len() {
        let id = b.ref_params@[i];
        assert(b.db.variable_ptr_of(id) is Some);
        let ptr = b.db.variable_ptr_of(id)->0;
        let step = use_var(c, s, id, ptr);
        lemma_lookup_assign(s.vars, id, SemanticVariableEntry::Moved);
        lemma_has_value(s.vars, id);
        if i < n {
            assert(has_value(s.vars, id));
            assert(step.r is Ok);
            assert forall|k: int| i + 1 <= k < b.ref_params@.len() implies has_value(
                step.s.vars,
                #[trigger] b.ref_params@[k],
            ) == has_value(s.vars, b.ref_params@[k]) by {
                assert(b.ref_params@[k] != id);
                lemma_has_value(s.vars, b.ref_params@[k]);
                lemma_has_value(step.s.vars, b.ref_params@[k]);
            }
            lemma_references_there(b, step.c, step.s, i + 1, n, taken.push(step.r->Ok_0));
        } else {
            assert(!has_value(s.vars, id));
            assert(step.r is Err);
        }
    }
}

/// A function can be left with a value wherever every implicit is there and every reference
/// parameter has a value.
pub proof fn a_function_can_be_left(
    b: &LoweringContextBuilder,
    c: CtxModel,
    s: ScopeModel,
    v: VariableId,
)
    requires
        b.implicits@.no_duplicates(),
        references_are_known(b),
        have_values(b, s, b.ref_params@.len() as int),
        forall|j: int|
            0 <= j < b.implicits@.len() ==> lookup(
                s.implicits,
                #[trigger] b.implicits@[j],
            ) is Some,
    ensures
        full_return_vars(b, c, s, LoweredExprModel::AtVariable(v)).r is Ok,
{
    reveal(full_return_vars);
    reveal(expr_var);
    reveal(expr_vars);
    let none = Seq::<VariableId>::empty();
    lemma_implicits_taken(s, b.implicits@, 0, none);
    let s1 = take_implicits(s, b.implicits@, 0, none).0;
    lemma_references_there(b, c, s1, 0, b.ref_params@.len() as int, none);
}

/// Where a function is left and a reference parameter has no value, the first such parameter is
/// reported as moved, where it is declared, and the function is not left.
pub proof fn a_moved_reference_is_reported(
    b: &LoweringContextBuilder,
    c: CtxModel,
    s: ScopeModel,
    v: VariableId,
    n: int,
)
    requires
        b.implicits@.no_duplicates(),
        references_are_known(b),
        0 <= n < b.ref_params@.len(),
        have_values(b, s, n),
        !has_value(s.vars, b.ref_params@[n]),
        forall|j: int|
            0 <= j < b.implicits@.len() ==> lookup(
                s.implicits,
                #[trigger] b.implicits@[j],
            ) is Some,
    ensures
        ({
            let step = full_return_vars(b, c, s, LoweredExprModel::AtVariable(v));
            &&& step.r is Err
            &&& step.c.diagnostics == c.diagnostics.push(
                LoweringDiagnostic {
                    stable_ptr: b.db.variable_ptr_of(b.ref_params@[n])->0,
                    kind: LoweringDiagnosticKind::VariableMoved,
                },
            )
        }),
{
    reveal(full_return_vars);
    reveal(expr_var);
    reveal(expr_vars);
    let none = Seq::<VariableId>::empty();
    lemma_implicits_taken(s, b.implicits@, 0, none);
    let s1 = take_implicits(s, b.implicits@, 0, none).0;
    lemma_references_there(b, c, s1, 0, n, none);
}

/// The same for the function of the signature: the variable in the place of the reference parameter
/// `k` is the one that this parameter, in the order of declaration, is in when the function is left.
pub proof fn references_come_back_in_the_order_of_declaration(
    b: &LoweringContextBuilder,
    db: LoweringDb,
    entry: FunctionWithBodyEntry,
    s: ScopeModel,
    refs: Seq<VariableId>,
)
    requires
        builds(*b, db, entry),
        gives_back(b, s, refs),
    ensures
        ({
            let implicits = entry.implicits->Ok_0@;
            let references = declared_references(entry.signature->Ok_0.params@);
            &&& refs.len() == implicits.len() + references.len()
            &&& forall|j: int|
                0 <= j < implicits.len() ==> lookup(s.implicits, #[trigger] implicits[j]) == Some(
                    refs[j],
                )
            &&& forall|k: int|
                0 <= k < references.len() ==> is_in(
                    s.vars,
                    VarId::Param((#[trigger] references[k]).id),
                    refs[implicits.len() + k],
                )
        }),
{
    references_are_in_the_order_of_declaration(*b, db, entry);
    let references = declared_references(entry.signature->Ok_0.params@);
    assert forall|k: int| 0 <= k < references.len() implies is_in(
        s.vars,
        VarId::Param((#[trigger] references[k]).id),
        refs[b.implicits@.len() + k],
    ) by {
        assert(b.ref_params@[k] == VarId::Param(references[k].id));
    }
}

// === The ways to leave ===

/// A return statement lowers its expression and leaves the function with it.
pub proof fn a_return_leaves_the_function(
    b: &LoweringContextBuilder,
    c: CtxModel,
    s: ScopeModel,
    l: Lowering,
    stmt: Statement,
)
    requires
        stmt is Return,
        b.implicits@.no_duplicates(),
    ensures
        ({
            let last = lower_statement(b, c, s, l, stmt);
            let expr = l(c, s, stmt->Return_0.expr);
            &&& last.r is Err
            &&& expr.r matches Err(f) ==> last.r == Err::<(), FlowModel>(f)
            &&& last.r matches Err(FlowModel::Return { refs, returned }) ==> expr.r is Ok ==> {
                let e = expr.r->Ok_0;
                let value = expr_var(b, expr.c, expr.s, e);
                if is_nothing(e) {
                    returned.len() == 0 && gives_back(b, expr.s, refs)
                } else if value.r is Ok {
                    returned == seq![value.r->Ok_0] && gives_back(b, value.s, refs)
                } else {
                    value.r == Err::<VariableId, FlowModel>(last.r->Err_0)
                }
            }
        }),
{
    reveal(lower_statement);
    let expr = l(c, s, stmt->Return_0.expr);
    if let Ok(e) = expr.r {
        a_function_gives_back_implicits_and_references(b, expr.c, expr.s, e);
        lemma_return_failure(b, expr.c, expr.s, e);
    }
}

/// Where the function cannot be left with the value, the value could not be stored, or an implicit
/// or a reference parameter is missing, which fails.
proof fn lemma_return_failure(
    b: &LoweringContextBuilder,
    c: CtxModel,
    s: ScopeModel,
    e: LoweredExprModel,
)
    ensures
        ({
            let step = full_return_vars(b, c, s, e);
            let value = expr_var(b, c, s, e);
            step.r matches Err(f) ==> f is Failed || (!is_nothing(e) && value.r == Err::<
                VariableId,
                FlowModel,
            >(f))
        }),
{
    reveal(full_return_vars);
    let value = expr_var(b, c, s, e);
    let s0 = if is_nothing(e) {
        s
    } else {
        value.s
    };
    let c0 = if is_nothing(e) {
        c
    } else {
        value.c
    };
    let s1 = take_implicits(s0, b.implicits@, 0, Seq::empty()).0;
    lemma_references_failure(b, c0, s1, 0, Seq::empty());
}

proof fn lemma_references_failure(
    b: &LoweringContextBuilder,
    c: CtxModel,
    s: ScopeModel,
    i: int,
    taken: Seq<VariableId>,
)
    ensures
        use_ref_params(b, c, s, i, taken).r matches Err(f) ==> f is Failed,
    decreases b.ref_params@.len() - i,
{
    if 0 <= i < b.ref_params@.len() {
        let id = b.ref_params@[i];
        if let Some(ptr) = b.db.variable_ptr_of(id) {
            let step = use_var(c, s, id, ptr);
            if let Ok(var) = step.r {
                lemma_references_failure(b, step.c, step.s, i + 1, taken.push(var));
            }
        }
    }
}

/// The end of a block whose last expression gives a value: the root block returns it, with what the
/// function gives back, and another block comes back with it, or without a value if it is the empty
/// tuple.
pub proof fn a_value_ends_a_block(
    b: &LoweringContextBuilder,
    c: CtxModel,
    s: ScopeModel,
    e: LoweredExprModel,
    root: bool,
)
    requires
        b.implicits@.no_duplicates(),
    ensures
        ({
            let last = expr_end(b, c, s, Ok(e), root);
            let value = expr_var(b, c, s, e);
            if !root && is_nothing(e) {
                last == (Step {
                    c,
                    s,
                    r: Ok::<ScopeEndModel, Failure>(ScopeEndModel::Callsite(None)),
                })
            } else {
                match value.r {
                    Err(f) => last == (Step { c: value.c, s: value.s, r: flow_end(f) }),
                    Ok(v) => if root {
                        last.r matches Ok(end) ==> end is Return && end->returned == seq![v]
                            && gives_back(b, value.s, end->Return_refs) && adds_nothing(
                            value.c,
                            value.s,
                            last.c,
                            last.s,
                        )
                    } else {
                        last == (Step {
                            c: value.c,
                            s: value.s,
                            r: Ok::<ScopeEndModel, Failure>(ScopeEndModel::Callsite(Some(v))),
                        })
                    },
                }
            }
        }),
{
    reveal(expr_end);
    let value = expr_var(b, c, s, e);
    if let Ok(v) = value.r {
        let at = LoweredExprModel::AtVariable(v);
        reveal(expr_var);
        reveal(expr_vars);
        assert(expr_var(b, value.c, value.s, at) == (Step {
            c: value.c,
            s: value.s,
            r: Ok::<VariableId, FlowModel>(v),
        }));
        a_function_gives_back_implicits_and_references(b, value.c, value.s, at);
        lemma_return_failure(b, value.c, value.s, at);
    }
}

/// A panic leaves the function with its data, and gives back what a return would.
pub proof fn a_panic_leaves_the_function(
    b: &LoweringContextBuilder,
    c: CtxModel,
    s: ScopeModel,
    e: ExprFunctionCall,
    inputs: Seq<VariableId>,
    implicit_tys: Seq<TypeId>,
    ref_tys: Seq<TypeId>,
)
    requires
        e.function == b.db.core.panic_func,
        b.implicits@.no_duplicates(),
    ensures
        ({
            let last = finish_call(b, c, s, e, inputs, implicit_tys, ref_tys);
            &&& last.r matches Err(f) && (f is Failed || f is Panic)
            &&& last.r matches Err(FlowModel::Panic { refs, data }) ==> inputs == seq![data]
                && gives_back(b, s, refs) && adds_nothing(c, s, last.c, last.s)
        }),
{
    reveal(finish_call);
    if inputs.len() == 1 {
        let at = LoweredExprModel::AtVariable(inputs[0]);
        reveal(expr_var);
        reveal(expr_vars);
        a_function_gives_back_implicits_and_references(b, c, s, at);
        lemma_return_failure(b, c, s, at);
        assert(inputs =~= seq![inputs[0]]);
    }
}

} // verus!

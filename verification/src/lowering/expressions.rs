//! What each kind of expression is lowered to.
use crate::collections::{lemma_lookup_assign, lemma_no_key, lookup};
use crate::ids::{ExprId, MemberId, SyntaxStablePtrId, TypeId, VarId, VariableId};
use crate::interner::interning_is_stable;
use crate::lowering::context::LoweringContextBuilder;
use crate::lowering::merging::{has_value, is_in, lemma_variables_given};
use crate::lowering::model::{
    add_call, fresh_vars, put_implicit, CtxModel, Failure, FlowModel, FlowStep, LoweredExprModel,
    ScopeModel, SemanticVariableEntry, Step,
};
use crate::lowering::objects::{StatementModel, StructuredStatementModel, Variable};
use crate::lowering::returning::lemma_implicits_taken;
use crate::lowering::steps::{
    enum_of_type, expr_var, expr_vars, finish_call, lower_expr_assignment, lower_expr_enum_ctor,
    lower_expr_function_call, lower_expr_member_access, lower_expr_tuple, lower_expr_var,
    lower_exprs, lower_exprs_as_vars, lower_kind, member_position, put_implicits, put_variables,
    take_implicits, take_ref_args, take_var, Lowering,
};
use crate::semantic::db::type_info_from;
use crate::semantic::expr::{
    Expr, ExprAssignment, ExprEnumVariantCtor, ExprFunctionCall, ExprLiteral, ExprMemberAccess,
    ExprTuple, ExprVar,
};
use crate::semantic::types::{type_of, ConcreteTypeId, Member, TypeModel};
use vstd::prelude::*;

verus! {

// === New variables ===

/// Whether the variable is a new one of the type: it may be duplicated and dropped as far as the
/// type is known to allow it.
pub open spec fn is_new_of(b: &LoweringContextBuilder, v: Variable, ty: TypeId) -> bool {
    &&& v.ty == ty
    &&& match type_info_from(b.db.type_infos@, b.lookup_context@, ty, 0) {
        Ok(info) => v.duplicatable == info.duplicatable && v.droppable == info.droppable,
        Err(_) => !v.duplicatable && !v.droppable,
    }
}

/// Whether `c1` has one new variable more for each of the types, in their order, and `vars` are
/// their identifiers.
pub open spec fn makes_variables(
    b: &LoweringContextBuilder,
    c: CtxModel,
    c1: CtxModel,
    tys: Seq<TypeId>,
    vars: Seq<VariableId>,
) -> bool {
    let n = c.variables.len();
    &&& vars.len() == tys.len()
    &&& c1.variables.len() == n + tys.len()
    &&& forall|i: int| 0 <= i < n ==> #[trigger] c1.variables[i] == c.variables[i]
    &&& forall|k: int|
        0 <= k < tys.len() ==> is_new_of(b, c1.variables[n + k], #[trigger] tys[k])
    &&& forall|k: int|
        0 <= k < tys.len() ==> #[trigger] vars[k] == VariableId((n + k) as usize)
    &&& c1.blocks == c.blocks
    &&& c1.diagnostics == c.diagnostics
    &&& c1.semantic_defs == c.semantic_defs
}

/// Whether `s1` has one statement more, and is the same in all else.
pub open spec fn adds_statement(s: ScopeModel, s1: ScopeModel, statement: StatementModel) -> bool {
    s1 == (ScopeModel {
        statements: s.statements.push(StructuredStatementModel { statement, refs: s.implicits }),
        ..s
    })
}

// === Members ===

/// The types of the members, in the order of declaration.
pub open spec fn declared_tys(members: Seq<Member>) -> Seq<TypeId> {
    Seq::new(members.len(), |k: int| members[k].ty)
}

proof fn lemma_member_position(members: Seq<Member>, member: MemberId, i: int)
    requires
        0 <= i <= members.len(),
    ensures
        match member_position(members, member, i) {
            Some(k) => i <= k < members.len() && members[k].id == member && forall|j: int|
                i <= j < k ==> (#[trigger] members[j]).id != member,
            None => forall|j: int| i <= j < members.len() ==> (#[trigger] members[j]).id != member,
        },
    decreases members.len() - i,
{
    if i < members.len() && members[i].id != member {
        lemma_member_position(members, member, i + 1);
    }
}

/// Whether the step reads the member `k` out of the struct in `v`: it takes the struct apart, into a
/// new variable for each member in the order of declaration, and the value is the one in the place
/// of the member.
pub open spec fn reads_member(
    b: &LoweringContextBuilder,
    c: CtxModel,
    s: ScopeModel,
    v: VariableId,
    members: Seq<Member>,
    k: int,
    last: FlowStep<LoweredExprModel>,
) -> bool {
    exists|outputs: Seq<VariableId>|
        {
            &&& #[trigger] makes_variables(
                b,
                c,
                last.c,
                declared_tys(members),
                outputs,
            )
            &&& adds_statement(
                s,
                last.s,
                StatementModel::StructDestructure { input: v, outputs },
            )
            &&& last.r == Ok::<_, FlowModel>(LoweredExprModel::AtVariable(outputs[k]))
        }
}

/// Reading a member of a struct gives the part of the struct that the member names. A member that
/// the struct does not have fails, and nothing is lowered.
pub proof fn a_member_access_reads_the_member(
    b: &LoweringContextBuilder,
    c: CtxModel,
    s: ScopeModel,
    l: Lowering,
    e: ExprMemberAccess,
)
    ensures
        ({
            let last = lower_expr_member_access(b, c, s, l, e);
            let base = lower_expr_var(b, c, s, l, e.expr);
            let failed = last == (Step {
                c,
                s,
                r: Err::<LoweredExprModel, FlowModel>(FlowModel::Failed(Failure::Diagnosed)),
            });
            match b.db.struct_members_of(e.struct_id) {
                Err(_) => failed,
                Ok(members) => if forall|j: int|
                    0 <= j < members.len() ==> (#[trigger] members[j]).id != e.member {
                    failed
                } else {
                    match base.r {
                        Err(f) => last == (Step {
                            c: base.c,
                            s: base.s,
                            r: Err::<LoweredExprModel, FlowModel>(f),
                        }),
                        Ok(v) => exists|k: int|
                            {
                                &&& 0 <= k < members.len()
                                &&& (#[trigger] members[k]).id == e.member
                                &&& forall|j: int|
                                    0 <= j < k ==> (#[trigger] members[j]).id != e.member
                                &&& reads_member(b, base.c, base.s, v, members, k, last)
                            },
                    }
                },
            }
        }),
{
    reveal(lower_expr_member_access);
    if let Ok(members) = b.db.struct_members_of(e.struct_id) {
        lemma_member_position(members, e.member, 0);
        if let Some(k) = member_position(members, e.member, 0) {
            let base = lower_expr_var(b, c, s, l, e.expr);
            if let Ok(v) = base.r {
                let last = lower_expr_member_access(b, c, s, l, e);
                let tys = declared_tys(members);
                assert(members.map_values(|m: Member| m.ty) =~= tys);
                let outputs = fresh_vars(base.c, tys.len());
                assert(makes_variables(b, base.c, last.c, tys, outputs));
                assert(reads_member(b, base.c, base.s, v, members, k, last));
                assert(members[k].id == e.member);
            }
        }
    }
}

/// Two members of one struct are read from different places.
pub proof fn different_members_are_different_values(
    b: &LoweringContextBuilder,
    c: CtxModel,
    s: ScopeModel,
    l: Lowering,
    e: ExprMemberAccess,
    other: ExprMemberAccess,
)
    requires
        e.struct_id == other.struct_id,
        e.expr == other.expr,
        e.member != other.member,
        lower_expr_member_access(b, c, s, l, e).r is Ok,
        lower_expr_member_access(b, c, s, l, other).r is Ok,
        lower_expr_member_access(b, c, s, l, e).c.variables.len() <= usize::MAX,
    ensures
        lower_expr_member_access(b, c, s, l, e).r != lower_expr_member_access(
            b,
            c,
            s,
            l,
            other,
        ).r,
{
    reveal(lower_expr_member_access);
    let members = b.db.struct_members_of(e.struct_id)->Ok_0;
    lemma_member_position(members, e.member, 0);
    lemma_member_position(members, other.member, 0);
    let k = member_position(members, e.member, 0)->0;
    let j = member_position(members, other.member, 0)->0;
    assert(members[k].id != members[j].id);
}

// === Values that are made ===

/// A literal is made by one statement, with its value and its type, in a new variable.
pub proof fn a_literal_is_made(
    b: &LoweringContextBuilder,
    c: CtxModel,
    s: ScopeModel,
    l: Lowering,
    e: ExprLiteral,
)
    ensures
        ({
            let last = lower_kind(b, c, s, l, Expr::Literal(e));
            let output = VariableId(c.variables.len() as usize);
            &&& makes_variables(b, c, last.c, seq![e.ty], seq![output])
            &&& adds_statement(
                s,
                last.s,
                StatementModel::Literal { ty: e.ty, value: e.value@, output },
            )
            &&& last.r == Ok::<_, FlowModel>(LoweredExprModel::AtVariable(output))
        }),
{
    reveal(lower_kind);
}

/// A variable of the source is read where it stands: its value is in the variable that it is in.
pub proof fn a_variable_gives_its_value(
    b: &LoweringContextBuilder,
    c: CtxModel,
    s: ScopeModel,
    l: Lowering,
    e: ExprVar,
)
    ensures
        ({
            let last = lower_kind(b, c, s, l, Expr::Var(e));
            &&& last.s.statements == s.statements
            &&& last.s.implicits == s.implicits
            &&& match last.r {
                Ok(value) => {
                    &&& value is AtVariable
                    &&& is_in(s.vars, e.var, value->AtVariable_0)
                    &&& last.c == c
                    &&& c.variables[value->AtVariable_0.0 as int].duplicatable ==> last.s == s
                    &&& !c.variables[value->AtVariable_0.0 as int].duplicatable ==> !has_value(
                        last.s.vars,
                        e.var,
                    )
                    &&& forall|other: VarId|
                        other != e.var ==> #[trigger] lookup(last.s.vars, other) == lookup(
                            s.vars,
                            other,
                        )
                },
                Err(f) => f is Failed && !has_value(s.vars, e.var) && last.s == s,
            }
        }),
{
    reveal(lower_kind);
    lemma_lookup_assign(s.vars, e.var, SemanticVariableEntry::Moved);
    let last = lower_kind(b, c, s, l, Expr::Var(e));
    if let Ok(value) = last.r {
        assert(is_in(s.vars, e.var, value->AtVariable_0));
    }
}

/// A value of an enum is made by one statement, of the variant of the expression out of its value,
/// in a new variable of the type of the enum.
pub proof fn a_variant_is_made_of_its_value(
    b: &LoweringContextBuilder,
    c: CtxModel,
    s: ScopeModel,
    l: Lowering,
    e: ExprEnumVariantCtor,
)
    requires
        lower_expr_enum_ctor(b, c, s, l, e).c.types.len() <= usize::MAX,
    ensures
        ({
            let last = lower_expr_enum_ctor(b, c, s, l, e);
            let value = lower_expr_var(b, c, s, l, e.value_expr);
            let output = VariableId(value.c.variables.len() as usize);
            match value.r {
                Err(f) => last == (Step {
                    c: value.c,
                    s: value.s,
                    r: Err::<LoweredExprModel, FlowModel>(f),
                }),
                Ok(v) => exists|ty: TypeId|
                    {
                        &&& #[trigger] makes_variables(
                            b,
                            value.c,
                            last.c,
                            Seq::<TypeId>::empty().push(ty),
                            Seq::<VariableId>::empty().push(output),
                        )
                        &&& type_of(last.c.types, ty) == Some(
                            TypeModel::Concrete(
                                ConcreteTypeId::Enum(e.variant.concrete_enum_id),
                            ),
                        )
                        &&& adds_statement(
                            value.s,
                            last.s,
                            StatementModel::EnumConstruct {
                                variant: e.variant,
                                input: v,
                                output,
                            },
                        )
                        &&& last.r == Ok::<_, FlowModel>(LoweredExprModel::AtVariable(output))
                    },
            }
        }),
{
    reveal(lower_expr_enum_ctor);
    let last = lower_expr_enum_ctor(b, c, s, l, e);
    let value = lower_expr_var(b, c, s, l, e.value_expr);
    if let Ok(v) = value.r {
        let t = TypeModel::Concrete(ConcreteTypeId::Enum(e.variant.concrete_enum_id));
        interning_is_stable(value.c.types, t);
        let ty = last.c.variables[value.c.variables.len() as int].ty;
        let output = VariableId(value.c.variables.len() as usize);
        assert(makes_variables(
            b,
            value.c,
            last.c,
            Seq::<TypeId>::empty().push(ty),
            Seq::<VariableId>::empty().push(output),
        ));
    }
}

/// The scope in which the right side of an assignment is lowered: it knows the variable, which is
/// moved if it was not known before.
pub open spec fn knowing(s: ScopeModel, id: VarId) -> ScopeModel {
    if lookup(s.vars, id) is Some {
        s
    } else {
        ScopeModel { vars: s.vars.push((id, SemanticVariableEntry::Moved)), ..s }
    }
}

/// An assignment lowers its right side, where the variable is known, and gives the variable of the
/// source this value. The other variables of the source have what the right side left them, and its
/// own value is the empty tuple.
pub proof fn an_assignment_gives_the_value(
    b: &LoweringContextBuilder,
    c: CtxModel,
    s: ScopeModel,
    l: Lowering,
    e: ExprAssignment,
)
    ensures
        ({
            let last = lower_expr_assignment(b, c, s, l, e);
            let value = lower_expr_var(b, c, knowing(s, e.var), l, e.rhs);
            &&& last.c == value.c
            &&& match value.r {
                Err(f) => last.s == value.s && last.r == Err::<LoweredExprModel, FlowModel>(f),
                Ok(v) => {
                    &&& last.r == Ok::<_, FlowModel>(LoweredExprModel::Tuple(Seq::empty()))
                    &&& is_in(last.s.vars, e.var, v)
                    &&& forall|other: VarId|
                        other != e.var ==> #[trigger] lookup(last.s.vars, other) == lookup(
                            value.s.vars,
                            other,
                        )
                    &&& last.s == (ScopeModel { vars: last.s.vars, ..value.s })
                },
            }
        }),
{
    reveal(lower_expr_assignment);
    lemma_no_key(s.vars, e.var);
    let value = lower_expr_var(b, c, knowing(s, e.var), l, e.rhs);
    if let Ok(v) = value.r {
        lemma_lookup_assign(value.s.vars, e.var, SemanticVariableEntry::Alive(v));
    }
}

// === Tuples ===

/// Whether the expressions are lowered one after the other, as many as there are values: the
/// expression `k` takes the state `k` to the next one and gives the value `k`.
pub open spec fn lowered_in_turn(
    l: Lowering,
    ids: Seq<ExprId>,
    states: Seq<(CtxModel, ScopeModel)>,
    values: Seq<LoweredExprModel>,
) -> bool {
    &&& states.len() == values.len() + 1
    &&& values.len() <= ids.len()
    &&& forall|k: int|
        0 <= k < values.len() ==> l(states[k].0, states[k].1, ids[k]) == (Step {
            c: states[k + 1].0,
            s: states[k + 1].1,
            r: Ok::<_, FlowModel>(#[trigger] values[k]),
        })
}

proof fn lemma_in_turn(
    l: Lowering,
    ids: Seq<ExprId>,
    states: Seq<(CtxModel, ScopeModel)>,
    values: Seq<LoweredExprModel>,
) -> (r: (Seq<(CtxModel, ScopeModel)>, Seq<LoweredExprModel>))
    requires
        lowered_in_turn(l, ids, states, values),
    ensures
        ({
            let step = lower_exprs(
                states.last().0,
                states.last().1,
                l,
                ids,
                values.len() as int,
                values,
            );
            let (reached, got) = r;
            &&& lowered_in_turn(l, ids, reached, got)
            &&& reached[0] == states[0]
            &&& match step.r {
                Ok(all) => all == got && got.len() == ids.len() && reached.last() == (
                    step.c,
                    step.s,
                ),
                Err(f) => got.len() < ids.len() && l(
                    reached.last().0,
                    reached.last().1,
                    ids[got.len() as int],
                ) == (Step { c: step.c, s: step.s, r: Err::<LoweredExprModel, FlowModel>(f) }),
            }
        }),
    decreases ids.len() - values.len(),
{
    reveal(lower_exprs);
    let (c, s) = states.last();
    let i = values.len() as int;
    if i < ids.len() {
        let step = l(c, s, ids[i]);
        match step.r {
            Err(_) => (states, values),
            Ok(e) => {
                let states1 = states.push((step.c, step.s));
                let values1 = values.push(e);
                assert forall|k: int| 0 <= k < values1.len() implies l(
                    states1[k].0,
                    states1[k].1,
                    ids[k],
                ) == (Step {
                    c: states1[k + 1].0,
                    s: states1[k + 1].1,
                    r: Ok::<_, FlowModel>(#[trigger] values1[k]),
                }) by {
                    if k < i {
                        assert(values1[k] == values[k]);
                        assert(states1[k] == states[k] && states1[k + 1] == states[k + 1]);
                    }
                }
                lemma_in_turn(l, ids, states1, values1)
            },
        }
    } else {
        (states, values)
    }
}

/// A tuple lowers its items one after the other, and is the tuple of their values in their order.
/// Where one of them does not come to its end, the later ones are not lowered.
pub proof fn a_tuple_has_its_items(c: CtxModel, s: ScopeModel, l: Lowering, e: ExprTuple)
    ensures
        ({
            let last = lower_expr_tuple(c, s, l, e);
            exists|states: Seq<(CtxModel, ScopeModel)>, values: Seq<LoweredExprModel>|
                {
                    &&& #[trigger] lowered_in_turn(l, e.items@, states, values)
                    &&& states[0] == (c, s)
                    &&& match last.r {
                        Ok(value) => value == LoweredExprModel::Tuple(values) && values.len()
                            == e.items@.len() && states.last() == (last.c, last.s),
                        Err(f) => values.len() < e.items@.len() && l(
                            states.last().0,
                            states.last().1,
                            e.items@[values.len() as int],
                        ) == last,
                    }
                }
        }),
{
    reveal(lower_expr_tuple);
    let (states, values) = lemma_in_turn(l, e.items@, seq![(c, s)], Seq::empty());
    assert(lowered_in_turn(l, e.items@, states, values));
}

/// A value that is a tuple is stored by storing its items in their order, and packing them in a new
/// variable of the type of the tuple. One that is in a variable is there already.
pub proof fn a_tuple_is_packed_in_its_order(
    b: &LoweringContextBuilder,
    c: CtxModel,
    s: ScopeModel,
    e: LoweredExprModel,
)
    requires
        e !is ExternEnum,
        expr_var(b, c, s, e).r is Ok,
        expr_var(b, c, s, e).c.types.len() <= usize::MAX,
    ensures
        ({
            let last = expr_var(b, c, s, e);
            match e {
                LoweredExprModel::AtVariable(v) => last == (Step {
                    c,
                    s,
                    r: Ok::<VariableId, FlowModel>(v),
                }),
                LoweredExprModel::Tuple(es) => exists|
                    states: Seq<(CtxModel, ScopeModel)>,
                    vars: Seq<VariableId>,
                |
                    {
                        let c1 = states.last().0;
                        let output = VariableId(c1.variables.len() as usize);
                        &&& #[trigger] stored_in_turn(b, es, states, vars)
                        &&& vars.len() == es.len()
                        &&& states[0] == (c, s)
                        &&& last.r == Ok::<_, FlowModel>(output)
                        &&& adds_statement(
                            states.last().1,
                            last.s,
                            StatementModel::StructConstruct { inputs: vars, output },
                        )
                        &&& last.c.variables.len() == c1.variables.len() + 1
                        &&& type_of(last.c.types, last.c.variables.last().ty) == Some(
                            TypeModel::Tuple(
                                Seq::new(
                                    vars.len(),
                                    |k: int| c1.variables[vars[k].0 as int].ty,
                                ),
                            ),
                        )
                    },
                LoweredExprModel::ExternEnum(_) => true,
            }
        }),
{
    reveal(expr_var);
    reveal(expr_vars);
    let last = expr_var(b, c, s, e);
    if let LoweredExprModel::Tuple(es) = e {
        let step = expr_vars(b, c, s, es, 0, Seq::empty());
        let states = lemma_stored_in_turn(b, es, seq![(c, s)], Seq::empty());
        let vars = step.r->Ok_0;
        assert(stored_in_turn(b, es, states, vars));
        let t = TypeModel::Tuple(
            vars.map_values(|v: VariableId| step.c.variables[v.0 as int].ty),
        );
        interning_is_stable(step.c.types, t);
        assert(vars.map_values(|v: VariableId| step.c.variables[v.0 as int].ty) =~= Seq::new(
            vars.len(),
            |k: int| step.c.variables[vars[k].0 as int].ty,
        ));
    }
}

/// Whether the values are stored one after the other: the value `k` takes the state `k` to the next
/// one and is in the variable `k`.
pub open spec fn stored_in_turn(
    b: &LoweringContextBuilder,
    es: Seq<LoweredExprModel>,
    states: Seq<(CtxModel, ScopeModel)>,
    vars: Seq<VariableId>,
) -> bool {
    &&& states.len() == vars.len() + 1
    &&& vars.len() <= es.len()
    &&& forall|k: int|
        0 <= k < vars.len() ==> expr_var(b, states[k].0, states[k].1, es[k]) == (Step {
            c: states[k + 1].0,
            s: states[k + 1].1,
            r: Ok::<_, FlowModel>(#[trigger] vars[k]),
        })
}

proof fn lemma_stored_in_turn(
    b: &LoweringContextBuilder,
    es: Seq<LoweredExprModel>,
    states: Seq<(CtxModel, ScopeModel)>,
    vars: Seq<VariableId>,
) -> (r: Seq<(CtxModel, ScopeModel)>)
    requires
        stored_in_turn(b, es, states, vars),
        expr_vars(b, states.last().0, states.last().1, es, vars.len() as int, vars).r is Ok,
    ensures
        ({
            let step = expr_vars(
                b,
                states.last().0,
                states.last().1,
                es,
                vars.len() as int,
                vars,
            );
            &&& stored_in_turn(b, es, r, step.r->Ok_0)
            &&& step.r->Ok_0.len() == es.len()
            &&& r[0] == states[0]
            &&& r.last() == (step.c, step.s)
        }),
    decreases es.len() - vars.len(),
{
    reveal(expr_vars);
    reveal(expr_var);
    let (c, s) = states.last();
    let i = vars.len() as int;
    if i < es.len() {
        let step = expr_var(b, c, s, es[i]);
        let v = step.r->Ok_0;
        let states1 = states.push((step.c, step.s));
        let vars1 = vars.push(v);
        assert forall|k: int| 0 <= k < vars1.len() implies expr_var(
            b,
            states1[k].0,
            states1[k].1,
            es[k],
        ) == (Step {
            c: states1[k + 1].0,
            s: states1[k + 1].1,
            r: Ok::<_, FlowModel>(#[trigger] vars1[k]),
        }) by {
            if k < i {
                assert(vars1[k] == vars[k]);
                assert(states1[k] == states[k] && states1[k + 1] == states[k + 1]);
            }
        }
        lemma_stored_in_turn(b, es, states1, vars1)
    } else {
        states
    }
}

// === Calls ===

/// Each of the implicits from the place `i` on gets its variable, and the others keep theirs.
pub proof fn lemma_implicits_put(
    s: ScopeModel,
    tys: Seq<TypeId>,
    vars: Seq<VariableId>,
    i: int,
    ty: TypeId,
)
    requires
        0 <= i <= tys.len(),
        tys.no_duplicates(),
    ensures
        ({
            let t = put_implicits(s, tys, vars, i);
            &&& t == (ScopeModel { implicits: t.implicits, ..s })
            &&& forall|k: int|
                i <= k < tys.len() && #[trigger] tys[k] == ty ==> lookup(t.implicits, ty) == Some(
                    vars[k],
                )
            &&& (forall|k: int| i <= k < tys.len() ==> #[trigger] tys[k] != ty) ==> lookup(
                t.implicits,
                ty,
            ) == lookup(s.implicits, ty)
        }),
    decreases tys.len() - i,
{
    if i < tys.len() {
        lemma_lookup_assign(s.implicits, tys[i], vars[i]);
        lemma_implicits_put(put_implicit(s, tys[i], vars[i]), tys, vars, i + 1, ty);
    }
}

proof fn lemma_references_taken(
    c: CtxModel,
    s: ScopeModel,
    ids: Seq<VarId>,
    ptr: SyntaxStablePtrId,
    i: int,
    tys: Seq<TypeId>,
    vars: Seq<VariableId>,
)
    requires
        0 <= i <= ids.len(),
        tys.len() == i,
        vars.len() == i,
    ensures
        ({
            let step = take_ref_args(c, s, ids, ptr, i, tys, vars);
            step.r matches Ok((all_tys, all)) ==> {
                &&& step.c == c
                &&& step.s == (ScopeModel { vars: step.s.vars, ..s })
                &&& all_tys.len() == ids.len()
                &&& all.len() == ids.len()
                &&& forall|k: int| 0 <= k < i ==> #[trigger] all[k] == vars[k]
                &&& forall|k: int| 0 <= k < i ==> #[trigger] all_tys[k] == tys[k]
                &&& forall|k: int|
                    i <= k < ids.len() ==> is_in(s.vars, #[trigger] ids[k], all[k]) && lookup(
                        c.semantic_defs,
                        ids[k],
                    ) == Some(all_tys[k])
                &&& forall|j: int, k: int|
                    i <= j < k < ids.len() ==> #[trigger] ids[j] != #[trigger] ids[k]
                &&& forall|id: VarId|
                    (forall|k: int| i <= k < ids.len() ==> #[trigger] ids[k] != id)
                        ==> #[trigger] lookup(step.s.vars, id) == lookup(s.vars, id)
            }
        }),
    decreases ids.len() - i,
{
    if i < ids.len() {
        if let Some(ty) = lookup(c.semantic_defs, ids[i]) {
            let step = take_var(c, s, ids[i], ptr);
            if let Ok(var) = step.r {
                lemma_lookup_assign(s.vars, ids[i], SemanticVariableEntry::Moved);
                assert(is_in(s.vars, ids[i], var));
                let (tys1, vars1) = (tys.push(ty), vars.push(var));
                lemma_references_taken(step.c, step.s, ids, ptr, i + 1, tys1, vars1);
                let last = take_ref_args(c, s, ids, ptr, i, tys, vars);
                if let Ok((all_tys, all)) = last.r {
                    assert(all[i] == vars1[i] && all_tys[i] == tys1[i]);
                    assert forall|k: int| 0 <= k < i implies #[trigger] all[k] == vars[k] by {
                        assert(all[k] == vars1[k]);
                    }
                    assert forall|k: int| 0 <= k < i implies #[trigger] all_tys[k] == tys[k] by {
                        assert(all_tys[k] == tys1[k]);
                    }
                    assert forall|k: int| i < k < ids.len() implies #[trigger] ids[k]
                        != ids[i] by {
                        assert(is_in(step.s.vars, ids[k], all[k]));
                    }
                    assert forall|k: int| i <= k < ids.len() implies is_in(
                        s.vars,
                        #[trigger] ids[k],
                        all[k],
                    ) && lookup(c.semantic_defs, ids[k]) == Some(all_tys[k]) by {
                        if k > i {
                            assert(is_in(step.s.vars, ids[k], all[k]));
                        }
                    }
                    assert forall|id: VarId|
                        (forall|k: int| i <= k < ids.len() ==> #[trigger] ids[k]
                            != id) implies #[trigger] lookup(last.s.vars, id) == lookup(
                        s.vars,
                        id,
                    ) by {
                        assert(ids[i] != id);
                        assert(lookup(step.s.vars, id) == lookup(s.vars, id));
                    }
                }
            }
        }
    }
}

/// The types of what a call gives: one, or, of an external function that gives a tuple, those of its
/// items.
pub open spec fn given_tys(b: &LoweringContextBuilder, c: CtxModel, e: ExprFunctionCall) -> Seq<
    TypeId,
> {
    if b.db.extern_function_of(e.function) is Some {
        match type_of(c.types, e.ty) {
            Some(TypeModel::Tuple(tys)) => tys,
            _ => seq![e.ty],
        }
    } else {
        seq![e.ty]
    }
}

/// The value of a call whose outputs from the place `n` on are what it gives.
pub open spec fn given_value(
    b: &LoweringContextBuilder,
    c: CtxModel,
    e: ExprFunctionCall,
    outputs: Seq<VariableId>,
    n: int,
    value: LoweredExprModel,
) -> bool {
    match type_of(c.types, e.ty) {
        Some(TypeModel::Tuple(tys)) if b.db.extern_function_of(e.function) is Some => {
            &&& value is Tuple
            &&& value->Tuple_0.len() == tys.len()
            &&& forall|k: int|
                0 <= k < tys.len() ==> #[trigger] value->Tuple_0[k] == LoweredExprModel::AtVariable(
                    outputs[n + k],
                )
        },
        _ => value == LoweredExprModel::AtVariable(outputs[n]),
    }
}

/// Whether the step performs the call in the state `c` and the scope `s`, where the arguments are in
/// `args`. The inputs of the call are the implicits that it takes, the variables that are passed by
/// reference and the arguments, and its outputs are the implicits, the new values of the variables
/// that were passed by reference and what the function gives, each in their order. After it the
/// implicits and those variables are in the outputs in their places, and the others are where they
/// were.
pub open spec fn performs_call(
    b: &LoweringContextBuilder,
    c: CtxModel,
    s: ScopeModel,
    e: ExprFunctionCall,
    tys: Seq<TypeId>,
    args: Seq<VariableId>,
    last: FlowStep<LoweredExprModel>,
) -> bool {
    let refs = e.ref_args@;
    let n = tys.len();
    let m = refs.len();
    &&& last.s.statements.len() == s.statements.len() + 1
    &&& last.s.statements.drop_last() == s.statements
    &&& last.s.statements.last().refs == last.s.implicits
    &&& last.s.inputs == s.inputs
    &&& match last.s.statements.last().statement {
        StatementModel::Call { function, inputs, outputs } => {
            &&& function == e.function
            &&& inputs.len() == n + m + args.len()
            &&& outputs.len() == n + m + given_tys(b, c, e).len()
            &&& forall|k: int|
                0 <= k < n ==> lookup(s.implicits, #[trigger] tys[k]) == Some(inputs[k]) && lookup(
                    last.s.implicits,
                    tys[k],
                ) == Some(outputs[k]) && last.s.changed.contains(tys[k]) && is_new_of(
                    b,
                    last.c.variables[c.variables.len() + k],
                    tys[k],
                )
            &&& forall|k: int|
                0 <= k < m ==> is_in(s.vars, #[trigger] refs[k], inputs[n + k]) && is_in(
                    last.s.vars,
                    refs[k],
                    outputs[n + k],
                ) && last.c.variables[c.variables.len() + n + k].ty == lookup(
                    c.semantic_defs,
                    refs[k],
                )->0
            &&& forall|k: int|
                0 <= k < args.len() ==> inputs[n + m + k] == #[trigger] args[k]
            &&& forall|k: int|
                0 <= k < given_tys(b, c, e).len() ==> is_new_of(
                    b,
                    last.c.variables[c.variables.len() + n + m + k],
                    #[trigger] given_tys(b, c, e)[k],
                )
            &&& forall|k: int|
                0 <= k < outputs.len() ==> #[trigger] outputs[k] == VariableId(
                    (c.variables.len() + k) as usize,
                )
            &&& given_value(b, c, e, outputs, (n + m) as int, last.r->Ok_0)
        },
        _ => false,
    }
    &&& last.c.variables.len() == c.variables.len() + n + m + given_tys(b, c, e).len()
    &&& forall|id: VarId|
        !refs.contains(id) ==> #[trigger] lookup(last.s.vars, id) == lookup(s.vars, id)
    &&& forall|ty: TypeId|
        !tys.contains(ty) ==> #[trigger] lookup(last.s.implicits, ty) == lookup(s.implicits, ty)
}

/// A function call lowers its arguments one after the other and performs the call, unless it is a
/// panic or the result of an external function that is an enum.
pub proof fn a_call_is_performed(
    b: &LoweringContextBuilder,
    c: CtxModel,
    s: ScopeModel,
    l: Lowering,
    e: ExprFunctionCall,
)
    requires
        ({
            let args = lower_exprs_as_vars(b, c, s, l, e.args@, 0, Seq::empty());
            &&& lower_expr_function_call(b, c, s, l, e).r is Ok
            &&& e.function != b.db.core.panic_func
            &&& b.db.extern_function_of(e.function) is None || enum_of_type(args.c, e.ty) is None
            &&& b.db.function_all_implicits_of(e.function) matches Ok(tys)
                ==> tys.no_duplicates()
        }),
    ensures
        ({
            let last = lower_expr_function_call(b, c, s, l, e);
            let args = lower_exprs_as_vars(b, c, s, l, e.args@, 0, Seq::empty());
            &&& args.r is Ok
            &&& b.db.function_all_implicits_of(e.function) matches Ok(tys)
            &&& performs_call(b, args.c, args.s, e, tys, args.r->Ok_0, last)
        }),
{
    reveal(lower_expr_function_call);
    reveal(finish_call);
    let last = lower_expr_function_call(b, c, s, l, e);
    let args = lower_exprs_as_vars(b, c, s, l, e.args@, 0, Seq::empty());
    let ids = e.ref_args@;
    let none = Seq::<VariableId>::empty();
    let refs = take_ref_args(
        args.c,
        args.s,
        ids,
        e.stable_ptr,
        0,
        Seq::empty(),
        Seq::empty(),
    );
    lemma_references_taken(
        args.c,
        args.s,
        ids,
        e.stable_ptr,
        0,
        Seq::empty(),
        Seq::empty(),
    );
    let (ref_tys, ref_inputs) = refs.r->Ok_0;
    assert(ids.no_duplicates()) by {
        assert forall|j: int, k: int| 0 <= j < ids.len() && 0 <= k < ids.len() && j
            != k implies ids[j] != ids[k] by {
            if j < k {
                assert(ids[j] != ids[k]);
            } else {
                assert(ids[k] != ids[j]);
            }
        }
    }
    let tys = b.db.function_all_implicits_of(e.function)->Ok_0;
    lemma_implicits_taken(refs.s, tys, 0, none);
    let (s1, taken) = take_implicits(refs.s, tys, 0, none);
    let implicits = taken->0;
    let inputs = implicits + ref_inputs + args.r->Ok_0;
    let ret_tys = given_tys(b, args.c, e);
    let n = tys.len() as int;
    let m = ids.len() as int;
    let call = add_call(b, args.c, s1, e.function, inputs, tys, ref_tys, ret_tys);
    let s2 = put_implicits(call.s, tys, call.r.implicit_outputs, 0);
    let s3 = put_variables(s2, ids, call.r.ref_outputs, 0);
    let outputs = call.r.implicit_outputs + call.r.ref_outputs + call.r.returned;
    let any_ty = TypeId(0);
    let any_id = e.ref_args@[0];
    lemma_implicits_put(call.s, tys, call.r.implicit_outputs, 0, any_ty);
    lemma_variables_given(s2, ids, call.r.ref_outputs, 0, any_id);
    assert(call.s.statements == s1.statements.push(
        StructuredStatementModel {
            statement: StatementModel::Call { function: e.function, inputs, outputs },
            refs: s1.implicits,
        },
    ));
    assert(s3.statements == call.s.statements);
    assert(last.s.implicits == s3.implicits && last.s.vars == s3.vars);
    assert(last.s.statements.drop_last() =~= args.s.statements);
    assert(last.s.statements.last().statement == call.s.statements.last().statement);
    assert forall|k: int| 0 <= k < n implies lookup(args.s.implicits, #[trigger] tys[k]) == Some(
        inputs[k],
    ) && lookup(last.s.implicits, tys[k]) == Some(outputs[k]) && last.s.changed.contains(
        tys[k],
    ) && is_new_of(b, last.c.variables[args.c.variables.len() + k], tys[k]) by {
        lemma_implicits_put(call.s, tys, call.r.implicit_outputs, 0, tys[k]);
        assert(inputs[k] == implicits[k]);
        assert(outputs[k] == call.r.implicit_outputs[k]);
    }
    assert forall|k: int| 0 <= k < m implies is_in(
        args.s.vars,
        #[trigger] ids[k],
        inputs[n + k],
    ) && is_in(last.s.vars, ids[k], outputs[n + k]) && last.c.variables[args.c.variables.len() + n
        + k].ty == lookup(args.c.semantic_defs, ids[k])->0 by {
        lemma_variables_given(s2, ids, call.r.ref_outputs, 0, ids[k]);
        assert(inputs[n + k] == ref_inputs[k]);
        assert(outputs[n + k] == call.r.ref_outputs[k]);
    }
    assert forall|k: int| 0 <= k < (args.r->Ok_0).len() implies inputs[n + m + k]
        == #[trigger] (args.r->Ok_0)[k] by {}
    assert forall|k: int| 0 <= k < outputs.len() implies #[trigger] outputs[k] == VariableId(
        (args.c.variables.len() + k) as usize,
    ) by {}
    assert forall|id: VarId| !ids.contains(id) implies #[trigger] lookup(last.s.vars, id) == lookup(
        args.s.vars,
        id,
    ) by {
        lemma_variables_given(s2, ids, call.r.ref_outputs, 0, id);
        assert forall|k: int| 0 <= k < ids.len() implies #[trigger] ids[k] != id by {}
        assert(lookup(refs.s.vars, id) == lookup(args.s.vars, id));
    }
    assert forall|ty: TypeId| !tys.contains(ty) implies #[trigger] lookup(last.s.implicits, ty)
        == lookup(args.s.implicits, ty) by {
        lemma_implicits_put(call.s, tys, call.r.implicit_outputs, 0, ty);
        assert forall|k: int| 0 <= k < tys.len() implies #[trigger] tys[k] != ty by {}
        assert(lookup(s1.implicits, ty) == lookup(refs.s.implicits, ty));
    }
    assert forall|k: int| 0 <= k < ret_tys.len() implies is_new_of(
        b,
        last.c.variables[args.c.variables.len() + n + m + k],
        #[trigger] ret_tys[k],
    ) by {}
    assert(given_value(b, args.c, e, outputs, n + m, last.r->Ok_0)) by {
        assert(call.c.types == args.c.types);
        assert(forall|k: int|
            0 <= k < ret_tys.len() ==> outputs[n + m + k] == #[trigger] call.r.returned[k]);
        assert(b.db.extern_function_of(e.function) is None ==> ret_tys.len() == 1);
        assert(outputs[n + m] == call.r.returned[0] || ret_tys.len() == 0);
    }
}

} // verus!

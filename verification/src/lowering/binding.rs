//! What patterns bind, and what the statements of a block are lowered to.
use crate::collections::{lemma_lookup_assign, lookup};
use crate::ids::{MemberId, StatementId, TypeId, VarId, VariableId};
use crate::lowering::context::{flow_end, LoweringContextBuilder};
use crate::lowering::expressions::{adds_statement, declared_tys, makes_variables};
use crate::lowering::laws::lemma_last_field;
use crate::lowering::merging::is_in;
use crate::lowering::model::{
    add_struct_destructure, CtxModel, Failure, FlowModel, FlowStep, LoweredExprModel, ScopeEndModel,
    ScopeModel, SemanticVariableEntry, Step,
};
use crate::lowering::objects::StatementModel;
use crate::lowering::steps::{
    expr_end, expr_var, extern_enum_var, last_field, lower_block, lower_pattern, lower_statement,
    lower_struct_fields, lower_tail_expr, lower_tuple_fields, member_before, EndStep, Lowering,
};
use crate::semantic::expr::{
    ExprBlock, Pattern, PatternStruct, PatternTuple, PatternVariable, Statement,
};
use crate::semantic::types::{type_of, Member, TypeModel};
use vstd::prelude::*;

verus! {

/// Whether the step goes on, in the state and the scope.
pub open spec fn goes_to(step: FlowStep<()>, after: (CtxModel, ScopeModel)) -> bool {
    step.r is Ok && step.c == after.0 && step.s == after.1
}

// === Patterns ===

/// A variable pattern stores the value and gives it to the local variable, which has its type from
/// then on. The other variables of the source keep what they have.
pub proof fn a_variable_pattern_binds_the_value(
    b: &LoweringContextBuilder,
    c: CtxModel,
    s: ScopeModel,
    p: PatternVariable,
    e: LoweredExprModel,
)
    ensures
        ({
            let last = lower_pattern(b, c, s, Pattern::Variable(p), e);
            let value = expr_var(b, c, s, e);
            let id = VarId::Local(p.var.id);
            match value.r {
                Err(f) => last.c == value.c && last.s == value.s && last.r == Err::<
                    (),
                    FlowModel,
                >(f),
                Ok(v) => {
                    &&& last.r is Ok
                    &&& is_in(last.s.vars, id, v)
                    &&& forall|other: VarId|
                        other != id ==> #[trigger] lookup(last.s.vars, other) == lookup(
                            value.s.vars,
                            other,
                        )
                    &&& last.s == (ScopeModel { vars: last.s.vars, ..value.s })
                    &&& lookup(last.c.semantic_defs, id) == Some(p.var.ty)
                    &&& forall|other: VarId|
                        other != id ==> #[trigger] lookup(last.c.semantic_defs, other) == lookup(
                            value.c.semantic_defs,
                            other,
                        )
                    &&& last.c == (CtxModel { semantic_defs: last.c.semantic_defs, ..value.c })
                },
            }
        }),
{
    reveal(lower_pattern);
    reveal(lower_struct_fields);
    reveal(lower_tuple_fields);
    let value = expr_var(b, c, s, e);
    let id = VarId::Local(p.var.id);
    if let Ok(v) = value.r {
        lemma_lookup_assign(value.s.vars, id, SemanticVariableEntry::Alive(v));
        lemma_lookup_assign(value.c.semantic_defs, id, p.var.ty);
    }
}

/// A wildcard binds nothing.
pub proof fn a_wildcard_binds_nothing(
    b: &LoweringContextBuilder,
    c: CtxModel,
    s: ScopeModel,
    p: Pattern,
    e: LoweredExprModel,
)
    requires
        p is Otherwise,
    ensures
        lower_pattern(b, c, s, p, e) == (Step { c, s, r: Ok::<(), FlowModel>(()) }),
{
    reveal(lower_pattern);
    reveal(lower_struct_fields);
    reveal(lower_tuple_fields);
}

/// Whether the parts are bound one after the other: the part `k` to the pattern `k`, which takes the
/// state `k` to the next one.
pub open spec fn bound_in_turn(
    b: &LoweringContextBuilder,
    patterns: Seq<Pattern>,
    parts: Seq<LoweredExprModel>,
    states: Seq<(CtxModel, ScopeModel)>,
    n: int,
) -> bool {
    &&& states.len() == n + 1
    &&& n <= patterns.len()
    &&& forall|k: int|
        0 <= k < n ==> goes_to(
            lower_pattern(b, states[k].0, states[k].1, #[trigger] patterns[k], parts[k]),
            states[k + 1],
        )
}

proof fn lemma_tuple_in_turn(
    b: &LoweringContextBuilder,
    t: PatternTuple,
    parts: Seq<LoweredExprModel>,
    states: Seq<(CtxModel, ScopeModel)>,
    i: int,
) -> (r: Seq<(CtxModel, ScopeModel)>)
    requires
        0 <= i <= parts.len(),
        parts.len() == t.field_patterns@.len(),
        bound_in_turn(b, t.field_patterns@, parts, states, i),
        lower_tuple_fields(
            b,
            states.last().0,
            states.last().1,
            Pattern::Tuple(t),
            parts,
            i,
        ).r is Ok,
    ensures
        ({
            let step = lower_tuple_fields(
                b,
                states.last().0,
                states.last().1,
                Pattern::Tuple(t),
                parts,
                i,
            );
            &&& bound_in_turn(b, t.field_patterns@, parts, r, parts.len() as int)
            &&& r[0] == states[0]
            &&& r.last() == (step.c, step.s)
        }),
    decreases parts.len() - i,
{
    reveal(lower_pattern);
    reveal(lower_struct_fields);
    reveal(lower_tuple_fields);
    let (c, s) = states.last();
    let patterns = t.field_patterns@;
    if i < parts.len() {
        let step = lower_pattern(b, c, s, patterns[i], parts[i]);
        let states1 = states.push((step.c, step.s));
        assert forall|k: int| 0 <= k < i + 1 implies goes_to(
            lower_pattern(b, states1[k].0, states1[k].1, #[trigger] patterns[k], parts[k]),
            states1[k + 1],
        ) by {
            if k < i {
                assert(states1[k] == states[k] && states1[k + 1] == states[k + 1]);
            }
        }
        lemma_tuple_in_turn(b, t, parts, states1, i + 1)
    } else {
        states
    }
}

/// A tuple pattern binds the items of the value to its patterns, in their order. The items of a
/// tuple that was not stored are its own; another value is taken apart by one statement, into a new
/// variable for each item.
pub proof fn a_tuple_pattern_binds_the_items(
    b: &LoweringContextBuilder,
    c: CtxModel,
    s: ScopeModel,
    p: PatternTuple,
    e: LoweredExprModel,
)
    requires
        lower_pattern(b, c, s, Pattern::Tuple(p), e).r is Ok,
    ensures
        ({
            let last = lower_pattern(b, c, s, Pattern::Tuple(p), e);
            let n = p.field_patterns@.len() as int;
            exists|states: Seq<(CtxModel, ScopeModel)>, parts: Seq<LoweredExprModel>|
                {
                    &&& #[trigger] bound_in_turn(b, p.field_patterns@, parts, states, n)
                    &&& parts.len() == n
                    &&& states.last() == (last.c, last.s)
                    &&& items_of(b, c, s, p.ty, e, parts, states[0].0, states[0].1)
                }
        }),
{
    reveal(lower_pattern);
    reveal(lower_struct_fields);
    reveal(lower_tuple_fields);
    let n = p.field_patterns@.len() as int;
    match e {
        LoweredExprModel::Tuple(es) => {
            let states = lemma_tuple_in_turn(b, p, es, seq![(c, s)], 0);
            assert(bound_in_turn(b, p.field_patterns@, es, states, n));
        },
        _ => {
            let tys = type_of(c.types, p.ty)->0->Tuple_0;
            let value = expr_var(b, c, s, e);
            let v = value.r->Ok_0;
            let parts = add_struct_destructure(b, value.c, value.s, v, tys);
            let es = parts.r.map_values(|v: VariableId| LoweredExprModel::AtVariable(v));
            let states = lemma_tuple_in_turn(b, p, es, seq![(parts.c, parts.s)], 0);
            assert(bound_in_turn(b, p.field_patterns@, es, states, n));
            assert(makes_variables(b, value.c, parts.c, tys, parts.r));
        },
    }
}

/// Whether the parts are the items of the value, in the state `c1` and the scope `s1`.
pub open spec fn items_of(
    b: &LoweringContextBuilder,
    c: CtxModel,
    s: ScopeModel,
    ty: TypeId,
    e: LoweredExprModel,
    parts: Seq<LoweredExprModel>,
    c1: CtxModel,
    s1: ScopeModel,
) -> bool {
    match e {
        LoweredExprModel::Tuple(es) => parts == es && c1 == c && s1 == s,
        _ => {
            let value = expr_var(b, c, s, e);
            &&& value.r is Ok
            &&& type_of(c.types, ty) matches Some(TypeModel::Tuple(tys))
            &&& exists|outputs: Seq<VariableId>|
                {
                    &&& #[trigger] makes_variables(b, value.c, c1, tys, outputs)
                    &&& adds_statement(
                        value.s,
                        s1,
                        StatementModel::StructDestructure { input: value.r->Ok_0, outputs },
                    )
                    &&& parts.len() == outputs.len()
                    &&& forall|k: int|
                        0 <= k < outputs.len() ==> #[trigger] parts[k]
                            == LoweredExprModel::AtVariable(outputs[k])
                }
        },
    }
}

/// Whether the pattern is the last one that is written for the member.
pub open spec fn is_pattern_of(
    fields: Seq<(Member, Pattern)>,
    member: MemberId,
    p: Pattern,
) -> bool {
    exists|i: int|
        {
            &&& 0 <= i < fields.len()
            &&& (#[trigger] fields[i]).0.id == member
            &&& fields[i].1 == p
            &&& forall|j: int| i < j < fields.len() ==> (#[trigger] fields[j]).0.id != member
        }
}

/// Whether a pattern is written for the member.
pub open spec fn has_pattern(fields: Seq<(Member, Pattern)>, member: MemberId) -> bool {
    exists|i: int| 0 <= i < fields.len() && (#[trigger] fields[i]).0.id == member
}

/// Whether the members are bound one after the other, in the order of declaration: the member `k`,
/// whose value is in the variable `k`, to the pattern that is written for it, which takes the state
/// `k` to the next one. A member without a pattern changes nothing.
pub open spec fn members_bound_in_turn(
    b: &LoweringContextBuilder,
    fields: Seq<(Member, Pattern)>,
    members: Seq<Member>,
    vars: Seq<VariableId>,
    states: Seq<(CtxModel, ScopeModel)>,
    n: int,
) -> bool {
    &&& states.len() == n + 1
    &&& n <= members.len()
    &&& forall|k: int|
        0 <= k < n ==> member_bound(
            b,
            fields,
            (#[trigger] members[k]).id,
            vars[k],
            states[k],
            states[k + 1],
        )
}

/// Whether the member in the variable is bound to its pattern.
pub open spec fn member_bound(
    b: &LoweringContextBuilder,
    fields: Seq<(Member, Pattern)>,
    member: MemberId,
    v: VariableId,
    before: (CtxModel, ScopeModel),
    after: (CtxModel, ScopeModel),
) -> bool {
    if has_pattern(fields, member) {
        exists|p: Pattern| #[trigger]
            is_pattern_of(fields, member, p) && goes_to(
                lower_pattern(b, before.0, before.1, p, LoweredExprModel::AtVariable(v)),
                after,
            )
    } else {
        after == before
    }
}

proof fn lemma_members_in_turn(
    b: &LoweringContextBuilder,
    p: PatternStruct,
    members: Seq<Member>,
    vars: Seq<VariableId>,
    states: Seq<(CtxModel, ScopeModel)>,
    i: int,
) -> (r: Seq<(CtxModel, ScopeModel)>)
    requires
        0 <= i <= members.len(),
        forall|j: int, k: int|
            0 <= j < k < members.len() ==> (#[trigger] members[j]).id != (
            #[trigger] members[k]).id,
        members_bound_in_turn(b, p.field_patterns@, members, vars, states, i),
        lower_struct_fields(
            b,
            states.last().0,
            states.last().1,
            Pattern::Struct(p),
            members,
            vars,
            i,
        ).r is Ok,
    ensures
        ({
            let step = lower_struct_fields(
                b,
                states.last().0,
                states.last().1,
                Pattern::Struct(p),
                members,
                vars,
                i,
            );
            &&& members_bound_in_turn(
                b,
                p.field_patterns@,
                members,
                vars,
                r,
                members.len() as int,
            )
            &&& r[0] == states[0]
            &&& r.last() == (step.c, step.s)
        }),
    decreases members.len() - i,
{
    reveal(lower_pattern);
    reveal(lower_struct_fields);
    reveal(lower_tuple_fields);
    let (c, s) = states.last();
    let fields = p.field_patterns@;
    if i < members.len() {
        let member = members[i].id;
        let k0 = last_field(fields, member, fields.len() as int);
        lemma_last_field(fields, member, fields.len() as int);
        lemma_last_is_last(fields, member, fields.len() as int);
        assert(!member_before(members, member, i));
        let next = if k0 >= 0 {
            let step = lower_pattern(
                b,
                c,
                s,
                fields[k0].1,
                LoweredExprModel::AtVariable(vars[i]),
            );
            (step.c, step.s)
        } else {
            (c, s)
        };
        let states1 = states.push(next);
        assert(member_bound(b, fields, member, vars[i], states1[i], states1[i + 1])) by {
            if k0 >= 0 {
                let step = lower_pattern(
                    b,
                    c,
                    s,
                    fields[k0].1,
                    LoweredExprModel::AtVariable(vars[i]),
                );
                assert(fields[k0].0.id == member);
                assert(is_pattern_of(fields, member, fields[k0].1));
            }
        }
        assert forall|k: int| 0 <= k < i + 1 implies member_bound(
            b,
            fields,
            (#[trigger] members[k]).id,
            vars[k],
            states1[k],
            states1[k + 1],
        ) by {
            if k < i {
                assert(states1[k] == states[k] && states1[k + 1] == states[k + 1]);
            }
        }
        lemma_members_in_turn(b, p, members, vars, states1, i + 1)
    } else {
        states
    }
}

/// The last field pattern of a member is behind all others of it.
proof fn lemma_last_is_last(fields: Seq<(Member, Pattern)>, member: MemberId, i: int)
    requires
        0 <= i <= fields.len(),
    ensures
        forall|j: int|
            last_field(fields, member, i) < j < i ==> (#[trigger] fields[j]).0.id != member,
    decreases i,
{
    if 0 < i {
        lemma_last_is_last(fields, member, i - 1);
    }
}

/// A struct pattern takes the value apart by one statement, into a new variable for each member in
/// the order of declaration, and binds each member to the pattern that is written for it.
pub proof fn a_struct_pattern_binds_the_members(
    b: &LoweringContextBuilder,
    c: CtxModel,
    s: ScopeModel,
    p: PatternStruct,
    e: LoweredExprModel,
)
    requires
        lower_pattern(b, c, s, Pattern::Struct(p), e).r is Ok,
        b.db.struct_members_of(p.id) matches Ok(members) ==> forall|j: int, k: int|
            0 <= j < k < members.len() ==> (#[trigger] members[j]).id != (
            #[trigger] members[k]).id,
    ensures
        ({
            let last = lower_pattern(b, c, s, Pattern::Struct(p), e);
            let value = expr_var(b, c, s, e);
            &&& value.r is Ok
            &&& b.db.struct_members_of(p.id) matches Ok(members)
            &&& exists|states: Seq<(CtxModel, ScopeModel)>, outputs: Seq<VariableId>|
                {
                    &&& #[trigger] members_bound_in_turn(
                        b,
                        p.field_patterns@,
                        members,
                        outputs,
                        states,
                        members.len() as int,
                    )
                    &&& makes_variables(
                        b,
                        value.c,
                        states[0].0,
                        declared_tys(members),
                        outputs,
                    )
                    &&& adds_statement(
                        value.s,
                        states[0].1,
                        StatementModel::StructDestructure { input: value.r->Ok_0, outputs },
                    )
                    &&& states.last() == (last.c, last.s)
                }
        }),
{
    reveal(lower_pattern);
    reveal(lower_struct_fields);
    reveal(lower_tuple_fields);
    let members = b.db.struct_members_of(p.id)->Ok_0;
    let value = expr_var(b, c, s, e);
    let tys = members.map_values(|m: Member| m.ty);
    assert(tys =~= declared_tys(members));
    let parts = add_struct_destructure(b, value.c, value.s, value.r->Ok_0, tys);
    let states = lemma_members_in_turn(b, p, members, parts.r, seq![(parts.c, parts.s)], 0);
    assert(makes_variables(b, value.c, parts.c, declared_tys(members), parts.r));
    assert(members_bound_in_turn(
        b,
        p.field_patterns@,
        members,
        parts.r,
        states,
        members.len() as int,
    ));
}

// === Statements ===

/// A let statement lowers its expression and binds the value to its pattern. An expression statement
/// lowers its expression, and performs the call of an external function that waits for its result to
/// be used.
pub proof fn a_statement_lowers_its_expression(
    b: &LoweringContextBuilder,
    c: CtxModel,
    s: ScopeModel,
    l: Lowering,
    stmt: Statement,
)
    requires
        stmt !is Return,
    ensures
        ({
            let last = lower_statement(b, c, s, l, stmt);
            let id = match stmt {
                Statement::Expr(st) => st.expr,
                Statement::Let(st) => st.expr,
                Statement::Return(st) => st.expr,
            };
            let expr = l(c, s, id);
            match expr.r {
                Err(f) => last == (Step { c: expr.c, s: expr.s, r: Err::<(), FlowModel>(f) }),
                Ok(e) => match stmt {
                    Statement::Let(st) => last == lower_pattern(
                        b,
                        expr.c,
                        expr.s,
                        st.pattern,
                        e,
                    ),
                    _ => match e {
                        LoweredExprModel::ExternEnum(x) => {
                            let call = extern_enum_var(b, expr.c, expr.s, x);
                            &&& last.c == call.c
                            &&& last.s == call.s
                            &&& last.r is Ok <==> call.r is Ok
                            &&& call.r matches Err(f) ==> last.r == Err::<(), FlowModel>(f)
                        },
                        _ => last == (Step { c: expr.c, s: expr.s, r: Ok::<(), FlowModel>(()) }),
                    },
                },
            }
        }),
{
    reveal(lower_statement);
}

/// Whether the statements of the block are lowered one after the other, the first `n` of them: the
/// statement `k` takes the state `k` to the next one.
pub open spec fn statements_in_turn(
    b: &LoweringContextBuilder,
    l: Lowering,
    ids: Seq<StatementId>,
    states: Seq<(CtxModel, ScopeModel)>,
    n: int,
) -> bool {
    &&& states.len() == n + 1
    &&& n <= ids.len()
    &&& forall|k: int|
        0 <= k < n ==> goes_to(
            lower_statement(
                b,
                states[k].0,
                states[k].1,
                l,
                b.function_def.statements@[(#[trigger] ids[k]).0 as int],
            ),
            states[k + 1],
        )
}

proof fn lemma_statements_in_turn(
    b: &LoweringContextBuilder,
    l: Lowering,
    e: ExprBlock,
    root: bool,
    states: Seq<(CtxModel, ScopeModel)>,
    i: int,
) -> (r: (Seq<(CtxModel, ScopeModel)>, int))
    requires
        0 <= i <= e.statements@.len(),
        forall|k: int|
            0 <= k < e.statements@.len() ==> (#[trigger] e.statements@[k]).0
                < b.function_def.statements@.len(),
        statements_in_turn(b, l, e.statements@, states, i),
    ensures
        ({
            let last = lower_block(b, states.last().0, states.last().1, l, e, root, i);
            let (reached, n) = r;
            &&& 0 <= n
            &&& statements_in_turn(b, l, e.statements@, reached, n)
            &&& reached[0] == states[0]
            &&& block_ends(b, l, e, root, reached.last().0, reached.last().1, n, last)
        }),
    decreases e.statements@.len() - i,
{
    reveal(lower_block);
    reveal(lower_tail_expr);
    let ids = e.statements@;
    let (c, s) = states.last();
    if i < ids.len() {
        let step = lower_statement(b, c, s, l, b.function_def.statements@[ids[i].0 as int]);
        match step.r {
            Ok(_) => {
                let states1 = states.push((step.c, step.s));
                assert forall|k: int| 0 <= k < i + 1 implies goes_to(
                    lower_statement(
                        b,
                        states1[k].0,
                        states1[k].1,
                        l,
                        b.function_def.statements@[(#[trigger] ids[k]).0 as int],
                    ),
                    states1[k + 1],
                ) by {
                    if k < i {
                        assert(states1[k] == states[k] && states1[k + 1] == states[k + 1]);
                    }
                }
                lemma_statements_in_turn(b, l, e, root, states1, i + 1)
            },
            Err(_) => (states, i),
        }
    } else {
        (states, i)
    }
}

/// How a block ends whose first `n` statements were lowered, in the state `c` and the scope `s`:
/// behind the last one, with its tail; or in the next one, from which the flow does not go on.
pub open spec fn block_ends(
    b: &LoweringContextBuilder,
    l: Lowering,
    e: ExprBlock,
    root: bool,
    c: CtxModel,
    s: ScopeModel,
    n: int,
    last: EndStep,
) -> bool {
    let ids = e.statements@;
    if n == ids.len() {
        match e.tail {
            Some(tail) => {
                let expr = l(c, s, tail);
                last == expr_end(b, expr.c, expr.s, expr.r, root)
            },
            None => if root {
                last == expr_end(b, c, s, Ok(LoweredExprModel::Tuple(Seq::empty())), root)
            } else {
                last == (Step {
                    c,
                    s,
                    r: Ok::<_, Failure>(ScopeEndModel::Callsite(None)),
                })
            },
        }
    } else {
        let step = lower_statement(b, c, s, l, b.function_def.statements@[ids[n].0 as int]);
        &&& n < ids.len()
        &&& step.r is Err
        &&& last.s == step.s
        &&& last.r == flow_end(step.r->Err_0)
        &&& (n + 1 == ids.len() || last.r is Err) ==> last.c == step.c
        &&& last.c == (CtxModel { diagnostics: last.c.diagnostics, ..step.c })
    }
}

/// A block lowers its statements one after the other, and then its tail, which it ends with. Where
/// the flow does not go on from a statement, the block ends there.
pub proof fn a_block_lowers_its_statements_in_turn(
    b: &LoweringContextBuilder,
    c: CtxModel,
    s: ScopeModel,
    l: Lowering,
    e: ExprBlock,
    root: bool,
)
    requires
        forall|k: int|
            0 <= k < e.statements@.len() ==> (#[trigger] e.statements@[k]).0
                < b.function_def.statements@.len(),
    ensures
        exists|states: Seq<(CtxModel, ScopeModel)>, n: int|
            {
                &&& 0 <= n
                &&& #[trigger] statements_in_turn(b, l, e.statements@, states, n)
                &&& states[0] == (c, s)
                &&& block_ends(
                    b,
                    l,
                    e,
                    root,
                    states.last().0,
                    states.last().1,
                    n,
                    lower_block(b, c, s, l, e, root, 0),
                )
            },
{
    let (states, n) = lemma_statements_in_turn(b, l, e, root, seq![(c, s)], 0);
    assert(statements_in_turn(b, l, e.statements@, states, n));
}

} // verus!

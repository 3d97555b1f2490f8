//! What holds of the lowering as a whole.
use crate::collections::{lemma_filter_member, lemma_lookup_assign, lookup, unique_keys};
use crate::ids::{BlockId, ExprId, MemberId, SyntaxStablePtrId, TypeId, VarId, VariableId};
use crate::lowering::context::{flow_end, LoweringContextBuilder};
use crate::lowering::function::{first_state, lower_function};
use crate::lowering::model::{
    add_struct_destructure, alive_in, alive_pairs, bring_back_test, done, ended, entry_of,
    finalized, is_bring_back, is_unchanged, merger_ok, new_var, next_var, push_statement,
    put_implicit, put_semantic_variable, report, unchanged_test, CallBlockResultModel, CtxModel,
    ExternEnumModel, Failure, FlowModel, LoweredExprModel, MergerModel, ScopeModel,
    SemanticVariableEntry, Step,
};
use crate::lowering::objects::{LoweringDiagnosticKind, StatementModel};
use crate::lowering::steps::{
    after_blocks, enum_of_type, expr_var, finish_call, last_field, last_member_expr, lower_block,
    lower_expr_struct_ctor, lower_expr_var, lower_exprs_as_vars, lower_members, lower_pattern,
    lower_statement, lower_struct_fields, lower_tuple_fields, member_before, push_implicits,
    put_implicit_pairs, put_variable_pairs, put_variables, take_var, use_var, Lowering,
};
use crate::semantic::expr::{ExprBlock, ExprFunctionCall, ExprStructCtor, Pattern, PatternStruct};
use crate::semantic::types::{Member, TypeModel};
use vstd::prelude::*;

verus! {

// === Variables of the source ===

/// A variable of the source that was moved is neither used nor moved again: it is reported, and
/// nothing else changes.
pub proof fn a_moved_variable_is_refused(
    c: CtxModel,
    s: ScopeModel,
    id: VarId,
    ptr: SyntaxStablePtrId,
)
    requires
        entry_of(s, id) is Moved,
    ensures
        use_var(c, s, id, ptr) == take_var(c, s, id, ptr),
        use_var(c, s, id, ptr) == ended::<VariableId>(
            report(c, ptr, LoweringDiagnosticKind::VariableMoved),
            s,
            FlowModel::Failed(Failure::Diagnosed),
        ),
{
}

/// Moving a variable of the source succeeds exactly when it was not moved before. It is moved
/// after that, and the others are as they were.
pub proof fn taking_moves(c: CtxModel, s: ScopeModel, id: VarId, ptr: SyntaxStablePtrId)
    ensures
        take_var(c, s, id, ptr).r is Ok <==> entry_of(s, id) is Alive,
        entry_of(take_var(c, s, id, ptr).s, id) is Moved,
        forall|other: VarId|
            other != id ==> #[trigger] entry_of(take_var(c, s, id, ptr).s, other) == entry_of(
                s,
                other,
            ),
{
    lemma_lookup_assign(s.vars, id, SemanticVariableEntry::Moved);
}

/// Using a variable of the source gives its value. It is moved after that, unless the value can be
/// duplicated.
pub proof fn using_moves_what_cannot_be_duplicated(
    c: CtxModel,
    s: ScopeModel,
    id: VarId,
    ptr: SyntaxStablePtrId,
)
    requires
        entry_of(s, id) is Alive,
    ensures
        ({
            let var = entry_of(s, id)->Alive_0;
            let step = use_var(c, s, id, ptr);
            &&& step.r == Ok::<VariableId, FlowModel>(var)
            &&& step.c == c
            &&& if c.variables[var.0 as int].duplicatable {
                step.s == s
            } else {
                step.s == take_var(c, s, id, ptr).s && entry_of(step.s, id) is Moved
            }
        }),
{
    taking_moves(c, s, id, ptr);
}

/// A variable of the source has the value that it was last given.
pub proof fn a_variable_has_what_it_was_given(s: ScopeModel, id: VarId, var: VariableId)
    ensures
        entry_of(put_semantic_variable(s, id, var), id) == SemanticVariableEntry::Alive(var),
        forall|other: VarId|
            other != id ==> #[trigger] entry_of(put_semantic_variable(s, id, var), other)
                == entry_of(s, other),
{
    lemma_lookup_assign(s.vars, id, SemanticVariableEntry::Alive(var));
}

// === Lists of expressions ===

/// Whether the expressions from the place `i` on are lowered one after the other, as many as there
/// are variables: the one at the place `i + k` takes the state `k` to the next one and is in the
/// variable `k`.
pub open spec fn lowered_one_by_one(
    b: &LoweringContextBuilder,
    l: Lowering,
    ids: Seq<ExprId>,
    i: int,
    states: Seq<(CtxModel, ScopeModel)>,
    vars: Seq<VariableId>,
) -> bool {
    &&& states.len() == vars.len() + 1
    &&& i + vars.len() <= ids.len()
    &&& forall|k: int|
        0 <= k < vars.len() ==> lower_expr_var(b, states[k].0, states[k].1, l, ids[i + k]) == done(
            states[k + 1].0,
            states[k + 1].1,
            #[trigger] vars[k],
        )
}

/// How the lowering goes on behind the variables `new`, which came after `vars`.
proof fn lemma_one_by_one(
    b: &LoweringContextBuilder,
    l: Lowering,
    ids: Seq<ExprId>,
    i: int,
    vars: Seq<VariableId>,
    states: Seq<(CtxModel, ScopeModel)>,
    new: Seq<VariableId>,
) -> (r: (Seq<(CtxModel, ScopeModel)>, Seq<VariableId>))
    requires
        0 <= i,
        lowered_one_by_one(b, l, ids, i, states, new),
    ensures
        ({
            let step = lower_exprs_as_vars(
                b,
                states.last().0,
                states.last().1,
                l,
                ids,
                i + new.len(),
                vars + new,
            );
            let (reached, got) = r;
            &&& lowered_one_by_one(b, l, ids, i, reached, got)
            &&& reached[0] == states[0]
            &&& match step.r {
                Ok(all) => all == vars + got && i + got.len() == ids.len() && reached.last() == (
                    step.c,
                    step.s,
                ),
                Err(f) => i + got.len() < ids.len() && lower_expr_var(
                    b,
                    reached.last().0,
                    reached.last().1,
                    l,
                    ids[i + got.len()],
                ) == ended::<VariableId>(step.c, step.s, f),
            }
        }),
    decreases ids.len() - i - new.len(),
{
    reveal(lower_exprs_as_vars);
    let (c, s) = states.last();
    if i + new.len() < ids.len() {
        let step = lower_expr_var(b, c, s, l, ids[i + new.len()]);
        match step.r {
            Err(_) => (states, new),
            Ok(v) => {
                let states1 = states.push((step.c, step.s));
                let new1 = new.push(v);
                assert forall|k: int| 0 <= k < new1.len() implies lower_expr_var(
                    b,
                    states1[k].0,
                    states1[k].1,
                    l,
                    ids[i + k],
                ) == done(states1[k + 1].0, states1[k + 1].1, #[trigger] new1[k]) by {
                    if k < new.len() {
                        assert(new1[k] == new[k]);
                        assert(states1[k] == states[k] && states1[k + 1] == states[k + 1]);
                    }
                }
                assert((vars + new).push(v) =~= vars + new1);
                lemma_one_by_one(b, l, ids, i, vars, states1, new1)
            },
        }
    } else {
        (states, new)
    }
}

/// The expressions from the place `i` on are lowered one after the other. Each of them gets a
/// variable, or the flow ends in the first that does not come to its end: then there are no
/// variables, and the later expressions are not lowered, for the state is the one in which that
/// expression left off.
pub proof fn every_expression_gets_a_variable(
    b: &LoweringContextBuilder,
    c: CtxModel,
    s: ScopeModel,
    l: Lowering,
    ids: Seq<ExprId>,
    i: int,
    vars: Seq<VariableId>,
)
    requires
        0 <= i <= ids.len(),
    ensures
        exists|states: Seq<(CtxModel, ScopeModel)>, new: Seq<VariableId>|
            {
                &&& #[trigger] lowered_one_by_one(b, l, ids, i, states, new)
                &&& states[0] == (c, s)
                &&& match lower_exprs_as_vars(b, c, s, l, ids, i, vars).r {
                    Ok(all) => {
                        &&& all == vars + new
                        &&& i + new.len() == ids.len()
                        &&& lower_exprs_as_vars(b, c, s, l, ids, i, vars) == done(
                            states.last().0,
                            states.last().1,
                            all,
                        )
                    },
                    Err(f) => {
                        &&& i + new.len() < ids.len()
                        &&& lower_expr_var(
                            b,
                            states.last().0,
                            states.last().1,
                            l,
                            ids[i + new.len()],
                        ) == ended::<VariableId>(
                            lower_exprs_as_vars(b, c, s, l, ids, i, vars).c,
                            lower_exprs_as_vars(b, c, s, l, ids, i, vars).s,
                            f,
                        )
                    },
                }
            },
{
    assert(vars + Seq::<VariableId>::empty() =~= vars);
    let (states, new) = lemma_one_by_one(
        b,
        l,
        ids,
        i,
        vars,
        seq![(c, s)],
        Seq::<VariableId>::empty(),
    );
    assert(lowered_one_by_one(b, l, ids, i, states, new));
}

// === Structs ===

proof fn lemma_last_member_expr(
    values: Seq<(MemberId, ExprId)>,
    member: MemberId,
    i: int,
    e: ExprId,
)
    requires
        unique_keys(values),
        0 <= i <= values.len(),
    ensures
        last_member_expr(values, member, i) == Some(e) <==> exists|k: int|
            0 <= k < i && #[trigger] values[k] == (member, e),
    decreases i,
{
    if 0 < i {
        lemma_last_member_expr(values, member, i - 1, e);
        if values[i - 1].0 == member {
            assert(values[i - 1] == (member, values[i - 1].1));
        }
    }
}

proof fn lemma_same_members(
    b: &LoweringContextBuilder,
    c: CtxModel,
    s: ScopeModel,
    l: Lowering,
    members: Seq<Member>,
    values: Seq<(MemberId, ExprId)>,
    others: Seq<(MemberId, ExprId)>,
    i: int,
    vars: Seq<VariableId>,
)
    requires
        forall|k: int|
            0 <= k < members.len() ==> last_member_expr(
                values,
                (#[trigger] members[k]).id,
                values.len() as int,
            ) == last_member_expr(others, members[k].id, others.len() as int),
    ensures
        lower_members(b, c, s, l, members, values, i, vars) == lower_members(
            b,
            c,
            s,
            l,
            members,
            others,
            i,
            vars,
        ),
    decreases members.len() - i,
{
    reveal(lower_members);
    if 0 <= i < members.len() {
        match last_member_expr(values, members[i].id, values.len() as int) {
            None => {},
            Some(e) => {
                let step = lower_expr_var(b, c, s, l, e);
                if step.r is Ok {
                    lemma_same_members(
                        b,
                        step.c,
                        step.s,
                        l,
                        members,
                        values,
                        others,
                        i + 1,
                        vars.push(step.r->Ok_0),
                    );
                }
            },
        }
    }
}

/// Two ways to write a struct that give each of its members the same value are lowered alike: the
/// same statements are added, and the same comes out.
pub proof fn the_same_values_make_the_same_struct(
    b: &LoweringContextBuilder,
    c: CtxModel,
    s: ScopeModel,
    l: Lowering,
    e: ExprStructCtor,
    other: ExprStructCtor,
)
    requires
        e.struct_id == other.struct_id,
        e.ty == other.ty,
        b.db.struct_members_of(e.struct_id) matches Ok(members) ==> forall|k: int|
            0 <= k < members.len() ==> last_member_expr(
                e.members@,
                (#[trigger] members[k]).id,
                e.members@.len() as int,
            ) == last_member_expr(other.members@, members[k].id, other.members@.len() as int),
    ensures
        lower_expr_struct_ctor(b, c, s, l, e) == lower_expr_struct_ctor(b, c, s, l, other),
{
    reveal(lower_expr_struct_ctor);
    if let Ok(members) = b.db.struct_members_of(e.struct_id) {
        lemma_same_members(
            b,
            c,
            s,
            l,
            members,
            e.members@,
            other.members@,
            0,
            Seq::empty(),
        );
    }
}

/// Where no member is named twice, the order in which the members of a struct are written does not
/// matter.
pub proof fn members_are_written_in_any_order(
    b: &LoweringContextBuilder,
    c: CtxModel,
    s: ScopeModel,
    l: Lowering,
    e: ExprStructCtor,
    other: ExprStructCtor,
)
    requires
        e.struct_id == other.struct_id,
        e.ty == other.ty,
        unique_keys(e.members@),
        unique_keys(other.members@),
        forall|m: (MemberId, ExprId)|
            e.members@.contains(m) <==> #[trigger] other.members@.contains(m),
    ensures
        lower_expr_struct_ctor(b, c, s, l, e) == lower_expr_struct_ctor(b, c, s, l, other),
{
    let values = e.members@;
    let others = other.members@;
    assert forall|member: MemberId| #[trigger]
        last_member_expr(values, member, values.len() as int) == last_member_expr(
            others,
            member,
            others.len() as int,
        ) by {
        let x = last_member_expr(values, member, values.len() as int);
        let y = last_member_expr(others, member, others.len() as int);
        if let Some(v) = x {
            lemma_last_member_expr(values, member, values.len() as int, v);
            lemma_last_member_expr(others, member, others.len() as int, v);
            assert(values.contains((member, v)));
            assert(others.contains((member, v)));
        }
        if let Some(v) = y {
            lemma_last_member_expr(values, member, values.len() as int, v);
            lemma_last_member_expr(others, member, others.len() as int, v);
            assert(others.contains((member, v)));
            assert(values.contains((member, v)));
        }
    }
    the_same_values_make_the_same_struct(b, c, s, l, e, other);
}

/// Whether the values of the members are lowered one after the other, in the order in which the
/// struct declares its members: that of the member `k` takes the state `k` to the next one and is
/// in the variable `k`.
pub open spec fn lowered_in_order(
    b: &LoweringContextBuilder,
    l: Lowering,
    members: Seq<Member>,
    values: Seq<(MemberId, ExprId)>,
    states: Seq<(CtxModel, ScopeModel)>,
    vars: Seq<VariableId>,
) -> bool {
    &&& states.len() == vars.len() + 1
    &&& vars.len() <= members.len()
    &&& forall|k: int|
        0 <= k < vars.len() ==> match last_member_expr(
            values,
            (#[trigger] members[k]).id,
            values.len() as int,
        ) {
            Some(e) => lower_expr_var(b, states[k].0, states[k].1, l, e) == done(
                states[k + 1].0,
                states[k + 1].1,
                vars[k],
            ),
            None => false,
        }
}

proof fn lemma_members_in_order(
    b: &LoweringContextBuilder,
    l: Lowering,
    members: Seq<Member>,
    values: Seq<(MemberId, ExprId)>,
    states: Seq<(CtxModel, ScopeModel)>,
    vars: Seq<VariableId>,
) -> (r: Seq<(CtxModel, ScopeModel)>)
    requires
        lowered_in_order(b, l, members, values, states, vars),
        lower_members(
            b,
            states.last().0,
            states.last().1,
            l,
            members,
            values,
            vars.len() as int,
            vars,
        ).r is Ok,
    ensures
        ({
            let step = lower_members(
                b,
                states.last().0,
                states.last().1,
                l,
                members,
                values,
                vars.len() as int,
                vars,
            );
            &&& lowered_in_order(b, l, members, values, r, step.r->Ok_0)
            &&& (step.r->Ok_0).len() == members.len()
            &&& r[0] == states[0]
            &&& r.last() == (step.c, step.s)
        }),
    decreases members.len() - vars.len(),
{
    reveal(lower_members);
    let i = vars.len() as int;
    let (c, s) = states.last();
    if i < members.len() {
        let e = last_member_expr(values, members[i].id, values.len() as int)->0;
        let step = lower_expr_var(b, c, s, l, e);
        let v = step.r->Ok_0;
        let states1 = states.push((step.c, step.s));
        let vars1 = vars.push(v);
        assert(lowered_in_order(b, l, members, values, states1, vars1)) by {
            assert forall|k: int| 0 <= k < vars1.len() implies match last_member_expr(
                values,
                (#[trigger] members[k]).id,
                values.len() as int,
            ) {
                Some(e) => lower_expr_var(b, states1[k].0, states1[k].1, l, e) == done(
                    states1[k + 1].0,
                    states1[k + 1].1,
                    vars1[k],
                ),
                None => false,
            } by {
                if k < i {
                    assert(states1[k] == states[k] && states1[k + 1] == states[k + 1]);
                }
            }
        }
        lemma_members_in_order(b, l, members, values, states1, vars1)
    } else {
        states
    }
}

/// A struct that is made gets the values of its members in the order in which it declares them.
/// They are lowered in this order, and one statement follows: it makes the struct, in a new
/// variable of the type of the expression.
pub proof fn a_struct_is_made_of_its_members(
    b: &LoweringContextBuilder,
    c: CtxModel,
    s: ScopeModel,
    l: Lowering,
    e: ExprStructCtor,
)
    requires
        lower_expr_struct_ctor(b, c, s, l, e).r is Ok,
    ensures
        match b.db.struct_members_of(e.struct_id) {
            Err(_) => false,
            Ok(members) => exists|states: Seq<(CtxModel, ScopeModel)>, inputs: Seq<VariableId>|
                {
                    &&& #[trigger] lowered_in_order(b, l, members, e.members@, states, inputs)
                    &&& inputs.len() == members.len()
                    &&& states[0] == (c, s)
                    &&& lower_expr_struct_ctor(b, c, s, l, e) == done(
                        new_var(b, states.last().0, e.ty),
                        push_statement(
                            states.last().1,
                            StatementModel::StructConstruct {
                                inputs,
                                output: next_var(states.last().0),
                            },
                        ),
                        LoweredExprModel::AtVariable(next_var(states.last().0)),
                    )
                },
        },
{
    reveal(lower_expr_struct_ctor);
    let members = b.db.struct_members_of(e.struct_id)->Ok_0;
    let step = lower_members(b, c, s, l, members, e.members@, 0, Seq::empty());
    let states = lemma_members_in_order(
        b,
        l,
        members,
        e.members@,
        seq![(c, s)],
        Seq::<VariableId>::empty(),
    );
    assert(lowered_in_order(b, l, members, e.members@, states, step.r->Ok_0));
}

/// Whether no member has two patterns.
pub open spec fn fields_differ(fields: Seq<(Member, Pattern)>) -> bool {
    forall|i: int, j: int|
        0 <= i < j < fields.len() ==> (#[trigger] fields[i]).0.id != (#[trigger] fields[j]).0.id
}

pub proof fn lemma_last_field(fields: Seq<(Member, Pattern)>, member: MemberId, i: int)
    requires
        0 <= i <= fields.len(),
    ensures
        -1 <= last_field(fields, member, i) < i,
        last_field(fields, member, i) == -1 ==> forall|k: int|
            0 <= k < i ==> (#[trigger] fields[k]).0.id != member,
        last_field(fields, member, i) >= 0 ==> fields[last_field(fields, member, i)].0.id == member,
    decreases i,
{
    if 0 < i {
        lemma_last_field(fields, member, i - 1);
    }
}

/// The pattern of the member: the last one that is written for it.
pub open spec fn field_pattern(fields: Seq<(Member, Pattern)>, member: MemberId) -> Option<
    Pattern,
> {
    let k = last_field(fields, member, fields.len() as int);
    if 0 <= k < fields.len() {
        Some(fields[k].1)
    } else {
        None
    }
}

proof fn lemma_same_fields(
    b: &LoweringContextBuilder,
    c: CtxModel,
    s: ScopeModel,
    p: PatternStruct,
    other: PatternStruct,
    members: Seq<Member>,
    vars: Seq<VariableId>,
    i: int,
)
    requires
        forall|k: int|
            0 <= k < members.len() ==> field_pattern(p.field_patterns@, (#[trigger] members[k]).id)
                == field_pattern(other.field_patterns@, members[k].id),
    ensures
        lower_struct_fields(b, c, s, Pattern::Struct(p), members, vars, i) == lower_struct_fields(
            b,
            c,
            s,
            Pattern::Struct(other),
            members,
            vars,
            i,
        ),
    decreases members.len() - i,
{
    reveal(lower_pattern);
    reveal(lower_struct_fields);
    reveal(lower_tuple_fields);
    if 0 <= i < members.len() {
        let member = members[i].id;
        match field_pattern(p.field_patterns@, member) {
            Some(field) if !member_before(members, member, i) => {
                let step = lower_pattern(
                    b,
                    c,
                    s,
                    field,
                    LoweredExprModel::AtVariable(vars[i]),
                );
                lemma_same_fields(b, step.c, step.s, p, other, members, vars, i + 1);
            },
            _ => {
                lemma_same_fields(b, c, s, p, other, members, vars, i + 1);
            },
        }
    }
}

/// Two struct patterns that have the same pattern for each member of the struct, the last one where
/// there are more, are lowered alike.
pub proof fn the_same_fields_bind_the_same(
    b: &LoweringContextBuilder,
    c: CtxModel,
    s: ScopeModel,
    p: PatternStruct,
    other: PatternStruct,
    e: LoweredExprModel,
)
    requires
        p.id == other.id,
        b.db.struct_members_of(p.id) matches Ok(members) ==> forall|k: int|
            0 <= k < members.len() ==> field_pattern(p.field_patterns@, (#[trigger] members[k]).id)
                == field_pattern(other.field_patterns@, members[k].id),
    ensures
        lower_pattern(b, c, s, Pattern::Struct(p), e) == lower_pattern(
            b,
            c,
            s,
            Pattern::Struct(other),
            e,
        ),
{
    reveal(lower_pattern);
    reveal(lower_struct_fields);
    reveal(lower_tuple_fields);
    if let Ok(members) = b.db.struct_members_of(p.id) {
        let step = expr_var(b, c, s, e);
        if step.r is Ok {
            let parts = add_struct_destructure(
                b,
                step.c,
                step.s,
                step.r->Ok_0,
                members.map_values(|m: Member| m.ty),
            );
            lemma_same_fields(b, parts.c, parts.s, p, other, members, parts.r, 0);
        }
    }
}

/// Where no member has two patterns, the order in which the fields of a struct pattern are written
/// does not matter.
pub proof fn fields_are_taken_in_any_order(
    b: &LoweringContextBuilder,
    c: CtxModel,
    s: ScopeModel,
    p: PatternStruct,
    other: PatternStruct,
    e: LoweredExprModel,
)
    requires
        p.id == other.id,
        fields_differ(p.field_patterns@),
        fields_differ(other.field_patterns@),
        forall|m: (Member, Pattern)|
            p.field_patterns@.contains(m) <==> #[trigger] other.field_patterns@.contains(m),
    ensures
        lower_pattern(b, c, s, Pattern::Struct(p), e) == lower_pattern(
            b,
            c,
            s,
            Pattern::Struct(other),
            e,
        ),
{
    let fields = p.field_patterns@;
    let others = other.field_patterns@;
    assert forall|member: MemberId| #[trigger]
        field_pattern(fields, member) == field_pattern(others, member) by {
        let k = last_field(fields, member, fields.len() as int);
        let j = last_field(others, member, others.len() as int);
        lemma_last_field(fields, member, fields.len() as int);
        lemma_last_field(others, member, others.len() as int);
        if k >= 0 {
            assert(fields.contains(fields[k]));
            assert(others.contains(fields[k]));
            let at = choose|at: int| 0 <= at < others.len() && others[at] == fields[k];
            assert(others[at].0.id == member);
            assert(j == at);
        }
        if j >= 0 {
            assert(others.contains(others[j]));
            assert(fields.contains(others[j]));
            let at = choose|at: int| 0 <= at < fields.len() && fields[at] == others[j];
            assert(fields[at].0.id == member);
            assert(k == at);
        }
    }
    the_same_fields_bind_the_same(b, c, s, p, other, e);
}

// === Ends of the flow ===

/// Where the flow ends in a statement that others follow, these are reported as unreachable, from
/// the first of them to the last, and are not lowered.
pub proof fn statements_after_the_end_are_reported(
    b: &LoweringContextBuilder,
    c: CtxModel,
    s: ScopeModel,
    l: Lowering,
    e: ExprBlock,
    root: bool,
    i: int,
)
    requires
        0 <= i,
        i + 1 < e.statements@.len(),
        forall|k: int|
            0 <= k < e.statements@.len() ==> (#[trigger] e.statements@[k]).0
                < b.function_def.statements@.len(),
        ({
            let r = lower_statement(
                b,
                c,
                s,
                l,
                b.function_def.statements@[e.statements@[i].0 as int],
            ).r;
            r is Err && flow_end(r->Err_0) is Ok
        }),
    ensures
        ({
            let statements = b.function_def.statements@;
            let step = lower_statement(b, c, s, l, statements[e.statements@[i].0 as int]);
            lower_block(b, c, s, l, e, root, i) == (Step {
                c: report(
                    step.c,
                    statements[e.statements@[i + 1].0 as int].ptr_of(),
                    LoweringDiagnosticKind::Unreachable {
                        last_statement_ptr: statements[e.statements@.last().0 as int].ptr_of(),
                    },
                ),
                s: step.s,
                r: flow_end(step.r->Err_0),
            })
        }),
{
    reveal(lower_block);
    assert(e.statements@[i].0 < b.function_def.statements@.len());
    assert(e.statements@[i + 1].0 < b.function_def.statements@.len());
    assert(e.statements@.last() == e.statements@[e.statements@.len() - 1]);
}

/// Where none of the blocks of a statement comes back, the flow ends there.
pub proof fn the_flow_ends_where_no_block_comes_back(
    c: CtxModel,
    m: MergerModel,
    s: ScopeModel,
    r: CallBlockResultModel,
)
    requires
        m.arms.len() == 0,
    ensures
        finalized(c, m).info is End,
        r is End ==> after_blocks(s, r, finalized(c, m)).1 == Err::<Option<VariableId>, FlowModel>(
            FlowModel::Unreachable,
        ),
{
}

/// A call of panic never gives a value.
pub proof fn a_panic_ends_the_flow(
    b: &LoweringContextBuilder,
    c: CtxModel,
    s: ScopeModel,
    e: ExprFunctionCall,
    inputs: Seq<VariableId>,
    implicit_tys: Seq<TypeId>,
    ref_tys: Seq<TypeId>,
)
    requires
        e.function == b.db.core.panic_func,
    ensures
        finish_call(b, c, s, e, inputs, implicit_tys, ref_tys).r is Err,
{
    reveal(finish_call);
}

/// A call of an external function whose result is an enum, and that takes nothing by reference, is
/// not performed until its result is used.
pub proof fn an_external_call_waits(
    b: &LoweringContextBuilder,
    c: CtxModel,
    s: ScopeModel,
    e: ExprFunctionCall,
    inputs: Seq<VariableId>,
    implicit_tys: Seq<TypeId>,
    ref_tys: Seq<TypeId>,
)
    requires
        e.function != b.db.core.panic_func,
        b.db.extern_function_of(e.function) is Some,
        !b.db.extern_function_has_refs(b.db.extern_function_of(e.function)->0),
        enum_of_type(c, e.ty) is Some,
    ensures
        finish_call(b, c, s, e, inputs, implicit_tys, ref_tys) == done(
            c,
            s,
            LoweredExprModel::ExternEnum(
                ExternEnumModel {
                    function: e.function,
                    concrete_enum_id: enum_of_type(c, e.ty)->0,
                    inputs,
                    ref_args: e.ref_args@,
                    implicits: implicit_tys,
                    stable_ptr: e.stable_ptr,
                },
            ),
        ),
{
    reveal(finish_call);
}

/// The body of a function that has diagnostics is not lowered.
pub proof fn a_function_with_diagnostics_is_not_lowered(
    b: &LoweringContextBuilder,
    types: Seq<TypeModel>,
)
    ensures
        lower_function(b, types, false) == (
            first_state(b, types),
            Err::<BlockId, Failure>(Failure::Diagnosed),
        ),
{
}

// === Blocks that come together ===

proof fn lemma_variable_pairs(
    s: ScopeModel,
    pairs: Seq<(VarId, VariableId)>,
    i: int,
    id: VarId,
)
    requires
        0 <= i,
        unique_keys(pairs),
    ensures
        forall|k: int|
            i <= k < pairs.len() && (#[trigger] pairs[k]).0 == id ==> alive_in(
                put_variable_pairs(s, pairs, i).vars,
                id,
            ) == Some(pairs[k].1),
        (forall|k: int| i <= k < pairs.len() ==> (#[trigger] pairs[k]).0 != id) ==> alive_in(
            put_variable_pairs(s, pairs, i).vars,
            id,
        ) == alive_in(s.vars, id),
        put_variable_pairs(s, pairs, i).implicits == s.implicits,
    decreases pairs.len() - i,
{
    if i < pairs.len() {
        let s1 = put_semantic_variable(s, pairs[i].0, pairs[i].1);
        lemma_lookup_assign(s.vars, pairs[i].0, SemanticVariableEntry::Alive(pairs[i].1));
        lemma_variable_pairs(s1, pairs, i + 1, id);
        if pairs[i].0 == id {
            assert forall|k: int| i + 1 <= k < pairs.len() implies (#[trigger] pairs[k]).0 != id by {
                assert(pairs[i].0 != pairs[k].0);
            }
        }
    }
}

proof fn lemma_implicit_pairs(
    s: ScopeModel,
    pairs: Seq<(TypeId, VariableId)>,
    i: int,
    ty: TypeId,
)
    requires
        0 <= i,
        unique_keys(pairs),
    ensures
        forall|k: int|
            i <= k < pairs.len() && (#[trigger] pairs[k]).0 == ty ==> lookup(
                put_implicit_pairs(s, pairs, i).implicits,
                ty,
            ) == Some(pairs[k].1),
        (forall|k: int| i <= k < pairs.len() ==> (#[trigger] pairs[k]).0 != ty) ==> lookup(
            put_implicit_pairs(s, pairs, i).implicits,
            ty,
        ) == lookup(s.implicits, ty),
    decreases pairs.len() - i,
{
    if i < pairs.len() {
        let s1 = put_implicit(s, pairs[i].0, pairs[i].1);
        lemma_lookup_assign(s.implicits, pairs[i].0, pairs[i].1);
        lemma_implicit_pairs(s1, pairs, i + 1, ty);
        if pairs[i].0 == ty {
            assert forall|k: int| i + 1 <= k < pairs.len() implies (#[trigger] pairs[k]).0 != ty by {
                assert(pairs[i].0 != pairs[k].0);
            }
        }
    }
}

/// The pairs that pass a test have unique keys if all pairs have, and each pair that passes is
/// there.
pub proof fn lemma_filter_unique<K, V>(s: Seq<(K, V)>, test: spec_fn((K, V)) -> bool, i: int)
    requires
        unique_keys(s),
        0 <= i < s.len(),
    ensures
        unique_keys(s.filter(test)),
        test(s[i]) ==> exists|k: int|
            0 <= k < s.filter(test).len() && #[trigger] s.filter(test)[k] == s[i],
    decreases s.len(),
{
    reveal(Seq::filter);
    let t = s.drop_last();
    let f = t.filter(test);
    let g = s.filter(test);
    assert(unique_keys(t)) by {
        assert forall|a: int, b: int| 0 <= a < b < t.len() implies (#[trigger] t[a]).0 != (
        #[trigger] t[b]).0 by {
            assert(s[a].0 != s[b].0);
        }
    }
    if t.len() > 0 {
        lemma_filter_unique(t, test, if i < t.len() {
            i
        } else {
            0
        });
    }
    assert forall|a: int, b: int| 0 <= a < b < g.len() implies (#[trigger] g[a]).0 != (
    #[trigger] g[b]).0 by {
        if b < f.len() {
            assert(f[a].0 != f[b].0);
        } else {
            lemma_filter_member(t, test, a);
            let j = choose|j: int| 0 <= j < t.len() && t[j] == f[a];
            assert(s[j].0 != s[s.len() - 1].0);
        }
    }
    if test(s[i]) {
        if i < t.len() {
            let k = choose|k: int| 0 <= k < f.len() && #[trigger] f[k] == t[i];
            assert(g[k] == s[i]);
        } else {
            assert(g[f.len() as int] == s[i]);
        }
    }
}

/// A variable of the source that has kept its value in every block that comes back has it after the
/// statement too.
pub proof fn what_no_block_touches_stays(
    c: CtxModel,
    m: MergerModel,
    s: ScopeModel,
    maybe_output: Option<VariableId>,
    pushes: Seq<VariableId>,
    i: int,
)
    requires
        merger_ok(c, m),
        m.arms.len() > 0,
        0 <= i < m.vars.len(),
        is_bring_back(m.arms, m.vars[i]),
    ensures
        entry_of(
            after_blocks(
                s,
                CallBlockResultModel::Callsite { maybe_output, pushes },
                finalized(c, m),
            ).0,
            m.vars[i].0,
        ) == m.vars[i].1,
{
    reveal(merger_ok);
    let f = finalized(c, m);
    let kept = m.vars.filter(bring_back_test(m.arms));
    lemma_filter_unique(m.vars, bring_back_test(m.arms), i);
    let k = choose|k: int| 0 <= k < kept.len() && #[trigger] kept[k] == m.vars[i];
    let pairs = f.bring_back;
    assert(pairs == alive_pairs(kept));
    assert(unique_keys(pairs)) by {
        assert forall|a: int, b: int| 0 <= a < b < pairs.len() implies (#[trigger] pairs[a]).0 != (
        #[trigger] pairs[b]).0 by {
            assert(kept[a].0 != kept[b].0);
        }
    }
    let n = f.implicit_pushes.len() as int;
    let s2 = put_variables(
        push_implicits(s, f.implicit_pushes, pushes, 0),
        f.var_pushes,
        pushes.skip(n),
        0,
    );
    let s3 = put_implicit_pairs(s2, f.unchanged, 0);
    lemma_variable_pairs(s3, pairs, 0, m.vars[i].0);
    assert(pairs[k].0 == m.vars[i].0);
}

/// An implicit that every block that comes back has, and none has changed, is where it was after
/// the statement too.
pub proof fn an_unchanged_implicit_stays(
    c: CtxModel,
    m: MergerModel,
    s: ScopeModel,
    maybe_output: Option<VariableId>,
    pushes: Seq<VariableId>,
    i: int,
)
    requires
        merger_ok(c, m),
        m.arms.len() > 0,
        0 <= i < m.implicits.len(),
        is_unchanged(m.arms, m.implicits[i]),
    ensures
        lookup(
            after_blocks(
                s,
                CallBlockResultModel::Callsite { maybe_output, pushes },
                finalized(c, m),
            ).0.implicits,
            m.implicits[i].0,
        ) == Some(m.implicits[i].1),
{
    reveal(merger_ok);
    let f = finalized(c, m);
    lemma_filter_unique(m.implicits, unchanged_test(m.arms), i);
    let pairs = f.unchanged;
    let k = choose|k: int| 0 <= k < pairs.len() && #[trigger] pairs[k] == m.implicits[i];
    let n = f.implicit_pushes.len() as int;
    let s2 = put_variables(
        push_implicits(s, f.implicit_pushes, pushes, 0),
        f.var_pushes,
        pushes.skip(n),
        0,
    );
    let ty = m.implicits[i].0;
    lemma_implicit_pairs(s2, pairs, 0, ty);
    assert(pairs[k].0 == ty);
    lemma_bring_back_implicits(put_implicit_pairs(s2, pairs, 0), f.bring_back, 0);
}

proof fn lemma_bring_back_implicits(s: ScopeModel, pairs: Seq<(VarId, VariableId)>, i: int)
    ensures
        put_variable_pairs(s, pairs, i).implicits == s.implicits,
    decreases pairs.len() - i,
{
    if 0 <= i < pairs.len() {
        lemma_bring_back_implicits(
            put_semantic_variable(s, pairs[i].0, pairs[i].1),
            pairs,
            i + 1,
        );
    }
}

} // verus!

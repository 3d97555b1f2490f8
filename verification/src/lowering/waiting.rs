//! What becomes of the result of an external function that is an enum: the call is performed where
//! the result is used, and runs a block for each of its branches.
use crate::collections::{begins, lookup, unique_keys};
use crate::ids::{ConcreteEnumId, SyntaxStablePtrId, TypeId, VarId, VariableId, VariantId};
use crate::lowering::branching::{
    added_block, all_sealed, arm_goes, in_turn, last_outputs, leaves_with, lemma_finalize_blocks,
    lemma_leave_with, lemma_new_enum_type, lemma_runs_blocks, runs_blocks,
};
use crate::lowering::context::LoweringContextBuilder;
use crate::lowering::expressions::{lemma_implicits_put, makes_variables};
use crate::lowering::merging::{
    all_have_values, gathered, is_in, lemma_gathered_none, lemma_gathered_push,
    lemma_variables_given, lemma_with_extra, Ending,
};
use crate::lowering::model::{
    add_enum_construct, add_match_extern, emptied, finalized, fresh_vars, merger_of, merger_with,
    new_vars, output_tys, sealed_of, subscope_of, with_extra, CtxModel, ExternEnumModel, Failure,
    FlowModel, LoweredExprModel, MergerModel, ScopeEndModel, ScopeModel, Step,
};
use crate::lowering::objects::{LoweringDiagnostic, LoweringDiagnosticKind, StatementModel};
use crate::lowering::returning::gives_back;
use crate::lowering::steps::{
    arm_body, concrete_variants_from, defined_tys, error_propagate, expr_var, extern_arm_tys,
    extern_bind, extern_enum_var, extern_err_arm, extern_error_propagate, extern_ok_arm,
    extern_rest, extern_var_arms, facade_expr, facade_var, finalize_blocks, finish_match_extern,
    from_block_result, lower_enum_arm, lower_expr_error_propagate, lower_expr_match,
    lower_extern_arm, lower_extern_arms, lower_match_felt, matched_enum, optimized_extern_match,
    put_implicits, put_variables, zip_arms, Lowering,
};
use crate::semantic::expr::{ExprMatch, ExprPropagateError, MatchArm};
use crate::semantic::types::{type_of, ConcreteTypeId, ConcreteVariant, TypeModel};
use vstd::prelude::*;

verus! {

// === The start of a branch ===

/// The types that a branch gives in place of a value of the type: those of the items of a tuple.
pub open spec fn branch_tys(c: CtxModel, ty: TypeId) -> Seq<TypeId> {
    match type_of(c.types, ty) {
        Some(TypeModel::Tuple(tys)) => tys,
        _ => seq![ty],
    }
}

/// Whether the types are those of the inputs of the block of a branch: the implicits that the
/// function takes, the variables that are passed by reference, and what the branch gives.
pub open spec fn are_branch_inputs(
    c: CtxModel,
    x: ExternEnumModel,
    ty: TypeId,
    tys: Seq<TypeId>,
) -> bool {
    let n = x.implicits.len();
    let m = x.ref_args.len();
    let given = branch_tys(c, ty);
    &&& tys.len() == n + m + given.len()
    &&& forall|k: int| 0 <= k < n ==> tys[k] == #[trigger] x.implicits[k]
    &&& forall|k: int|
        0 <= k < m ==> lookup(c.semantic_defs, #[trigger] x.ref_args[k]) == Some(tys[n + k])
    &&& forall|k: int| 0 <= k < given.len() ==> tys[n + m + k] == #[trigger] given[k]
}

/// Whether the block of a branch starts so, with the value. Its inputs are new variables of the
/// types above. The implicits and the variables that were passed by reference are in the inputs in
/// their places, all else is as in the scope `s` around, and the value is made of the other inputs.
pub open spec fn branch_starts(
    b: &LoweringContextBuilder,
    c: CtxModel,
    s: ScopeModel,
    x: ExternEnumModel,
    ty: TypeId,
    c1: CtxModel,
    start: ScopeModel,
    value: LoweredExprModel,
) -> bool {
    let n = x.implicits.len();
    let m = x.ref_args.len();
    let given = branch_tys(c, ty);
    &&& exists|tys: Seq<TypeId>| #[trigger]
        are_branch_inputs(c, x, ty, tys) && makes_variables(b, c, c1, tys, start.inputs)
    &&& start.statements.len() == 0
    &&& start.changed.len() == 0
    &&& start.initial_refs == start.implicits
    &&& forall|k: int|
        0 <= k < n ==> lookup(start.implicits, #[trigger] x.implicits[k]) == Some(start.inputs[k])
    &&& forall|t: TypeId|
        !x.implicits.contains(t) ==> #[trigger] lookup(start.implicits, t) == lookup(
            s.implicits,
            t,
        )
    &&& forall|k: int|
        0 <= k < m ==> is_in(start.vars, #[trigger] x.ref_args[k], start.inputs[n + k])
    &&& forall|id: VarId|
        !x.ref_args.contains(id) ==> #[trigger] lookup(start.vars, id) == lookup(s.vars, id)
    &&& match type_of(c.types, ty) {
        Some(TypeModel::Tuple(_)) => {
            &&& value is Tuple
            &&& value->Tuple_0.len() == given.len()
            &&& forall|k: int|
                0 <= k < given.len() ==> #[trigger] value->Tuple_0[k]
                    == LoweredExprModel::AtVariable(start.inputs[n + m + k])
        },
        _ => value == LoweredExprModel::AtVariable(start.inputs[(n + m) as int]),
    }
}

proof fn lemma_branch_starts(
    b: &LoweringContextBuilder,
    c: CtxModel,
    s: ScopeModel,
    m: MergerModel,
    x: ExternEnumModel,
    ty: TypeId,
)
    requires
        x.implicits.no_duplicates(),
        x.ref_args.no_duplicates(),
        unique_keys(s.vars),
        m.vars == with_extra(s.vars, x.ref_args, 0),
        m.implicits == s.implicits,
        extern_arm_tys(c, ty, x) is Some,
    ensures
        ({
            let tys = extern_arm_tys(c, ty, x)->0;
            let sub = subscope_of(c, m, tys);
            let c1 = new_vars(b, c, tys);
            branch_starts(
                b,
                c,
                s,
                x,
                ty,
                c1,
                extern_bind(sub, x, sub.inputs),
                facade_expr(c1, ty, extern_rest(x, sub.inputs)),
            )
        }),
{
    let tys = extern_arm_tys(c, ty, x)->0;
    let sub = subscope_of(c, m, tys);
    let c1 = new_vars(b, c, tys);
    let start = extern_bind(sub, x, sub.inputs);
    let value = facade_expr(c1, ty, extern_rest(x, sub.inputs));
    let n = x.implicits.len() as int;
    let k0 = x.ref_args.len() as int;
    let given = branch_tys(c, ty);
    let ins = sub.inputs.take(n);
    let refs = sub.inputs.subrange(n, n + k0);
    let s1 = put_implicits(sub, x.implicits, ins, 0);
    let s2 = put_variables(s1, x.ref_args, refs, 0);
    assert(start == (ScopeModel { initial_refs: s2.implicits, ..s2 }));
    let any_ty = TypeId(0);
    let any_id = x.ref_args[0];
    lemma_implicits_put(sub, x.implicits, ins, 0, any_ty);
    lemma_variables_given(s1, x.ref_args, refs, 0, any_id);
    assert(are_branch_inputs(c, x, ty, tys)) by {
        let ref_tys = defined_tys(c, x.ref_args)->0;
        assert(tys == x.implicits + ref_tys + given);
        assert forall|k: int| 0 <= k < k0 implies lookup(
            c.semantic_defs,
            #[trigger] x.ref_args[k],
        ) == Some(tys[n + k]) by {
            assert(tys[n + k] == ref_tys[k]);
        }
        assert forall|k: int| 0 <= k < given.len() implies tys[n + k0 + k]
            == #[trigger] given[k] by {}
    }
    assert(makes_variables(b, c, c1, tys, start.inputs));
    assert forall|k: int| 0 <= k < n implies lookup(start.implicits, #[trigger] x.implicits[k])
        == Some(start.inputs[k]) by {
        lemma_implicits_put(sub, x.implicits, ins, 0, x.implicits[k]);
        assert(ins[k] == sub.inputs[k]);
    }
    assert forall|t: TypeId| !x.implicits.contains(t) implies #[trigger] lookup(
        start.implicits,
        t,
    ) == lookup(s.implicits, t) by {
        lemma_implicits_put(sub, x.implicits, ins, 0, t);
        assert forall|k: int| 0 <= k < n implies #[trigger] x.implicits[k] != t by {}
    }
    assert forall|k: int| 0 <= k < k0 implies is_in(
        start.vars,
        #[trigger] x.ref_args[k],
        start.inputs[n + k],
    ) by {
        lemma_variables_given(s1, x.ref_args, refs, 0, x.ref_args[k]);
        assert(refs[k] == sub.inputs[n + k]);
    }
    assert forall|id: VarId| !x.ref_args.contains(id) implies #[trigger] lookup(start.vars, id)
        == lookup(s.vars, id) by {
        lemma_variables_given(s1, x.ref_args, refs, 0, id);
        assert forall|k: int| 0 <= k < k0 implies #[trigger] x.ref_args[k] != id by {}
        lemma_with_extra(s.vars, x.ref_args, 0, id);
    }
    let rest = extern_rest(x, sub.inputs);
    assert(forall|k: int|
        0 <= k < given.len() ==> #[trigger] rest[k] == start.inputs[n + k0 + k]);
    assert(c1.types == c.types);
}

/// The statement that performs the call and runs the block of the branch that it takes.
pub open spec fn performing(
    x: ExternEnumModel,
    variants: Seq<ConcreteVariant>,
    n: nat,
    outputs: Seq<VariableId>,
) -> StatementModel {
    StatementModel::MatchExtern {
        function: x.function,
        inputs: x.inputs,
        arms: in_turn(variants, n),
        outputs,
    }
}

/// A statement that performs the call, when its blocks have ended so.
proof fn lemma_performs(
    b: &LoweringContextBuilder,
    c: CtxModel,
    s: ScopeModel,
    x: ExternEnumModel,
    m: MergerModel,
    endings: Seq<Ending>,
    variants: Seq<ConcreteVariant>,
)
    requires
        unique_keys(s.vars),
        unique_keys(s.implicits),
        m.vars == with_extra(s.vars, x.ref_args, 0),
        m.implicits == s.implicits,
        gathered(m.arms, endings),
        endings.len() == variants.len(),
    ensures
        ({
            let last = finish_match_extern(
                b,
                c,
                emptied(s),
                m,
                all_sealed(endings),
                x.function,
                x.inputs,
                variants,
            );
            let n = c.blocks.len();
            &&& begins(c.blocks, last.c.blocks)
            &&& begins(c.variables, last.c.variables)
            &&& last.c.types == c.types
            &&& runs_blocks(
                s,
                x.ref_args,
                endings,
                last.c.blocks.skip(n as int),
                performing(x, variants, n, last_outputs(last.s)),
                last,
            )
        }),
{
    let sealed = all_sealed(endings);
    let last = finish_match_extern(
        b,
        c,
        emptied(s),
        m,
        sealed,
        x.function,
        x.inputs,
        variants,
    );
    let f = finalized(c, m);
    lemma_finalize_blocks(c, f, sealed, 0, Seq::empty());
    let (c3, ids) = finalize_blocks(c, f, sealed, 0, Seq::empty());
    let blocks = Seq::new(sealed.len(), |j: int| added_block(f, sealed[j]));
    let n = c.blocks.len();
    assert(c3.blocks =~= c.blocks + blocks);
    assert(zip_arms(variants, ids) =~= in_turn(variants, n));
    let outputs = fresh_vars(c3, output_tys(f.info).len());
    let step = add_match_extern(
        b,
        c3,
        emptied(s),
        x.function,
        x.inputs,
        zip_arms(variants, ids),
        f.info,
    );
    assert(last == from_block_result(step, f));
    lemma_runs_blocks(
        b,
        c,
        c3,
        m,
        s,
        x.ref_args,
        endings,
        blocks,
        performing(x, variants, n, outputs),
        step,
    );
    assert(blocks =~= last.c.blocks.skip(n as int));
}

// === Propagation of its error ===

/// Whether the block of a branch only stores what the branch gives, in `v`.
pub open spec fn branch_stores(
    b: &LoweringContextBuilder,
    c: CtxModel,
    s: ScopeModel,
    x: ExternEnumModel,
    ty: TypeId,
    c1: CtxModel,
    s1: ScopeModel,
    v: VariableId,
) -> bool {
    exists|c0: CtxModel, start: ScopeModel, value: LoweredExprModel| #[trigger]
        branch_starts(b, c, s, x, ty, c0, start, value) && expr_var(b, c0, start, value) == (Step {
            c: c1,
            s: s1,
            r: Ok::<_, FlowModel>(v),
        })
}

/// The error of an external function leaves the function: the block of the branch of the value
/// comes back with it, and the block of the branch of the error makes the error of the function's
/// own type out of it, and returns this and nothing else, with what the function gives back.
pub proof fn an_external_error_leaves_the_function(
    b: &LoweringContextBuilder,
    c: CtxModel,
    s: ScopeModel,
    x: ExternEnumModel,
    ok_variant: ConcreteVariant,
    err_variant: ConcreteVariant,
    func_err_variant: ConcreteVariant,
)
    requires
        unique_keys(s.vars),
        unique_keys(s.implicits),
        x.implicits.no_duplicates(),
        x.ref_args.no_duplicates(),
        b.implicits@.no_duplicates(),
        ({
            let last = extern_error_propagate(
                b,
                c,
                s,
                x,
                ok_variant,
                err_variant,
                func_err_variant,
            );
            &&& last.r matches Err(f) ==> f !is Failed
            &&& last.c.variables.len() <= usize::MAX
            &&& last.c.types.len() <= usize::MAX
        }),
    ensures
        ({
            let last = extern_error_propagate(
                b,
                c,
                s,
                x,
                ok_variant,
                err_variant,
                func_err_variant,
            );
            exists|
                c1: CtxModel,
                s1: ScopeModel,
                v: VariableId,
                c2: CtxModel,
                s2: ScopeModel,
                error: VariableId,
                two: Ending,
            |
                {
                    &&& #[trigger] branch_stores(b, c, s, x, ok_variant.ty, c1, s1, v)
                    &&& #[trigger] branch_stores(b, c1, s, x, err_variant.ty, c2, s2, error)
                    &&& #[trigger] leaves_with(last.c, two, error, func_err_variant)
                    &&& two.s.inputs == s2.inputs
                    &&& two.s.statements.drop_last() == s2.statements
                    &&& gives_back(b, s2, two.end->Return_refs)
                    &&& begins(c2.blocks, last.c.blocks)
                    &&& runs_blocks(
                        s,
                        x.ref_args,
                        seq![
                            Ending { s: s1, end: ScopeEndModel::Callsite(Some(v)) },
                            two,
                        ],
                        last.c.blocks.skip(c2.blocks.len() as int),
                        performing(
                            x,
                            seq![ok_variant, err_variant],
                            c2.blocks.len(),
                            last_outputs(last.s),
                        ),
                        last,
                    )
                }
        }),
{
    reveal(extern_error_propagate);
    let last = extern_error_propagate(b, c, s, x, ok_variant, err_variant, func_err_variant);
    let m0 = merger_of(s, x.ref_args);
    let one = extern_ok_arm(b, c, m0, x, ok_variant);
    let tys1 = extern_arm_tys(c, ok_variant.ty, x)->0;
    let sub1 = subscope_of(c, m0, tys1);
    let d1 = new_vars(b, c, tys1);
    let start1 = extern_bind(sub1, x, sub1.inputs);
    let value1 = facade_expr(d1, ok_variant.ty, extern_rest(x, sub1.inputs));
    let stored1 = expr_var(b, d1, start1, value1);
    lemma_branch_starts(b, c, s, m0, x, ok_variant.ty);
    let v = stored1.r->Ok_0;
    let e1 = Ending { s: stored1.s, end: ScopeEndModel::Callsite(Some(v)) };
    assert(branch_stores(b, c, s, x, ok_variant.ty, stored1.c, stored1.s, v));
    lemma_gathered_none(m0.arms);
    lemma_gathered_push(m0, Seq::empty(), e1.s, e1.end);
    let two = extern_err_arm(b, one.c, one.m, x, err_variant, func_err_variant);
    let tys2 = extern_arm_tys(one.c, err_variant.ty, x)->0;
    let sub2 = subscope_of(one.c, one.m, tys2);
    let d2 = new_vars(b, one.c, tys2);
    let start2 = extern_bind(sub2, x, sub2.inputs);
    let value2 = facade_expr(d2, err_variant.ty, extern_rest(x, sub2.inputs));
    let stored2 = expr_var(b, d2, start2, value2);
    lemma_branch_starts(b, one.c, s, one.m, x, err_variant.ty);
    let error = stored2.r->Ok_0;
    assert(branch_stores(b, one.c, s, x, err_variant.ty, stored2.c, stored2.s, error));
    let e2 = lemma_leave_with(b, stored2.c, stored2.s, one.m, error, func_err_variant);
    lemma_gathered_push(one.m, Seq::empty().push(e1), e2.s, e2.end);
    let endings = seq![e1, e2];
    assert(Seq::<Ending>::empty().push(e1).push(e2) =~= endings);
    assert(all_sealed(endings) =~= seq![one.r->Ok_0, two.r->Ok_0]);
    let variants = seq![ok_variant, err_variant];
    lemma_performs(b, two.c, s, x, two.m, endings, variants);
    lemma_new_enum_type(b, stored2.c, func_err_variant);
    let at = stored2.c.variables.len() as int;
    assert(last.c.variables[at] == two.c.variables[at]);
    assert(e2.s.statements.drop_last() =~= stored2.s.statements);
    assert(leaves_with(last.c, e2, error, func_err_variant));
}

// === A match on it ===

/// Whether the block of the arm for the variant ended so: what the branch gives is bound to the
/// pattern of the arm, which is that variant, and the expression of the arm is lowered after that.
pub open spec fn branch_arm_ends(
    b: &LoweringContextBuilder,
    c: CtxModel,
    s: ScopeModel,
    l: Lowering,
    x: ExternEnumModel,
    variant: ConcreteVariant,
    arm: MatchArm,
    c1: CtxModel,
    ending: Ending,
) -> bool {
    &&& arm.pattern is EnumVariant
    &&& arm.pattern->EnumVariant_0.variant == variant
    &&& exists|c0: CtxModel, start: ScopeModel, value: LoweredExprModel| #[trigger]
        branch_starts(b, c, s, x, variant.ty, c0, start, value) && arm_goes(
            b,
            c0,
            start,
            l,
            *arm.pattern->EnumVariant_0.inner_pattern,
            value,
            arm.expression,
            c1,
            ending,
        )
}

/// Whether the blocks of the arms ended so, one after the other: that of the arm `i`, which is for
/// the variant `i`, takes the state `i` to the next one.
pub open spec fn branch_arms_end(
    b: &LoweringContextBuilder,
    s: ScopeModel,
    l: Lowering,
    x: ExternEnumModel,
    variants: Seq<ConcreteVariant>,
    arms: Seq<MatchArm>,
    states: Seq<CtxModel>,
    endings: Seq<Ending>,
) -> bool {
    &&& states.len() == endings.len() + 1
    &&& forall|i: int|
        0 <= i < endings.len() ==> branch_arm_ends(
            b,
            states[i],
            s,
            l,
            x,
            variants[i],
            arms[i],
            states[i + 1],
            #[trigger] endings[i],
        )
}

proof fn lemma_branch_arm(
    b: &LoweringContextBuilder,
    c: CtxModel,
    s: ScopeModel,
    m: MergerModel,
    l: Lowering,
    x: ExternEnumModel,
    variant: ConcreteVariant,
    arm: MatchArm,
) -> (ending: Ending)
    requires
        x.implicits.no_duplicates(),
        x.ref_args.no_duplicates(),
        unique_keys(s.vars),
        m.vars == with_extra(s.vars, x.ref_args, 0),
        m.implicits == s.implicits,
        lower_extern_arm(b, c, m, l, x, variant, arm).r is Ok,
    ensures
        ({
            let step = lower_extern_arm(b, c, m, l, x, variant, arm);
            &&& branch_arm_ends(b, c, s, l, x, variant, arm, step.c, ending)
            &&& step.r->Ok_0 == sealed_of(ending.s, ending.end)
            &&& step.m == merger_with(m, ending.s, ending.end)
        }),
{
    reveal(lower_extern_arm);
    reveal(arm_body);
    let tys = extern_arm_tys(c, variant.ty, x)->0;
    let sub = subscope_of(c, m, tys);
    let c1 = new_vars(b, c, tys);
    let start = extern_bind(sub, x, sub.inputs);
    let value = facade_expr(c1, variant.ty, extern_rest(x, sub.inputs));
    lemma_branch_starts(b, c, s, m, x, variant.ty);
    let p = arm.pattern->EnumVariant_0;
    let body = arm_body(b, c1, start, l, *p.inner_pattern, value, arm.expression);
    let ending = Ending { s: body.s, end: body.r->Ok_0 };
    let step = lower_extern_arm(b, c, m, l, x, variant, arm);
    assert(arm_goes(
        b,
        c1,
        start,
        l,
        *p.inner_pattern,
        value,
        arm.expression,
        step.c,
        ending,
    ));
    ending
}

proof fn lemma_branch_arms(
    b: &LoweringContextBuilder,
    s: ScopeModel,
    m: MergerModel,
    l: Lowering,
    x: ExternEnumModel,
    variants: Seq<ConcreteVariant>,
    arms: Seq<MatchArm>,
    states: Seq<CtxModel>,
    endings: Seq<Ending>,
) -> (r: (Seq<CtxModel>, Seq<Ending>))
    requires
        x.implicits.no_duplicates(),
        x.ref_args.no_duplicates(),
        unique_keys(s.vars),
        m.vars == with_extra(s.vars, x.ref_args, 0),
        m.implicits == s.implicits,
        gathered(m.arms, endings),
        endings.len() <= variants.len(),
        branch_arms_end(b, s, l, x, variants, arms, states, endings),
        lower_extern_arms(
            b,
            states.last(),
            m,
            l,
            x,
            variants,
            arms,
            endings.len() as int,
            all_sealed(endings),
        ).r is Ok,
    ensures
        ({
            let step = lower_extern_arms(
                b,
                states.last(),
                m,
                l,
                x,
                variants,
                arms,
                endings.len() as int,
                all_sealed(endings),
            );
            &&& branch_arms_end(b, s, l, x, variants, arms, r.0, r.1)
            &&& r.0[0] == states[0]
            &&& r.0.last() == step.c
            &&& r.1.len() == variants.len()
            &&& step.r->Ok_0 == all_sealed(r.1)
            &&& gathered(step.m.arms, r.1)
            &&& step.m.vars == m.vars
            &&& step.m.implicits == m.implicits
        }),
    decreases variants.len() - endings.len(),
{
    reveal(lower_extern_arms);
    let i = endings.len() as int;
    let c = states.last();
    if i < variants.len() {
        let step = lower_extern_arm(b, c, m, l, x, variants[i], arms[i]);
        let e = lemma_branch_arm(b, c, s, m, l, x, variants[i], arms[i]);
        let states1 = states.push(step.c);
        let endings1 = endings.push(e);
        assert forall|k: int| 0 <= k < endings1.len() implies branch_arm_ends(
            b,
            states1[k],
            s,
            l,
            x,
            variants[k],
            arms[k],
            states1[k + 1],
            #[trigger] endings1[k],
        ) by {
            if k < i {
                assert(endings1[k] == endings[k]);
                assert(states1[k] == states[k] && states1[k + 1] == states[k + 1]);
            }
        }
        lemma_gathered_push(m, endings, e.s, e.end);
        assert(all_sealed(endings).push(step.r->Ok_0) =~= all_sealed(endings1));
        lemma_branch_arms(b, s, step.m, l, x, variants, arms, states1, endings1)
    } else {
        (states, endings)
    }
}

/// A match on the result of an external function performs the call, and runs the block of the arm of
/// the branch that it takes.
pub proof fn a_match_performs_the_external_call(
    b: &LoweringContextBuilder,
    c: CtxModel,
    s: ScopeModel,
    l: Lowering,
    x: ExternEnumModel,
    arms: Seq<MatchArm>,
)
    requires
        unique_keys(s.vars),
        unique_keys(s.implicits),
        x.implicits.no_duplicates(),
        x.ref_args.no_duplicates(),
        optimized_extern_match(b, c, s, l, x, arms).r matches Err(f) ==> f !is Failed,
    ensures
        ({
            let last = optimized_extern_match(b, c, s, l, x, arms);
            b.db.concrete_enum_variants_of(x.concrete_enum_id) matches Ok(variants) && arms.len()
                == variants.len() && exists|states: Seq<CtxModel>, endings: Seq<Ending>|
                {
                    let n = states.last().blocks.len();
                    &&& #[trigger] branch_arms_end(b, s, l, x, variants, arms, states, endings)
                    &&& endings.len() == variants.len()
                    &&& states[0] == c
                    &&& begins(states.last().blocks, last.c.blocks)
                    &&& runs_blocks(
                        s,
                        x.ref_args,
                        endings,
                        last.c.blocks.skip(n as int),
                        performing(x, variants, n, last_outputs(last.s)),
                        last,
                    )
                }
        }),
{
    reveal(optimized_extern_match);
    let variants = b.db.concrete_enum_variants_of(x.concrete_enum_id)->Ok_0;
    let m0 = merger_of(s, x.ref_args);
    lemma_gathered_none(m0.arms);
    let none = Seq::<Ending>::empty();
    assert(all_sealed(none) =~= Seq::empty());
    let step = lower_extern_arms(b, c, m0, l, x, variants, arms, 0, Seq::empty());
    let (states, endings) = lemma_branch_arms(
        b,
        s,
        m0,
        l,
        x,
        variants,
        arms,
        seq![c],
        none,
    );
    lemma_performs(b, step.c, s, x, step.m, endings, variants);
    assert(branch_arms_end(b, s, l, x, variants, arms, states, endings));
}

// === Its value ===

/// Whether the block of the branch ended so: it makes the value of the variant out of what the
/// branch gives, which it packs first if that is a tuple, and comes back with it.
pub open spec fn branch_makes(
    b: &LoweringContextBuilder,
    c: CtxModel,
    s: ScopeModel,
    x: ExternEnumModel,
    variant: ConcreteVariant,
    ending: Ending,
) -> bool {
    exists|c0: CtxModel, start: ScopeModel, value: LoweredExprModel|
        {
            let statements = ending.s.statements;
            &&& #[trigger] branch_starts(b, c, s, x, variant.ty, c0, start, value)
            &&& ending.s == (ScopeModel { statements, ..start })
            &&& statements.len() > 0
            &&& match statements.last().statement {
                StatementModel::EnumConstruct { variant: made, input, output } => {
                    &&& made == variant
                    &&& ending.end == ScopeEndModel::Callsite(Some(output))
                    &&& match value {
                        LoweredExprModel::Tuple(es) => {
                            &&& statements.len() == 2
                            &&& statements[0].statement is StructConstruct
                            &&& statements[0].statement->StructConstruct_output == input
                            &&& statements[0].statement->StructConstruct_inputs.len() == es.len()
                            &&& forall|k: int|
                                0 <= k < es.len() ==> #[trigger] es[k]
                                    == LoweredExprModel::AtVariable(
                                    statements[0].statement->StructConstruct_inputs[k],
                                )
                        },
                        _ => statements.len() == 1 && value == LoweredExprModel::AtVariable(input),
                    }
                },
                _ => false,
            }
        }
}

/// Whether the blocks of the branches ended so, that of the branch `i` in the state `i`.
pub open spec fn branches_make(
    b: &LoweringContextBuilder,
    s: ScopeModel,
    x: ExternEnumModel,
    variants: Seq<ConcreteVariant>,
    states: Seq<CtxModel>,
    endings: Seq<Ending>,
) -> bool {
    &&& states.len() == endings.len() + 1
    &&& forall|i: int|
        0 <= i < endings.len() ==> branch_makes(
            b,
            states[i],
            s,
            x,
            variants[i],
            #[trigger] endings[i],
        )
}

proof fn lemma_branches_make(
    b: &LoweringContextBuilder,
    s: ScopeModel,
    m: MergerModel,
    x: ExternEnumModel,
    variants: Seq<ConcreteVariant>,
    states: Seq<CtxModel>,
    endings: Seq<Ending>,
) -> (r: (Seq<CtxModel>, Seq<Ending>))
    requires
        x.implicits.no_duplicates(),
        x.ref_args.no_duplicates(),
        unique_keys(s.vars),
        m.vars == with_extra(s.vars, x.ref_args, 0),
        m.implicits == s.implicits,
        gathered(m.arms, endings),
        endings.len() <= variants.len(),
        branches_make(b, s, x, variants, states, endings),
        extern_var_arms(
            b,
            states.last(),
            m,
            x,
            variants,
            endings.len() as int,
            all_sealed(endings),
        ).r is Ok,
    ensures
        ({
            let step = extern_var_arms(
                b,
                states.last(),
                m,
                x,
                variants,
                endings.len() as int,
                all_sealed(endings),
            );
            &&& branches_make(b, s, x, variants, r.0, r.1)
            &&& r.0[0] == states[0]
            &&& r.0.last() == step.c
            &&& r.1.len() == variants.len()
            &&& step.r->Ok_0 == all_sealed(r.1)
            &&& gathered(step.m.arms, r.1)
            &&& step.m.vars == m.vars
            &&& step.m.implicits == m.implicits
        }),
    decreases variants.len() - endings.len(),
{
    let i = endings.len() as int;
    let c = states.last();
    if i < variants.len() {
        let variant = variants[i];
        let tys = extern_arm_tys(c, variant.ty, x)->0;
        let sub = subscope_of(c, m, tys);
        let c1 = new_vars(b, c, tys);
        let start = extern_bind(sub, x, sub.inputs);
        let rest = extern_rest(x, sub.inputs);
        let value = facade_expr(c1, variant.ty, rest);
        lemma_branch_starts(b, c, s, m, x, variant.ty);
        let stored = facade_var(b, c1, start, variant.ty, rest);
        let whole = add_enum_construct(b, stored.c, stored.s, stored.r, variant);
        let e = Ending { s: whole.s, end: ScopeEndModel::Callsite(Some(whole.r)) };
        assert(branch_makes(b, c, s, x, variant, e)) by {
            let statements = e.s.statements;
            assert(e.s == (ScopeModel { statements, ..start }));
            if let LoweredExprModel::Tuple(es) = value {
                assert(statements[0] == stored.s.statements[0]);
                assert(statements[0].statement->StructConstruct_inputs == rest);
            }
        }
        let states1 = states.push(whole.c);
        let endings1 = endings.push(e);
        assert forall|k: int| 0 <= k < endings1.len() implies branch_makes(
            b,
            states1[k],
            s,
            x,
            variants[k],
            #[trigger] endings1[k],
        ) by {
            if k < i {
                assert(endings1[k] == endings[k]);
                assert(states1[k] == states[k]);
            }
        }
        lemma_gathered_push(m, endings, e.s, e.end);
        assert(all_sealed(endings).push(sealed_of(e.s, e.end)) =~= all_sealed(endings1));
        lemma_branches_make(
            b,
            s,
            merger_with(m, e.s, e.end),
            x,
            variants,
            states1,
            endings1,
        )
    } else {
        (states, endings)
    }
}

/// The result of an external function is stored by performing the call: the block of each branch
/// makes the value of its variant, and this value is what comes out.
pub proof fn an_external_call_is_stored(
    b: &LoweringContextBuilder,
    c: CtxModel,
    s: ScopeModel,
    x: ExternEnumModel,
)
    requires
        unique_keys(s.vars),
        unique_keys(s.implicits),
        x.implicits.no_duplicates(),
        x.ref_args.no_duplicates(),
        extern_enum_var(b, c, s, x).r matches Err(f) ==> f !is Failed,
    ensures
        ({
            let last = extern_enum_var(b, c, s, x);
            b.db.concrete_enum_variants_of(x.concrete_enum_id) matches Ok(variants) && exists|
                states: Seq<CtxModel>,
                endings: Seq<Ending>,
            |
                {
                    let n = states.last().blocks.len();
                    &&& #[trigger] branches_make(b, s, x, variants, states, endings)
                    &&& endings.len() == variants.len()
                    &&& states[0] == c
                    &&& begins(states.last().blocks, last.c.blocks)
                    &&& runs_blocks(
                        s,
                        x.ref_args,
                        endings,
                        last.c.blocks.skip(n as int),
                        performing(x, variants, n, last_outputs(last.s)),
                        Step {
                            c: last.c,
                            s: last.s,
                            r: match last.r {
                                Ok(v) => Ok(LoweredExprModel::AtVariable(v)),
                                Err(f) => Err(f),
                            },
                        },
                    )
                }
        }),
{
    reveal(extern_enum_var);
    let variants = b.db.concrete_enum_variants_of(x.concrete_enum_id)->Ok_0;
    let m0 = merger_of(s, x.ref_args);
    lemma_gathered_none(m0.arms);
    let none = Seq::<Ending>::empty();
    assert(all_sealed(none) =~= Seq::empty());
    let step = extern_var_arms(b, c, m0, x, variants, 0, Seq::empty());
    let (states, endings) = lemma_branches_make(b, s, m0, x, variants, seq![c], none);
    lemma_performs(b, step.c, s, x, step.m, endings, variants);
    assert(all_have_values(endings)) by {
        assert forall|j: int| 0 <= j < endings.len() && (
        #[trigger] endings[j]).comes_back() implies endings[j].end->Callsite_0 is Some by {
            assert(branch_makes(b, states[j], s, x, variants[j], endings[j]));
        }
    }
    assert(branches_make(b, s, x, variants, states, endings));
}

// === Which way is taken ===

/// The propagation of the error of an external function that was not performed yet is that of its
/// branches.
pub proof fn a_question_mark_performs_the_external_call(
    b: &LoweringContextBuilder,
    c: CtxModel,
    s: ScopeModel,
    l: Lowering,
    e: ExprPropagateError,
)
    requires
        l(c, s, e.inner).r matches Ok(inner) && inner is ExternEnum,
    ensures
        ({
            let inner = l(c, s, e.inner);
            lower_expr_error_propagate(b, c, s, l, e) == extern_error_propagate(
                b,
                inner.c,
                inner.s,
                inner.r->Ok_0->ExternEnum_0,
                e.ok_variant,
                e.err_variant,
                e.func_err_variant,
            )
        }),
{
    reveal(lower_expr_error_propagate);
    reveal(error_propagate);
}

/// How a match goes on when the matched expression has been lowered: on a felt with its variable, on
/// the result of an external function that was not performed yet with its branches. A match on
/// another value needs an enum, with as many variants as there are arms; otherwise nothing more is
/// lowered.
pub proof fn a_match_goes_by_the_type(
    b: &LoweringContextBuilder,
    c: CtxModel,
    s: ScopeModel,
    l: Lowering,
    e: ExprMatch,
)
    requires
        e.matched_expr.0 < b.function_def.exprs@.len(),
    ensures
        ({
            let ty = b.function_def.exprs@[e.matched_expr.0 as int].ty_of();
            let inner = l(c, s, e.matched_expr);
            let value = expr_var(b, inner.c, inner.s, inner.r->Ok_0);
            let last = lower_expr_match(b, c, s, l, e);
            match inner.r {
                Err(f) => last == (Step {
                    c: inner.c,
                    s: inner.s,
                    r: Err::<LoweredExprModel, FlowModel>(f),
                }),
                Ok(matched) => if ty == b.db.core.felt_ty {
                    match value.r {
                        Err(f) => last == (Step {
                            c: value.c,
                            s: value.s,
                            r: Err::<LoweredExprModel, FlowModel>(f),
                        }),
                        Ok(v) => last == lower_match_felt(b, value.c, value.s, l, e, v),
                    }
                } else if matched is ExternEnum {
                    last == optimized_extern_match(
                        b,
                        inner.c,
                        inner.s,
                        l,
                        matched->ExternEnum_0,
                        e.arms@,
                    )
                } else {
                    match type_of(inner.c.types, ty) {
                        Some(TypeModel::Concrete(ConcreteTypeId::Enum(id))) => {
                            let declared = b.db.enum_variants_of(
                                b.db.concrete_enums@[id.0 as int].enum_id,
                            );
                            let diagnostic = LoweringDiagnostic {
                                stable_ptr: e.stable_ptr,
                                kind: LoweringDiagnosticKind::UnsupportedMatch,
                            };
                            declared is Ok && declared->Ok_0.len() != e.arms@.len() && id.0
                                < b.db.concrete_enums@.len() ==> {
                                &&& last.s == inner.s
                                &&& last.r == Err::<LoweredExprModel, FlowModel>(
                                    FlowModel::Failed(Failure::Diagnosed),
                                )
                                &&& last.c == inner.c || last.c == (CtxModel {
                                    diagnostics: inner.c.diagnostics.push(diagnostic),
                                    ..inner.c
                                })
                                &&& are_all_concrete(b, id, declared->Ok_0) ==> last.c
                                    == (CtxModel {
                                    diagnostics: inner.c.diagnostics.push(diagnostic),
                                    ..inner.c
                                })
                            }
                        },
                        _ => last == (Step {
                            c: inner.c,
                            s: inner.s,
                            r: Err::<LoweredExprModel, FlowModel>(
                                FlowModel::Failed(Failure::Diagnosed),
                            ),
                        }),
                    }
                },
            }
        }),
{
    reveal(lower_expr_match);
    reveal(matched_enum);
    let ty = b.function_def.exprs@[e.matched_expr.0 as int].ty_of();
    let inner = l(c, s, e.matched_expr);
    if let Some(TypeModel::Concrete(ConcreteTypeId::Enum(id))) = type_of(inner.c.types, ty) {
        if let Ok(ids) = b.db.enum_variants_of(b.db.concrete_enums@[id.0 as int].enum_id) {
            lemma_all_concrete(b, id, ids, 0, Seq::empty());
        }
    }
}

/// Whether every variant is known with the arguments of the enum.
pub open spec fn are_all_concrete(
    b: &LoweringContextBuilder,
    id: ConcreteEnumId,
    ids: Seq<VariantId>,
) -> bool {
    let enum_id = b.db.concrete_enums@[id.0 as int].enum_id;
    forall|k: int|
        0 <= k < ids.len() ==> match b.db.variant_semantic_of(enum_id, #[trigger] ids[k]) {
            Ok(variant) => b.db.concrete_enum_variant_of(id, variant) is Ok,
            Err(_) => false,
        }
}

proof fn lemma_all_concrete(
    b: &LoweringContextBuilder,
    id: ConcreteEnumId,
    ids: Seq<VariantId>,
    i: int,
    found: Seq<ConcreteVariant>,
)
    requires
        0 <= i <= ids.len(),
        found.len() == i,
    ensures
        are_all_concrete(b, id, ids) ==> concrete_variants_from(b, id, ids, i, found) is Some,
        concrete_variants_from(b, id, ids, i, found) matches Some(all) ==> all.len() == ids.len(),
    decreases ids.len() - i,
{
    if i < ids.len() {
        let enum_id = b.db.concrete_enums@[id.0 as int].enum_id;
        if let Ok(variant) = b.db.variant_semantic_of(enum_id, ids[i]) {
            if let Ok(concrete) = b.db.concrete_enum_variant_of(id, variant) {
                lemma_all_concrete(b, id, ids, i + 1, found.push(concrete));
            }
        }
    }
}

/// An arm that is not for its variant is reported, and the match fails.
pub proof fn an_arm_for_another_variant_is_reported(
    b: &LoweringContextBuilder,
    c: CtxModel,
    m: MergerModel,
    l: Lowering,
    variant: ConcreteVariant,
    arm: MatchArm,
    ptr: SyntaxStablePtrId,
)
    requires
        !(arm.pattern is EnumVariant && arm.pattern->EnumVariant_0.variant == variant),
    ensures
        ({
            let step = lower_enum_arm(b, c, m, l, variant, arm, ptr);
            &&& step.r is Err
            &&& step.c.diagnostics == c.diagnostics.push(
                LoweringDiagnostic {
                    stable_ptr: ptr,
                    kind: LoweringDiagnosticKind::UnsupportedMatchArm,
                },
            )
        }),
{
    reveal(lower_enum_arm);
}

} // verus!

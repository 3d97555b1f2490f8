//! What holds of every step of the lowering: it defines new variables only, and each of them once,
//! and it reports nothing but unreachable statements unless it fails.
use crate::collections::{begins, lemma_lookup_assign, lookup};
use crate::ids::{
    ConcreteEnumId, ExprId, FunctionId, MemberId, SyntaxStablePtrId, TypeId, VarId, VariableId,
};
use crate::lowering::context::LoweringContextBuilder;
use crate::lowering::function::{
    define_params, first_state, lower_function, param_vars, root_scope, root_tys,
};
use crate::lowering::model::{
    add_call, add_call_block, add_enum_construct, add_match_enum, add_match_extern,
    add_struct_construct, add_struct_destructure, bind_refs, define, emptied,
    ensure_semantic_variable, entry_of, finalize_statement, finalized, fresh_vars,
    mark_implicit_changed, merger_of, merger_with, new_vars, next_block, next_var, output_tys,
    push_statement, put_implicit, put_semantic_variable, root_merger, sealed_of, subscope_of,
    take_implicit, variable_of, with_block, CallBlockResultModel, CtxModel, ExternEnumModel,
    FinalizedModel, FlowModel, LoweredExprModel, MergerModel, ScopeEndModel, ScopeModel,
    SealedModel, SemanticVariableEntry, Step,
};
use crate::lowering::objects::StatementModel;
use crate::lowering::defined_once::{
    apart, arms_on, block_defs, lemma_add, lemma_arms_close, lemma_arms_finalize,
    lemma_arms_finalize_all, lemma_arms_push, lemma_arms_start, lemma_finalize_statement,
    lemma_quiet, lemma_steps_trans, new_defs, outputs_of, scope_defs, sealed_defs, steps_on, within,
};
use crate::lowering::steps;
use crate::lowering::steps::{
    arm_body, earlier, err_arm, error_propagate, expr_end, expr_var, expr_vars, extern_arm_tys,
    extern_bind, extern_enum_var, extern_err_arm, extern_error_propagate, extern_ok_arm,
    extern_rest, extern_var_arms, facade_expr, facade_var, finalize_blocks, finish_call,
    finish_match_enum, finish_match_extern, from_block_result, full_return_vars, last_field,
    leave_with, lower_branch, lower_branches, lower_enum_arm, lower_enum_arms, lower_expr,
    lower_expr_var, lower_exprs, lower_exprs_as_vars, lower_extern_arm, lower_extern_arms,
    lower_kind, lower_match_felt, lower_members, lower_pattern, lower_statement,
    lower_struct_fields, lower_tail_expr, lower_tuple_fields, matched_enum, member_before, ok_arm,
    optimized_extern_match, pack_tuple, perform_call, push_implicits, put_implicit_pairs,
    put_implicits, put_variable_pairs, put_variables, take_implicits, take_ref_args, take_var,
    use_ref_params, use_var, zip_arms, BranchKind, Lowering,
};
use crate::outside::is_zero_bytes;
use crate::semantic::expr::{
    Expr, ExprBlock, ExprFunctionCall, ExprMatch, MatchArm, Pattern, Statement,
};
use crate::semantic::types::{type_of, ConcreteVariant, Member, Parameter, TypeModel};
use vstd::prelude::*;

verus! {

/// Whether nothing but unreachable statements was reported.
pub open spec fn mild(c0: CtxModel, c1: CtxModel) -> bool {
    &&& begins(c0.diagnostics, c1.diagnostics)
    &&& forall|i: int|
        c0.diagnostics.len() <= i < c1.diagnostics.len() ==> (
        #[trigger] c1.diagnostics[i]).kind is Unreachable
}

/// Whether the step did not fail.
pub open spec fn fine<T>(r: Result<T, FlowModel>) -> bool {
    match r {
        Err(FlowModel::Failed(_)) => false,
        _ => true,
    }
}

// === Lists that are bound at once ===

proof fn lemma_put_implicits(s: ScopeModel, tys: Seq<TypeId>, vars: Seq<VariableId>, i: int)
    ensures
        put_implicits(s, tys, vars, i).inputs == s.inputs,
        put_implicits(s, tys, vars, i).statements == s.statements,
    decreases tys.len() - i,
{
    if 0 <= i < tys.len() {
        lemma_put_implicits(put_implicit(s, tys[i], vars[i]), tys, vars, i + 1);
    }
}

proof fn lemma_push_implicits(s: ScopeModel, tys: Seq<TypeId>, vars: Seq<VariableId>, i: int)
    ensures
        push_implicits(s, tys, vars, i).inputs == s.inputs,
        push_implicits(s, tys, vars, i).statements == s.statements,
    decreases tys.len() - i,
{
    if 0 <= i < tys.len() {
        lemma_push_implicits(
            mark_implicit_changed(put_implicit(s, tys[i], vars[i]), tys[i]),
            tys,
            vars,
            i + 1,
        );
    }
}

proof fn lemma_put_variables(s: ScopeModel, ids: Seq<VarId>, vars: Seq<VariableId>, i: int)
    ensures
        put_variables(s, ids, vars, i).inputs == s.inputs,
        put_variables(s, ids, vars, i).statements == s.statements,
    decreases ids.len() - i,
{
    if 0 <= i < ids.len() {
        lemma_put_variables(put_semantic_variable(s, ids[i], vars[i]), ids, vars, i + 1);
    }
}

proof fn lemma_put_implicit_pairs(s: ScopeModel, pairs: Seq<(TypeId, VariableId)>, i: int)
    ensures
        put_implicit_pairs(s, pairs, i).inputs == s.inputs,
        put_implicit_pairs(s, pairs, i).statements == s.statements,
    decreases pairs.len() - i,
{
    if 0 <= i < pairs.len() {
        lemma_put_implicit_pairs(put_implicit(s, pairs[i].0, pairs[i].1), pairs, i + 1);
    }
}

proof fn lemma_put_variable_pairs(s: ScopeModel, pairs: Seq<(VarId, VariableId)>, i: int)
    ensures
        put_variable_pairs(s, pairs, i).inputs == s.inputs,
        put_variable_pairs(s, pairs, i).statements == s.statements,
    decreases pairs.len() - i,
{
    if 0 <= i < pairs.len() {
        lemma_put_variable_pairs(put_semantic_variable(s, pairs[i].0, pairs[i].1), pairs, i + 1);
    }
}

proof fn lemma_take_implicits(s: ScopeModel, tys: Seq<TypeId>, i: int, taken: Seq<VariableId>)
    ensures
        take_implicits(s, tys, i, taken).0.inputs == s.inputs,
        take_implicits(s, tys, i, taken).0.statements == s.statements,
    decreases tys.len() - i,
{
    if 0 <= i < tys.len() {
        match lookup(s.implicits, tys[i]) {
            Some(var) => {
                lemma_take_implicits(take_implicit(s, tys[i]), tys, i + 1, taken.push(var));
            },
            None => {},
        }
    }
}

proof fn lemma_extern_bind(s: ScopeModel, x: ExternEnumModel, inputs: Seq<VariableId>)
    ensures
        extern_bind(s, x, inputs).inputs == s.inputs,
        extern_bind(s, x, inputs).statements == s.statements,
{
    let n = x.implicits.len() as int;
    let m = n + x.ref_args.len();
    lemma_put_implicits(s, x.implicits, inputs.take(n), 0);
    lemma_put_variables(
        put_implicits(s, x.implicits, inputs.take(n), 0),
        x.ref_args,
        inputs.subrange(n, m),
        0,
    );
}

// === Variables of the source ===

proof fn lemma_use_var(c: CtxModel, s: ScopeModel, id: VarId, ptr: SyntaxStablePtrId)
    ensures
        steps_on(c, s, use_var(c, s, id, ptr).c, use_var(c, s, id, ptr).s),
        fine(use_var(c, s, id, ptr).r) ==> mild(c, use_var(c, s, id, ptr).c),
{
    lemma_quiet(c, s, use_var(c, s, id, ptr).c, use_var(c, s, id, ptr).s);
}

proof fn lemma_use_ref_params(
    b: &LoweringContextBuilder,
    c: CtxModel,
    s: ScopeModel,
    i: int,
    taken: Seq<VariableId>,
)
    ensures
        steps_on(c, s, use_ref_params(b, c, s, i, taken).c, use_ref_params(b, c, s, i, taken).s),
        fine(use_ref_params(b, c, s, i, taken).r) ==> mild(c, use_ref_params(b, c, s, i, taken).c),
    decreases b.ref_params@.len() - i,
{
    lemma_quiet(c, s, c, s);
    if 0 <= i < b.ref_params@.len() {
        let id = b.ref_params@[i];
        match b.db.variable_ptr_of(id) {
            None => {},
            Some(ptr) => {
                let step = use_var(c, s, id, ptr);
                lemma_use_var(c, s, id, ptr);
                match step.r {
                    Ok(var) => {
                        lemma_use_ref_params(b, step.c, step.s, i + 1, taken.push(var));
                        let last = use_ref_params(b, step.c, step.s, i + 1, taken.push(var));
                        lemma_steps_trans(c, s, step.c, step.s, last.c, last.s);
                    },
                    Err(_) => {},
                }
            },
        }
    }
}

proof fn lemma_take_ref_args(
    c: CtxModel,
    s: ScopeModel,
    ids: Seq<VarId>,
    ptr: SyntaxStablePtrId,
    i: int,
    tys: Seq<TypeId>,
    vars: Seq<VariableId>,
)
    ensures
        ({
            let step = take_ref_args(c, s, ids, ptr, i, tys, vars);
            &&& steps_on(c, s, step.c, step.s)
            &&& fine(step.r) ==> mild(c, step.c)
        }),
    decreases ids.len() - i,
{
    lemma_quiet(c, s, c, s);
    if 0 <= i < ids.len() {
        match lookup(c.semantic_defs, ids[i]) {
            None => {},
            Some(ty) => {
                let step = take_var(c, s, ids[i], ptr);
                lemma_quiet(c, s, step.c, step.s);
                match step.r {
                    Ok(var) => {
                        let last = take_ref_args(
                            step.c,
                            step.s,
                            ids,
                            ptr,
                            i + 1,
                            tys.push(ty),
                            vars.push(var),
                        );
                        lemma_take_ref_args(
                            step.c,
                            step.s,
                            ids,
                            ptr,
                            i + 1,
                            tys.push(ty),
                            vars.push(var),
                        );
                        lemma_steps_trans(c, s, step.c, step.s, last.c, last.s);
                    },
                    Err(_) => {},
                }
            },
        }
    }
}

// === Single statements ===

proof fn lemma_add_one(
    c0: CtxModel,
    s0: ScopeModel,
    c1: CtxModel,
    s1: ScopeModel,
    statement: StatementModel,
)
    requires
        c1.blocks == c0.blocks,
        begins(c0.variables, c1.variables),
        c1.variables.len() == c0.variables.len() + 1,
        s1 == push_statement(s0, statement),
        outputs_of(statement) == seq![next_var(c0)],
    ensures
        steps_on(c0, s0, c1, s1),
{
    assert(seq![next_var(c0)] =~= fresh_vars(c0, 1));
    lemma_add(c0, s0, c1, s1, statement, 1);
}

proof fn lemma_struct_construct(
    b: &LoweringContextBuilder,
    c: CtxModel,
    s: ScopeModel,
    inputs: Seq<VariableId>,
    ty: TypeId,
)
    ensures
        ({
            let step = add_struct_construct(b, c, s, inputs, ty);
            steps_on(c, s, step.c, step.s)
        }),
{
    let step = add_struct_construct(b, c, s, inputs, ty);
    lemma_add_one(
        c,
        s,
        step.c,
        step.s,
        StatementModel::StructConstruct { inputs, output: next_var(c) },
    );
}

proof fn lemma_struct_destructure(
    b: &LoweringContextBuilder,
    c: CtxModel,
    s: ScopeModel,
    input: VariableId,
    tys: Seq<TypeId>,
)
    ensures
        ({
            let step = add_struct_destructure(b, c, s, input, tys);
            steps_on(c, s, step.c, step.s)
        }),
{
    let step = add_struct_destructure(b, c, s, input, tys);
    lemma_add(
        c,
        s,
        step.c,
        step.s,
        StatementModel::StructDestructure { input, outputs: fresh_vars(c, tys.len()) },
        tys.len(),
    );
}

proof fn lemma_enum_construct(
    b: &LoweringContextBuilder,
    c: CtxModel,
    s: ScopeModel,
    input: VariableId,
    variant: ConcreteVariant,
)
    ensures
        ({
            let step = add_enum_construct(b, c, s, input, variant);
            steps_on(c, s, step.c, step.s)
        }),
{
    let step = add_enum_construct(b, c, s, input, variant);
    lemma_add_one(
        c,
        s,
        step.c,
        step.s,
        StatementModel::EnumConstruct { variant, input, output: next_var(c) },
    );
}

proof fn lemma_pack_tuple(
    b: &LoweringContextBuilder,
    c: CtxModel,
    s: ScopeModel,
    vars: Seq<VariableId>,
)
    ensures
        steps_on(c, s, pack_tuple(b, c, s, vars).c, pack_tuple(b, c, s, vars).s),
{
    let step = pack_tuple(b, c, s, vars);
    lemma_add_one(
        c,
        s,
        step.c,
        step.s,
        StatementModel::StructConstruct { inputs: vars, output: next_var(c) },
    );
}

proof fn lemma_call(
    b: &LoweringContextBuilder,
    c: CtxModel,
    s: ScopeModel,
    function: FunctionId,
    inputs: Seq<VariableId>,
    implicit_tys: Seq<TypeId>,
    ref_tys: Seq<TypeId>,
    ret_tys: Seq<TypeId>,
)
    ensures
        ({
            let step = add_call(b, c, s, function, inputs, implicit_tys, ref_tys, ret_tys);
            steps_on(c, s, step.c, step.s)
        }),
{
    let step = add_call(b, c, s, function, inputs, implicit_tys, ref_tys, ret_tys);
    let outputs = step.r.implicit_outputs + step.r.ref_outputs + step.r.returned;
    let n = implicit_tys.len() + ref_tys.len() + ret_tys.len();
    assert(outputs =~= fresh_vars(c, n));
    lemma_add(c, s, step.c, step.s, StatementModel::Call { function, inputs, outputs }, n);
}

// === Statements with blocks ===

/// The blocks that are not added yet can be given up.
proof fn lemma_arms_drop(c0: CtxModel, c1: CtxModel, sealed: Seq<SealedModel>)
    requires
        arms_on(c0, c1, sealed),
    ensures
        arms_on(c0, c1, Seq::empty()),
{
    reveal(arms_on);
    let none = Seq::<SealedModel>::empty();
    let of_none = none.map_values(|s: SealedModel| sealed_defs(s));
    let of_sealed = sealed.map_values(|s: SealedModel| sealed_defs(s));
    if c1.variables.len() <= usize::MAX {
        let pool = new_defs(c0, c1) + of_none;
        let all = new_defs(c0, c1) + of_sealed;
        assert forall|i: int| 0 <= i < pool.len() implies within(
            #[trigger] pool[i],
            c0.variables.len(),
            c1.variables.len(),
        ) by {
            assert(pool[i] == all[i]);
        }
        assert forall|i: int, j: int| 0 <= i < j < pool.len() implies apart(
            #[trigger] pool[i],
            #[trigger] pool[j],
        ) by {
            assert(pool[i] == all[i] && pool[j] == all[j]);
        }
    }
}

proof fn lemma_block_result(step: Step<CallBlockResultModel>, f: FinalizedModel)
    ensures
        from_block_result(step, f).s.inputs == step.s.inputs,
        scope_defs(from_block_result(step, f).s) == scope_defs(step.s),
{
    match step.r {
        CallBlockResultModel::Callsite { maybe_output, pushes } => {
            let n = f.implicit_pushes.len() as int;
            let s1 = push_implicits(step.s, f.implicit_pushes, pushes, 0);
            let s2 = put_variables(s1, f.var_pushes, pushes.skip(n), 0);
            let s3 = put_implicit_pairs(s2, f.unchanged, 0);
            let s4 = put_variable_pairs(s3, f.bring_back, 0);
            lemma_push_implicits(step.s, f.implicit_pushes, pushes, 0);
            lemma_put_variables(s1, f.var_pushes, pushes.skip(n), 0);
            lemma_put_implicit_pairs(s2, f.unchanged, 0);
            lemma_put_variable_pairs(s3, f.bring_back, 0);
            lemma_finalize_statement(s4);
        },
        CallBlockResultModel::End => {
            lemma_finalize_statement(step.s);
        },
    }
}

/// A statement with blocks, when these are added.
proof fn lemma_with_blocks(
    c0: CtxModel,
    s0: ScopeModel,
    c1: CtxModel,
    s1: ScopeModel,
    step: Step<CallBlockResultModel>,
    statement: StatementModel,
    n: nat,
    f: FinalizedModel,
)
    requires
        arms_on(c0, c1, Seq::empty()),
        s1.inputs == s0.inputs,
        scope_defs(s1) == scope_defs(s0),
        step.c.blocks == c1.blocks,
        begins(c1.variables, step.c.variables),
        step.c.variables.len() == c1.variables.len() + n,
        step.s == push_statement(s1, statement),
        outputs_of(statement) == fresh_vars(c1, n),
    ensures
        steps_on(c0, s0, from_block_result(step, f).c, from_block_result(step, f).s),
{
    let last = from_block_result(step, f);
    lemma_arms_close(c0, s0, c1, s1, Seq::empty());
    lemma_add(c1, s1, step.c, step.s, statement, n);
    lemma_block_result(step, f);
    lemma_quiet(step.c, step.s, last.c, last.s);
    lemma_steps_trans(c0, s0, c1, s1, step.c, step.s);
    lemma_steps_trans(c0, s0, step.c, step.s, last.c, last.s);
}

proof fn lemma_finish_match_enum(
    b: &LoweringContextBuilder,
    c0: CtxModel,
    s0: ScopeModel,
    c: CtxModel,
    s: ScopeModel,
    m: MergerModel,
    sealed: Seq<SealedModel>,
    concrete_enum_id: ConcreteEnumId,
    input: VariableId,
    variants: Seq<ConcreteVariant>,
)
    requires
        arms_on(c0, c, sealed),
        s.inputs == s0.inputs,
        scope_defs(s) == scope_defs(s0),
    ensures
        ({
            let step = finish_match_enum(b, c, s, m, sealed, concrete_enum_id, input, variants);
            &&& steps_on(c0, s0, step.c, step.s)
            &&& fine(step.r) ==> mild(c, step.c)
        }),
{
    let f = finalized(c, m);
    let (c1, blocks) = finalize_blocks(c, f, sealed, 0, Seq::empty());
    assert(sealed.skip(0) =~= sealed);
    lemma_arms_finalize_all(c0, c, f, sealed, 0, Seq::empty());
    let arms = zip_arms(variants, blocks);
    let step = add_match_enum(b, c1, s, concrete_enum_id, input, arms, f.info);
    let n = output_tys(f.info).len();
    lemma_with_blocks(
        c0,
        s0,
        c1,
        s,
        step,
        StatementModel::MatchEnum {
            concrete_enum_id,
            input,
            arms,
            outputs: fresh_vars(c1, n),
        },
        n,
        f,
    );
}

proof fn lemma_finish_match_extern(
    b: &LoweringContextBuilder,
    c0: CtxModel,
    s0: ScopeModel,
    c: CtxModel,
    s: ScopeModel,
    m: MergerModel,
    sealed: Seq<SealedModel>,
    function: FunctionId,
    inputs: Seq<VariableId>,
    variants: Seq<ConcreteVariant>,
)
    requires
        arms_on(c0, c, sealed),
        s.inputs == s0.inputs,
        scope_defs(s) == scope_defs(s0),
    ensures
        ({
            let step = finish_match_extern(b, c, s, m, sealed, function, inputs, variants);
            &&& steps_on(c0, s0, step.c, step.s)
            &&& fine(step.r) ==> mild(c, step.c)
        }),
{
    let f = finalized(c, m);
    let (c1, blocks) = finalize_blocks(c, f, sealed, 0, Seq::empty());
    assert(sealed.skip(0) =~= sealed);
    lemma_arms_finalize_all(c0, c, f, sealed, 0, Seq::empty());
    let arms = zip_arms(variants, blocks);
    let step = add_match_extern(b, c1, s, function, inputs, arms, f.info);
    let n = output_tys(f.info).len();
    lemma_with_blocks(
        c0,
        s0,
        c1,
        s,
        step,
        StatementModel::MatchExtern { function, inputs, arms, outputs: fresh_vars(c1, n) },
        n,
        f,
    );
}

// === Values ===

proof fn lemma_facade_var(
    b: &LoweringContextBuilder,
    c: CtxModel,
    s: ScopeModel,
    ty: TypeId,
    vars: Seq<VariableId>,
)
    ensures
        steps_on(c, s, facade_var(b, c, s, ty, vars).c, facade_var(b, c, s, ty, vars).s),
{
    lemma_pack_tuple(b, c, s, vars);
    lemma_quiet(c, s, c, s);
}

proof fn lemma_extern_var_arms(
    b: &LoweringContextBuilder,
    c0: CtxModel,
    c: CtxModel,
    m: MergerModel,
    x: ExternEnumModel,
    variants: Seq<ConcreteVariant>,
    i: int,
    sealed: Seq<SealedModel>,
)
    requires
        arms_on(c0, c, sealed),
    ensures
        ({
            let arms = extern_var_arms(b, c, m, x, variants, i, sealed);
            &&& arms_on(
                c0,
                arms.c,
                match arms.r {
                    Ok(all) => all,
                    Err(_) => Seq::empty(),
                },
            )
            &&& arms.r is Ok ==> mild(c, arms.c)
        }),
    decreases variants.len() - i,
{
    lemma_arms_drop(c0, c, sealed);
    if 0 <= i < variants.len() {
        match extern_arm_tys(c, variants[i].ty, x) {
            None => {},
            Some(tys) => {
                let sub = subscope_of(c, m, tys);
                let c1 = new_vars(b, c, tys);
                let s1 = extern_bind(sub, x, sub.inputs);
                lemma_extern_bind(sub, x, sub.inputs);
                let rest = extern_rest(x, sub.inputs);
                let value = facade_var(b, c1, s1, variants[i].ty, rest);
                lemma_facade_var(b, c1, s1, variants[i].ty, rest);
                let whole = add_enum_construct(b, value.c, value.s, value.r, variants[i]);
                lemma_enum_construct(b, value.c, value.s, value.r, variants[i]);
                lemma_steps_trans(c1, s1, value.c, value.s, whole.c, whole.s);
                let end = ScopeEndModel::Callsite(Some(whole.r));
                lemma_arms_push(b, c0, c, tys, s1, whole.c, whole.s, sealed, end);
                lemma_extern_var_arms(
                    b,
                    c0,
                    whole.c,
                    merger_with(m, whole.s, end),
                    x,
                    variants,
                    i + 1,
                    sealed.push(sealed_of(whole.s, end)),
                );
            },
        }
    }
}

proof fn lemma_extern_enum_var(
    b: &LoweringContextBuilder,
    c: CtxModel,
    s: ScopeModel,
    x: ExternEnumModel,
)
    ensures
        steps_on(c, s, extern_enum_var(b, c, s, x).c, extern_enum_var(b, c, s, x).s),
        fine(extern_enum_var(b, c, s, x).r) ==> mild(c, extern_enum_var(b, c, s, x).c),
{
    reveal(extern_enum_var);
    lemma_quiet(c, s, c, s);
    match b.db.concrete_enum_variants_of(x.concrete_enum_id) {
        Err(_) => {},
        Ok(variants) => {
            let m = merger_of(s, x.ref_args);
            let arms = extern_var_arms(b, c, m, x, variants, 0, Seq::empty());
            lemma_arms_start(c);
            lemma_extern_var_arms(b, c, c, m, x, variants, 0, Seq::empty());
            match arms.r {
                Err(_) => {
                    lemma_arms_close(c, s, arms.c, emptied(s), Seq::empty());
                },
                Ok(sealed) => {
                    let step = finish_match_extern(
                        b,
                        arms.c,
                        emptied(s),
                        arms.m,
                        sealed,
                        x.function,
                        x.inputs,
                        variants,
                    );
                    lemma_finish_match_extern(
                        b,
                        c,
                        s,
                        arms.c,
                        emptied(s),
                        arms.m,
                        sealed,
                        x.function,
                        x.inputs,
                        variants,
                    );
                    let packed = pack_tuple(b, step.c, step.s, Seq::empty());
                    lemma_pack_tuple(b, step.c, step.s, Seq::empty());
                    lemma_steps_trans(c, s, step.c, step.s, packed.c, packed.s);
                },
            }
        },
    }
}

proof fn lemma_expr_var(
    b: &LoweringContextBuilder,
    c: CtxModel,
    s: ScopeModel,
    e: LoweredExprModel,
)
    ensures
        steps_on(c, s, expr_var(b, c, s, e).c, expr_var(b, c, s, e).s),
        fine(expr_var(b, c, s, e).r) ==> mild(c, expr_var(b, c, s, e).c),
    decreases e, 0nat,
{
    reveal(expr_var);
    reveal(expr_vars);
    lemma_quiet(c, s, c, s);
    match e {
        LoweredExprModel::AtVariable(_) => {},
        LoweredExprModel::Tuple(es) => {
            let step = expr_vars(b, c, s, es, 0, Seq::empty());
            lemma_expr_vars(b, c, s, es, 0, Seq::empty());
            match step.r {
                Ok(vars) => {
                    let packed = pack_tuple(b, step.c, step.s, vars);
                    lemma_pack_tuple(b, step.c, step.s, vars);
                    lemma_steps_trans(c, s, step.c, step.s, packed.c, packed.s);
                },
                Err(_) => {},
            }
        },
        LoweredExprModel::ExternEnum(x) => {
            lemma_extern_enum_var(b, c, s, x);
        },
    }
}

proof fn lemma_expr_vars(
    b: &LoweringContextBuilder,
    c: CtxModel,
    s: ScopeModel,
    es: Seq<LoweredExprModel>,
    i: int,
    vars: Seq<VariableId>,
)
    ensures
        steps_on(c, s, expr_vars(b, c, s, es, i, vars).c, expr_vars(b, c, s, es, i, vars).s),
        fine(expr_vars(b, c, s, es, i, vars).r) ==> mild(c, expr_vars(b, c, s, es, i, vars).c),
    decreases es, es.len() - i,
{
    reveal(expr_var);
    reveal(expr_vars);
    lemma_quiet(c, s, c, s);
    if 0 <= i < es.len() {
        let step = expr_var(b, c, s, es[i]);
        lemma_expr_var(b, c, s, es[i]);
        match step.r {
            Ok(v) => {
                let last = expr_vars(b, step.c, step.s, es, i + 1, vars.push(v));
                lemma_expr_vars(b, step.c, step.s, es, i + 1, vars.push(v));
                lemma_steps_trans(c, s, step.c, step.s, last.c, last.s);
            },
            Err(_) => {},
        }
    }
}

proof fn lemma_full_return_vars(
    b: &LoweringContextBuilder,
    c: CtxModel,
    s: ScopeModel,
    e: LoweredExprModel,
)
    ensures
        steps_on(c, s, full_return_vars(b, c, s, e).c, full_return_vars(b, c, s, e).s),
        fine(full_return_vars(b, c, s, e).r) ==> mild(c, full_return_vars(b, c, s, e).c),
{
    reveal(full_return_vars);
    let (c1, s1) = if steps::is_unit(e) {
        (c, s)
    } else {
        (expr_var(b, c, s, e).c, expr_var(b, c, s, e).s)
    };
    lemma_quiet(c, s, c, s);
    lemma_expr_var(b, c, s, e);
    let s2 = take_implicits(s1, b.implicits@, 0, Seq::empty()).0;
    lemma_take_implicits(s1, b.implicits@, 0, Seq::empty());
    lemma_quiet(c1, s1, c1, s2);
    lemma_steps_trans(c, s, c1, s1, c1, s2);
    let refs = use_ref_params(b, c1, s2, 0, Seq::empty());
    lemma_use_ref_params(b, c1, s2, 0, Seq::empty());
    lemma_steps_trans(c, s, c1, s2, refs.c, refs.s);
}

proof fn lemma_expr_end(
    b: &LoweringContextBuilder,
    c: CtxModel,
    s: ScopeModel,
    r: Result<LoweredExprModel, FlowModel>,
    root: bool,
)
    ensures
        steps_on(c, s, expr_end(b, c, s, r, root).c, expr_end(b, c, s, r, root).s),
        expr_end(b, c, s, r, root).r is Ok ==> mild(c, expr_end(b, c, s, r, root).c) && fine(r),
{
    reveal(expr_end);
    lemma_quiet(c, s, c, s);
    match r {
        Err(_) => {},
        Ok(e) => {
            let step = expr_var(b, c, s, e);
            lemma_expr_var(b, c, s, e);
            match step.r {
                Err(_) => {},
                Ok(v) => {
                    let at = LoweredExprModel::AtVariable(v);
                    let full = full_return_vars(b, step.c, step.s, at);
                    lemma_full_return_vars(b, step.c, step.s, at);
                    lemma_steps_trans(c, s, step.c, step.s, full.c, full.s);
                },
            }
        },
    }
}

// === Patterns ===

proof fn lemma_pattern(
    b: &LoweringContextBuilder,
    c: CtxModel,
    s: ScopeModel,
    p: Pattern,
    e: LoweredExprModel,
)
    ensures
        steps_on(c, s, lower_pattern(b, c, s, p, e).c, lower_pattern(b, c, s, p, e).s),
        fine(lower_pattern(b, c, s, p, e).r) ==> mild(c, lower_pattern(b, c, s, p, e).c),
    decreases p, 1nat, 0int,
{
    reveal(lower_pattern);
    reveal(lower_struct_fields);
    reveal(lower_tuple_fields);
    let last = lower_pattern(b, c, s, p, e);
    lemma_quiet(c, s, c, s);
    let step = expr_var(b, c, s, e);
    lemma_expr_var(b, c, s, e);
    match p {
        Pattern::Literal(_) => {},
        Pattern::EnumVariant(_) => {},
        Pattern::Otherwise(_) => {},
        Pattern::Variable(_) => {
            if step.r is Ok {
                lemma_quiet(step.c, step.s, last.c, last.s);
                lemma_steps_trans(c, s, step.c, step.s, last.c, last.s);
            }
        },
        Pattern::Struct(st) => match b.db.struct_members_of(st.id) {
            Err(_) => {},
            Ok(members) => match step.r {
                Err(_) => {},
                Ok(input) => {
                    let tys = members.map_values(|m: Member| m.ty);
                    let parts = add_struct_destructure(b, step.c, step.s, input, tys);
                    lemma_struct_destructure(b, step.c, step.s, input, tys);
                    lemma_struct_fields(b, parts.c, parts.s, p, members, parts.r, 0);
                    lemma_steps_trans(c, s, step.c, step.s, parts.c, parts.s);
                    lemma_steps_trans(c, s, parts.c, parts.s, last.c, last.s);
                },
            },
        },
        Pattern::Tuple(t) => match e {
            LoweredExprModel::Tuple(es) => {
                lemma_tuple_fields(b, c, s, p, es, 0);
            },
            _ => match type_of(c.types, t.ty) {
                Some(TypeModel::Tuple(tys)) => match step.r {
                    Err(_) => {},
                    Ok(input) => {
                        let parts = add_struct_destructure(b, step.c, step.s, input, tys);
                        lemma_struct_destructure(b, step.c, step.s, input, tys);
                        lemma_steps_trans(c, s, step.c, step.s, parts.c, parts.s);
                        let es = parts.r.map_values(
                            |v: VariableId| LoweredExprModel::AtVariable(v),
                        );
                        let fields = lower_tuple_fields(b, parts.c, parts.s, p, es, 0);
                        lemma_tuple_fields(b, parts.c, parts.s, p, es, 0);
                        lemma_steps_trans(c, s, parts.c, parts.s, fields.c, fields.s);
                    },
                },
                _ => {},
            },
        },
    }
}

proof fn lemma_struct_fields(
    b: &LoweringContextBuilder,
    c: CtxModel,
    s: ScopeModel,
    p: Pattern,
    members: Seq<Member>,
    vars: Seq<VariableId>,
    i: int,
)
    ensures
        ({
            let step = lower_struct_fields(b, c, s, p, members, vars, i);
            &&& steps_on(c, s, step.c, step.s)
            &&& fine(step.r) ==> mild(c, step.c)
        }),
    decreases p, 0nat, members.len() - i,
{
    reveal(lower_pattern);
    reveal(lower_struct_fields);
    reveal(lower_tuple_fields);
    lemma_quiet(c, s, c, s);
    match p {
        Pattern::Struct(st) => {
            if 0 <= i < members.len() {
                let fields = st.field_patterns@;
                let k = last_field(fields, members[i].id, fields.len() as int);
                if 0 <= k < fields.len() && !member_before(members, members[i].id, i) {
                    let at = LoweredExprModel::AtVariable(vars[i]);
                    let step = lower_pattern(b, c, s, fields[k].1, at);
                    lemma_pattern(b, c, s, fields[k].1, at);
                    let last = lower_struct_fields(b, step.c, step.s, p, members, vars, i + 1);
                    lemma_struct_fields(b, step.c, step.s, p, members, vars, i + 1);
                    lemma_steps_trans(c, s, step.c, step.s, last.c, last.s);
                } else {
                    lemma_struct_fields(b, c, s, p, members, vars, i + 1);
                }
            }
        },
        _ => {},
    }
}

proof fn lemma_tuple_fields(
    b: &LoweringContextBuilder,
    c: CtxModel,
    s: ScopeModel,
    p: Pattern,
    es: Seq<LoweredExprModel>,
    i: int,
)
    ensures
        ({
            let step = lower_tuple_fields(b, c, s, p, es, i);
            &&& steps_on(c, s, step.c, step.s)
            &&& fine(step.r) ==> mild(c, step.c)
        }),
    decreases p, 0nat, es.len() - i,
{
    reveal(lower_pattern);
    reveal(lower_struct_fields);
    reveal(lower_tuple_fields);
    lemma_quiet(c, s, c, s);
    match p {
        Pattern::Tuple(t) => {
            if 0 <= i < es.len() && i < t.field_patterns@.len() {
                let step = lower_pattern(b, c, s, t.field_patterns@[i], es[i]);
                lemma_pattern(b, c, s, t.field_patterns@[i], es[i]);
                let last = lower_tuple_fields(b, step.c, step.s, p, es, i + 1);
                lemma_tuple_fields(b, step.c, step.s, p, es, i + 1);
                lemma_steps_trans(c, s, step.c, step.s, last.c, last.s);
            }
        },
        _ => {},
    }
}

// === Calls ===

proof fn lemma_finish_call(
    b: &LoweringContextBuilder,
    c: CtxModel,
    s: ScopeModel,
    e: ExprFunctionCall,
    inputs: Seq<VariableId>,
    implicit_tys: Seq<TypeId>,
    ref_tys: Seq<TypeId>,
)
    ensures
        ({
            let step = finish_call(b, c, s, e, inputs, implicit_tys, ref_tys);
            &&& steps_on(c, s, step.c, step.s)
            &&& fine(step.r) ==> mild(c, step.c)
        }),
{
    reveal(finish_call);
    lemma_quiet(c, s, c, s);
    let of_enum = steps::enum_of_type(c, e.ty);
    if e.function == b.db.core.panic_func {
        if inputs.len() == 1 {
            lemma_full_return_vars(b, c, s, LoweredExprModel::AtVariable(inputs[0]));
        }
    } else if b.db.extern_function_of(e.function) is Some && of_enum is Some {
        let x = ExternEnumModel {
            function: e.function,
            concrete_enum_id: of_enum->0,
            inputs,
            ref_args: e.ref_args@,
            implicits: implicit_tys,
            stable_ptr: e.stable_ptr,
        };
        lemma_extern_enum_var(b, c, s, x);
    } else {
        let call = perform_call(b, c, s, e.function, inputs, implicit_tys, ref_tys, e.ty);
        lemma_call(b, c, s, e.function, inputs, implicit_tys, ref_tys, seq![e.ty]);
        lemma_call(
            b,
            c,
            s,
            e.function,
            inputs,
            implicit_tys,
            ref_tys,
            steps::facade_tys(c, e.ty),
        );
        let s1 = put_implicits(call.s, implicit_tys, call.r.0, 0);
        let s2 = put_variables(s1, e.ref_args@, call.r.1, 0);
        lemma_put_implicits(call.s, implicit_tys, call.r.0, 0);
        lemma_put_variables(s1, e.ref_args@, call.r.1, 0);
        lemma_finalize_statement(s2);
        let s3 = finalize_statement(s2);
        lemma_quiet(call.c, call.s, call.c, s3);
        lemma_steps_trans(c, s, call.c, call.s, call.c, s3);
    }
}

// === Expressions and statements ===

/// Whether every expression is lowered in a step that defines new variables only, and each of them
/// once.
pub open spec fn regular(l: Lowering) -> bool {
    forall|c: CtxModel, s: ScopeModel, e: ExprId|
        steps_on(c, s, (#[trigger] l(c, s, e)).c, l(c, s, e).s) && (fine(l(c, s, e).r) ==> mild(
            c,
            l(c, s, e).c,
        ))
}

proof fn lemma_lower_expr_var(
    b: &LoweringContextBuilder,
    c: CtxModel,
    s: ScopeModel,
    l: Lowering,
    e: ExprId,
)
    requires
        regular(l),
    ensures
        steps_on(c, s, lower_expr_var(b, c, s, l, e).c, lower_expr_var(b, c, s, l, e).s),
        fine(lower_expr_var(b, c, s, l, e).r) ==> mild(c, lower_expr_var(b, c, s, l, e).c),
{
    reveal(lower_expr_var);
    let step = l(c, s, e);
    match step.r {
        Err(_) => {},
        Ok(le) => {
            let last = expr_var(b, step.c, step.s, le);
            lemma_expr_var(b, step.c, step.s, le);
            lemma_steps_trans(c, s, step.c, step.s, last.c, last.s);
        },
    }
}

proof fn lemma_lower_exprs(
    c: CtxModel,
    s: ScopeModel,
    l: Lowering,
    ids: Seq<ExprId>,
    i: int,
    lowered: Seq<LoweredExprModel>,
)
    requires
        regular(l),
    ensures
        ({
            let step = lower_exprs(c, s, l, ids, i, lowered);
            &&& steps_on(c, s, step.c, step.s)
            &&& fine(step.r) ==> mild(c, step.c)
        }),
    decreases ids.len() - i,
{
    reveal(lower_exprs);
    lemma_quiet(c, s, c, s);
    if 0 <= i < ids.len() {
        let step = l(c, s, ids[i]);
        match step.r {
            Err(_) => {},
            Ok(e) => {
                let last = lower_exprs(step.c, step.s, l, ids, i + 1, lowered.push(e));
                lemma_lower_exprs(step.c, step.s, l, ids, i + 1, lowered.push(e));
                lemma_steps_trans(c, s, step.c, step.s, last.c, last.s);
            },
        }
    }
}

proof fn lemma_lower_exprs_as_vars(
    b: &LoweringContextBuilder,
    c: CtxModel,
    s: ScopeModel,
    l: Lowering,
    ids: Seq<ExprId>,
    i: int,
    vars: Seq<VariableId>,
)
    requires
        regular(l),
    ensures
        ({
            let step = lower_exprs_as_vars(b, c, s, l, ids, i, vars);
            &&& steps_on(c, s, step.c, step.s)
            &&& fine(step.r) ==> mild(c, step.c)
        }),
    decreases ids.len() - i,
{
    reveal(lower_exprs_as_vars);
    lemma_quiet(c, s, c, s);
    if 0 <= i < ids.len() {
        let step = lower_expr_var(b, c, s, l, ids[i]);
        lemma_lower_expr_var(b, c, s, l, ids[i]);
        match step.r {
            Err(_) => {},
            Ok(v) => {
                let last = lower_exprs_as_vars(b, step.c, step.s, l, ids, i + 1, vars.push(v));
                lemma_lower_exprs_as_vars(b, step.c, step.s, l, ids, i + 1, vars.push(v));
                lemma_steps_trans(c, s, step.c, step.s, last.c, last.s);
            },
        }
    }
}

proof fn lemma_lower_members(
    b: &LoweringContextBuilder,
    c: CtxModel,
    s: ScopeModel,
    l: Lowering,
    members: Seq<Member>,
    values: Seq<(MemberId, ExprId)>,
    i: int,
    vars: Seq<VariableId>,
)
    requires
        regular(l),
    ensures
        ({
            let step = lower_members(b, c, s, l, members, values, i, vars);
            &&& steps_on(c, s, step.c, step.s)
            &&& fine(step.r) ==> mild(c, step.c)
        }),
    decreases members.len() - i,
{
    reveal(lower_members);
    lemma_quiet(c, s, c, s);
    if 0 <= i < members.len() {
        match steps::last_member_expr(values, members[i].id, values.len() as int) {
            None => {},
            Some(e) => {
                let step = lower_expr_var(b, c, s, l, e);
                lemma_lower_expr_var(b, c, s, l, e);
                match step.r {
                    Err(_) => {},
                    Ok(v) => {
                        let last = lower_members(
                            b,
                            step.c,
                            step.s,
                            l,
                            members,
                            values,
                            i + 1,
                            vars.push(v),
                        );
                        lemma_lower_members(
                            b,
                            step.c,
                            step.s,
                            l,
                            members,
                            values,
                            i + 1,
                            vars.push(v),
                        );
                        lemma_steps_trans(c, s, step.c, step.s, last.c, last.s);
                    },
                }
            },
        }
    }
}

proof fn lemma_lower_statement(
    b: &LoweringContextBuilder,
    c: CtxModel,
    s: ScopeModel,
    l: Lowering,
    stmt: Statement,
)
    requires
        regular(l),
    ensures
        steps_on(c, s, lower_statement(b, c, s, l, stmt).c, lower_statement(b, c, s, l, stmt).s),
        fine(lower_statement(b, c, s, l, stmt).r) ==> mild(c, lower_statement(b, c, s, l, stmt).c),
{
    reveal(lower_statement);
    let expr = match stmt {
        Statement::Expr(st) => st.expr,
        Statement::Let(st) => st.expr,
        Statement::Return(st) => st.expr,
    };
    let step = l(c, s, expr);
    match step.r {
        Err(_) => {},
        Ok(e) => {
            match stmt {
                Statement::Expr(_) => match e {
                    LoweredExprModel::ExternEnum(x) => {
                        let value = extern_enum_var(b, step.c, step.s, x);
                        lemma_extern_enum_var(b, step.c, step.s, x);
                        lemma_steps_trans(c, s, step.c, step.s, value.c, value.s);
                    },
                    _ => {},
                },
                Statement::Let(st) => {
                    let last = lower_pattern(b, step.c, step.s, st.pattern, e);
                    lemma_pattern(b, step.c, step.s, st.pattern, e);
                    lemma_steps_trans(c, s, step.c, step.s, last.c, last.s);
                },
                Statement::Return(_) => {
                    let full = full_return_vars(b, step.c, step.s, e);
                    lemma_full_return_vars(b, step.c, step.s, e);
                    lemma_steps_trans(c, s, step.c, step.s, full.c, full.s);
                },
            }
        },
    }
}

proof fn lemma_lower_tail_expr(
    b: &LoweringContextBuilder,
    c: CtxModel,
    s: ScopeModel,
    l: Lowering,
    tail: Option<ExprId>,
    root: bool,
)
    requires
        regular(l),
    ensures
        ({
            let step = lower_tail_expr(b, c, s, l, tail, root);
            &&& steps_on(c, s, step.c, step.s)
            &&& step.r is Ok ==> mild(c, step.c)
        }),
{
    reveal(lower_tail_expr);
    match tail {
        None => {
            lemma_expr_end(b, c, s, Ok(LoweredExprModel::Tuple(Seq::empty())), root);
        },
        Some(e) => {
            let step = l(c, s, e);
            let last = expr_end(b, step.c, step.s, step.r, root);
            lemma_expr_end(b, step.c, step.s, step.r, root);
            lemma_steps_trans(c, s, step.c, step.s, last.c, last.s);
        },
    }
}

proof fn lemma_lower_block(
    b: &LoweringContextBuilder,
    c: CtxModel,
    s: ScopeModel,
    l: Lowering,
    e: ExprBlock,
    root: bool,
    i: int,
)
    requires
        regular(l),
    ensures
        ({
            let step = steps::lower_block(b, c, s, l, e, root, i);
            &&& steps_on(c, s, step.c, step.s)
            &&& step.r is Ok ==> mild(c, step.c)
        }),
    decreases e.statements@.len() - i,
{
    reveal(steps::lower_block);
    let ids = e.statements@;
    let statements = b.function_def.statements@;
    let last = steps::lower_block(b, c, s, l, e, root, i);
    lemma_quiet(c, s, c, s);
    if i < 0 || i >= ids.len() {
        lemma_lower_tail_expr(b, c, s, l, e.tail, root);
    } else if ids[i].0 < statements.len() {
        let step = lower_statement(b, c, s, l, statements[ids[i].0 as int]);
        lemma_lower_statement(b, c, s, l, statements[ids[i].0 as int]);
        match step.r {
            Ok(_) => {
                lemma_lower_block(b, step.c, step.s, l, e, root, i + 1);
            },
            Err(_) => {
                lemma_quiet(step.c, step.s, last.c, last.s);
            },
        }
        lemma_steps_trans(c, s, step.c, step.s, last.c, last.s);
    }
}

proof fn lemma_lower_expr_block(
    b: &LoweringContextBuilder,
    c: CtxModel,
    s: ScopeModel,
    l: Lowering,
    e: ExprBlock,
)
    requires
        regular(l),
    ensures
        ({
            let step = steps::lower_expr_block(b, c, s, l, e);
            &&& steps_on(c, s, step.c, step.s)
            &&& fine(step.r) ==> mild(c, step.c)
        }),
{
    reveal(steps::lower_expr_block);
    let m = merger_of(s, Seq::empty());
    let tys = Seq::<TypeId>::empty();
    let sub = bind_refs(subscope_of(c, m, tys));
    let c1 = new_vars(b, c, tys);
    let step = steps::lower_block(b, c1, sub, l, e, false, 0);
    lemma_lower_block(b, c1, sub, l, e, false, 0);
    lemma_arms_start(c);
    match step.r {
        Err(_) => {
            let end = ScopeEndModel::Unreachable;
            lemma_arms_push(b, c, c, tys, sub, step.c, step.s, Seq::empty(), end);
            lemma_arms_close(c, s, step.c, emptied(s), Seq::empty());
        },
        Ok(end) => {
            lemma_arms_push(b, c, c, tys, sub, step.c, step.s, Seq::empty(), end);
            let sealed = sealed_of(step.s, end);
            let f = finalized(step.c, merger_with(m, step.s, end));
            let c2 = with_block(step.c, f, sealed);
            assert(Seq::empty().push(sealed) =~= seq![sealed] + Seq::<SealedModel>::empty());
            lemma_arms_finalize(c, step.c, f, sealed, Seq::empty());
            let n = output_tys(f.info).len();
            let block = next_block(step.c);
            lemma_with_blocks(
                c,
                s,
                c2,
                emptied(s),
                add_call_block(b, c2, emptied(s), block, f.info),
                StatementModel::CallBlock { block, outputs: fresh_vars(c2, n) },
                n,
                f,
            );
        },
    }
}

proof fn lemma_lower_expr_function_call(
    b: &LoweringContextBuilder,
    c: CtxModel,
    s: ScopeModel,
    l: Lowering,
    e: ExprFunctionCall,
)
    requires
        regular(l),
    ensures
        ({
            let step = steps::lower_expr_function_call(b, c, s, l, e);
            &&& steps_on(c, s, step.c, step.s)
            &&& fine(step.r) ==> mild(c, step.c)
        }),
{
    reveal(steps::lower_expr_function_call);
    let args = lower_exprs_as_vars(b, c, s, l, e.args@, 0, Seq::empty());
    lemma_lower_exprs_as_vars(b, c, s, l, e.args@, 0, Seq::empty());
    match args.r {
        Err(_) => {},
        Ok(arg_inputs) => {
            let refs = take_ref_args(
                args.c,
                args.s,
                e.ref_args@,
                e.stable_ptr,
                0,
                Seq::empty(),
                Seq::empty(),
            );
            lemma_take_ref_args(
                args.c,
                args.s,
                e.ref_args@,
                e.stable_ptr,
                0,
                Seq::empty(),
                Seq::empty(),
            );
            lemma_steps_trans(c, s, args.c, args.s, refs.c, refs.s);
            match refs.r {
                Err(_) => {},
                Ok((ref_tys, ref_inputs)) => match b.db.function_all_implicits_of(e.function) {
                    Err(_) => {},
                    Ok(implicit_tys) => {
                        let (s1, taken) = take_implicits(refs.s, implicit_tys, 0, Seq::empty());
                        lemma_take_implicits(refs.s, implicit_tys, 0, Seq::empty());
                        lemma_quiet(refs.c, refs.s, refs.c, s1);
                        lemma_steps_trans(c, s, refs.c, refs.s, refs.c, s1);
                        match taken {
                            None => {},
                            Some(implicits) => {
                                let inputs = implicits + ref_inputs + arg_inputs;
                                let last = finish_call(
                                    b,
                                    refs.c,
                                    s1,
                                    e,
                                    inputs,
                                    implicit_tys,
                                    ref_tys,
                                );
                                lemma_finish_call(b, refs.c, s1, e, inputs, implicit_tys, ref_tys);
                                lemma_steps_trans(c, s, refs.c, s1, last.c, last.s);
                            },
                        }
                    },
                },
            }
        },
    }
}

proof fn lemma_arm_body(
    b: &LoweringContextBuilder,
    c: CtxModel,
    s: ScopeModel,
    l: Lowering,
    inner: Pattern,
    value: LoweredExprModel,
    expression: ExprId,
)
    requires
        regular(l),
    ensures
        ({
            let step = arm_body(b, c, s, l, inner, value, expression);
            &&& steps_on(c, s, step.c, step.s)
            &&& step.r is Ok ==> mild(c, step.c)
        }),
{
    reveal(arm_body);
    let step = lower_pattern(b, c, s, inner, value);
    lemma_pattern(b, c, s, inner, value);
    match step.r {
        Err(_) => {},
        Ok(_) => {
            let last = lower_tail_expr(b, step.c, step.s, l, Some(expression), false);
            lemma_lower_tail_expr(b, step.c, step.s, l, Some(expression), false);
            lemma_steps_trans(c, s, step.c, step.s, last.c, last.s);
        },
    }
}

/// The blocks after the lowering of one more, which may have failed.
pub open spec fn with_arm(sealed: Seq<SealedModel>, arm: steps::ArmStep) -> Seq<SealedModel> {
    match arm.r {
        Ok(block) => sealed.push(block),
        Err(_) => sealed,
    }
}

/// A block that was given up defines new variables only.
proof fn lemma_arms_failed(
    b: &LoweringContextBuilder,
    c0: CtxModel,
    c1: CtxModel,
    tys: Seq<TypeId>,
    start: ScopeModel,
    c2: CtxModel,
    s2: ScopeModel,
    sealed: Seq<SealedModel>,
)
    requires
        arms_on(c0, c1, sealed),
        start.inputs == fresh_vars(c1, tys.len()),
        start.statements.len() == 0,
        steps_on(new_vars(b, c1, tys), start, c2, s2),
    ensures
        arms_on(c0, c2, sealed),
{
    let end = ScopeEndModel::Unreachable;
    lemma_arms_push(b, c0, c1, tys, start, c2, s2, sealed, end);
}

proof fn lemma_enum_arm(
    b: &LoweringContextBuilder,
    c0: CtxModel,
    c: CtxModel,
    m: MergerModel,
    l: Lowering,
    variant: ConcreteVariant,
    arm: MatchArm,
    ptr: SyntaxStablePtrId,
    sealed: Seq<SealedModel>,
)
    requires
        regular(l),
        arms_on(c0, c, sealed),
    ensures
        ({
            let step = lower_enum_arm(b, c, m, l, variant, arm, ptr);
            &&& arms_on(c0, step.c, with_arm(sealed, step))
            &&& step.r is Ok ==> mild(c, step.c)
        }),
{
    reveal(lower_enum_arm);
    let tys = seq![variant.ty];
    let c1 = new_vars(b, c, tys);
    let sub = bind_refs(subscope_of(c, m, tys));
    let arm_step = lower_enum_arm(b, c, m, l, variant, arm, ptr);
    match arm.pattern {
        Pattern::EnumVariant(p) if p.variant == variant => {
            let at = LoweredExprModel::AtVariable(sub.inputs[0]);
            let step = arm_body(b, c1, sub, l, *p.inner_pattern, at, arm.expression);
            lemma_arm_body(b, c1, sub, l, *p.inner_pattern, at, arm.expression);
            match step.r {
                Err(_) => {
                    lemma_arms_failed(b, c0, c, tys, sub, step.c, step.s, sealed);
                },
                Ok(end) => {
                    lemma_arms_push(b, c0, c, tys, sub, step.c, step.s, sealed, end);
                },
            }
        },
        _ => {
            lemma_quiet(c1, sub, arm_step.c, sub);
            lemma_arms_failed(b, c0, c, tys, sub, arm_step.c, sub, sealed);
        },
    }
}

proof fn lemma_enum_arms(
    b: &LoweringContextBuilder,
    c0: CtxModel,
    c: CtxModel,
    m: MergerModel,
    l: Lowering,
    variants: Seq<ConcreteVariant>,
    arms: Seq<MatchArm>,
    ptr: SyntaxStablePtrId,
    i: int,
    sealed: Seq<SealedModel>,
)
    requires
        regular(l),
        arms_on(c0, c, sealed),
    ensures
        ({
            let all = lower_enum_arms(b, c, m, l, variants, arms, ptr, i, sealed);
            &&& arms_on(
                c0,
                all.c,
                match all.r {
                    Ok(blocks) => blocks,
                    Err(_) => Seq::empty(),
                },
            )
            &&& all.r is Ok ==> mild(c, all.c)
        }),
    decreases variants.len() - i,
{
    reveal(lower_enum_arms);
    if 0 <= i < variants.len() {
        let step = lower_enum_arm(b, c, m, l, variants[i], arms[i], ptr);
        lemma_enum_arm(b, c0, c, m, l, variants[i], arms[i], ptr, sealed);
        match step.r {
            Err(_) => {
                lemma_arms_drop(c0, step.c, sealed);
            },
            Ok(block) => {
                lemma_enum_arms(
                    b,
                    c0,
                    step.c,
                    step.m,
                    l,
                    variants,
                    arms,
                    ptr,
                    i + 1,
                    sealed.push(block),
                );
            },
        }
    }
}

proof fn lemma_extern_arm(
    b: &LoweringContextBuilder,
    c0: CtxModel,
    c: CtxModel,
    m: MergerModel,
    l: Lowering,
    x: ExternEnumModel,
    variant: ConcreteVariant,
    arm: MatchArm,
    sealed: Seq<SealedModel>,
)
    requires
        regular(l),
        arms_on(c0, c, sealed),
    ensures
        ({
            let step = lower_extern_arm(b, c, m, l, x, variant, arm);
            &&& arms_on(c0, step.c, with_arm(sealed, step))
            &&& step.r is Ok ==> mild(c, step.c)
        }),
{
    reveal(lower_extern_arm);
    let arm_step = lower_extern_arm(b, c, m, l, x, variant, arm);
    match extern_arm_tys(c, variant.ty, x) {
        None => {},
        Some(tys) => {
            let c1 = new_vars(b, c, tys);
            let sub = subscope_of(c, m, tys);
            match arm.pattern {
                Pattern::EnumVariant(p) if p.variant == variant => {
                    let s1 = extern_bind(sub, x, sub.inputs);
                    lemma_extern_bind(sub, x, sub.inputs);
                    let value = facade_expr(c1, variant.ty, extern_rest(x, sub.inputs));
                    let step = arm_body(b, c1, s1, l, *p.inner_pattern, value, arm.expression);
                    lemma_arm_body(b, c1, s1, l, *p.inner_pattern, value, arm.expression);
                    match step.r {
                        Err(_) => {
                            lemma_arms_failed(b, c0, c, tys, s1, step.c, step.s, sealed);
                        },
                        Ok(end) => {
                            lemma_arms_push(b, c0, c, tys, s1, step.c, step.s, sealed, end);
                        },
                    }
                },
                _ => {
                    lemma_quiet(c1, sub, arm_step.c, sub);
                    lemma_arms_failed(b, c0, c, tys, sub, arm_step.c, sub, sealed);
                },
            }
        },
    }
}

proof fn lemma_extern_arms(
    b: &LoweringContextBuilder,
    c0: CtxModel,
    c: CtxModel,
    m: MergerModel,
    l: Lowering,
    x: ExternEnumModel,
    variants: Seq<ConcreteVariant>,
    arms: Seq<MatchArm>,
    i: int,
    sealed: Seq<SealedModel>,
)
    requires
        regular(l),
        arms_on(c0, c, sealed),
    ensures
        ({
            let all = lower_extern_arms(b, c, m, l, x, variants, arms, i, sealed);
            &&& arms_on(
                c0,
                all.c,
                match all.r {
                    Ok(blocks) => blocks,
                    Err(_) => Seq::empty(),
                },
            )
            &&& all.r is Ok ==> mild(c, all.c)
        }),
    decreases variants.len() - i,
{
    reveal(lower_extern_arms);
    if 0 <= i < variants.len() {
        let step = lower_extern_arm(b, c, m, l, x, variants[i], arms[i]);
        lemma_extern_arm(b, c0, c, m, l, x, variants[i], arms[i], sealed);
        match step.r {
            Err(_) => {
                lemma_arms_drop(c0, step.c, sealed);
            },
            Ok(block) => {
                lemma_extern_arms(
                    b,
                    c0,
                    step.c,
                    step.m,
                    l,
                    x,
                    variants,
                    arms,
                    i + 1,
                    sealed.push(block),
                );
            },
        }
    }
}

proof fn lemma_optimized_extern_match(
    b: &LoweringContextBuilder,
    c: CtxModel,
    s: ScopeModel,
    l: Lowering,
    x: ExternEnumModel,
    arms: Seq<MatchArm>,
)
    requires
        regular(l),
    ensures
        ({
            let step = optimized_extern_match(b, c, s, l, x, arms);
            &&& steps_on(c, s, step.c, step.s)
            &&& fine(step.r) ==> mild(c, step.c)
        }),
{
    reveal(optimized_extern_match);
    lemma_quiet(c, s, c, s);
    match b.db.concrete_enum_variants_of(x.concrete_enum_id) {
        Err(_) => {},
        Ok(variants) => {
            if arms.len() == variants.len() {
                let m = merger_of(s, x.ref_args);
                let step = lower_extern_arms(b, c, m, l, x, variants, arms, 0, Seq::empty());
                lemma_arms_start(c);
                lemma_extern_arms(b, c, c, m, l, x, variants, arms, 0, Seq::empty());
                match step.r {
                    Err(_) => {
                        lemma_arms_close(c, s, step.c, emptied(s), Seq::empty());
                    },
                    Ok(sealed) => {
                        lemma_finish_match_extern(
                            b,
                            c,
                            s,
                            step.c,
                            emptied(s),
                            step.m,
                            sealed,
                            x.function,
                            x.inputs,
                            variants,
                        );
                    },
                }
            }
        },
    }
}

proof fn lemma_branch(
    b: &LoweringContextBuilder,
    c0: CtxModel,
    c: CtxModel,
    m: MergerModel,
    l: Lowering,
    tys: Seq<TypeId>,
    e: ExprId,
    sealed: Seq<SealedModel>,
)
    requires
        regular(l),
        arms_on(c0, c, sealed),
    ensures
        ({
            let step = lower_branch(b, c, m, l, tys, e);
            &&& arms_on(c0, step.c, with_arm(sealed, step))
            &&& step.r is Ok ==> mild(c, step.c)
        }),
{
    reveal(lower_branch);
    let c1 = new_vars(b, c, tys);
    let sub = bind_refs(subscope_of(c, m, tys));
    let step = lower_tail_expr(b, c1, sub, l, Some(e), false);
    lemma_lower_tail_expr(b, c1, sub, l, Some(e), false);
    match step.r {
        Err(_) => {
            lemma_arms_failed(b, c0, c, tys, sub, step.c, step.s, sealed);
        },
        Ok(end) => {
            lemma_arms_push(b, c0, c, tys, sub, step.c, step.s, sealed, end);
        },
    }
}

proof fn lemma_branches(
    b: &LoweringContextBuilder,
    c: CtxModel,
    s: ScopeModel,
    l: Lowering,
    first: (Seq<TypeId>, ExprId),
    second: (Seq<TypeId>, ExprId),
    kind: BranchKind,
)
    requires
        regular(l),
    ensures
        ({
            let step = lower_branches(b, c, s, l, first, second, kind);
            &&& steps_on(c, s, step.c, step.s)
            &&& fine(step.r) ==> mild(c, step.c)
        }),
{
    reveal(lower_branches);
    let s1 = emptied(s);
    let m = merger_of(s, Seq::empty());
    let one = lower_branch(b, c, m, l, first.0, first.1);
    let two = lower_branch(b, one.c, one.m, l, second.0, second.1);
    let f = finalized(two.c, two.m);
    lemma_arms_start(c);
    lemma_branch(b, c, c, m, l, first.0, first.1, Seq::empty());
    let after_one = with_arm(Seq::empty(), one);
    lemma_branch(b, c, one.c, one.m, l, second.0, second.1, after_one);
    let after_two = with_arm(after_one, two);
    lemma_arms_drop(c, two.c, after_two);
    lemma_arms_close(c, s, two.c, s1, after_two);
    match (one.r, two.r) {
        (Ok(x), Err(_)) => {
            let c1 = with_block(two.c, f, x);
            assert(after_two =~= seq![x] + Seq::<SealedModel>::empty());
            lemma_arms_finalize(c, two.c, f, x, Seq::empty());
            lemma_arms_close(c, s, c1, s1, Seq::empty());
        },
        (Ok(x), Ok(y)) => {
            let c1 = with_block(two.c, f, x);
            let c2 = with_block(c1, f, y);
            assert(after_two =~= seq![x] + seq![y]);
            lemma_arms_finalize(c, two.c, f, x, seq![y]);
            assert(seq![y] =~= seq![y] + Seq::<SealedModel>::empty());
            lemma_arms_finalize(c, c1, f, y, Seq::empty());
            let n = output_tys(f.info).len();
            match kind {
                BranchKind::FeltZero { input } => {
                    let arms = seq![
                        (b.db.core.jump_nz_zero_variant, next_block(two.c)),
                        (b.db.core.jump_nz_nonzero_variant, next_block(c1)),
                    ];
                    let function = b.db.core.jump_nz_func;
                    let inputs = seq![input];
                    lemma_with_blocks(
                        c,
                        s,
                        c2,
                        s1,
                        add_match_extern(b, c2, s1, function, inputs, arms, f.info),
                        StatementModel::MatchExtern {
                            function,
                            inputs,
                            arms,
                            outputs: fresh_vars(c2, n),
                        },
                        n,
                        f,
                    );
                },
                BranchKind::If { input } => {
                    let arms = seq![
                        (b.db.core.false_variant, next_block(c1)),
                        (b.db.core.true_variant, next_block(two.c)),
                    ];
                    let concrete_enum_id = b.db.core.bool_enum;
                    lemma_with_blocks(
                        c,
                        s,
                        c2,
                        s1,
                        add_match_enum(b, c2, s1, concrete_enum_id, input, arms, f.info),
                        StatementModel::MatchEnum {
                            concrete_enum_id,
                            input,
                            arms,
                            outputs: fresh_vars(c2, n),
                        },
                        n,
                        f,
                    );
                },
            }
        },
        _ => {},
    }
}

proof fn lemma_match_felt(
    b: &LoweringContextBuilder,
    c: CtxModel,
    s: ScopeModel,
    l: Lowering,
    e: ExprMatch,
    v: VariableId,
)
    requires
        regular(l),
    ensures
        ({
            let step = lower_match_felt(b, c, s, l, e, v);
            &&& steps_on(c, s, step.c, step.s)
            &&& fine(step.r) ==> mild(c, step.c)
        }),
{
    reveal(lower_match_felt);
    let step = lower_match_felt(b, c, s, l, e, v);
    let arms = e.arms@;
    if arms.len() == 2 && arms[0].pattern is Literal && arms[1].pattern is Otherwise
        && is_zero_bytes((arms[0].pattern->Literal_0).literal.value@) {
        lemma_branches(
            b,
            c,
            s,
            l,
            (Seq::empty(), arms[0].expression),
            (seq![b.db.core.nonzero_felt_ty], arms[1].expression),
            BranchKind::FeltZero { input: v },
        );
    } else {
        lemma_quiet(c, s, step.c, step.s);
    }
}

proof fn lemma_matched_enum(b: &LoweringContextBuilder, c: CtxModel, e: ExprMatch, ty: TypeId)
    ensures
        matched_enum(b, c, e, ty).0.variables == c.variables,
        matched_enum(b, c, e, ty).0.blocks == c.blocks,
        match matched_enum(b, c, e, ty).1 {
            Ok(_) => matched_enum(b, c, e, ty).0.diagnostics == c.diagnostics,
            Err(f) => f is Failed,
        },
{
    reveal(matched_enum);
}

proof fn lemma_lower_expr_match(
    b: &LoweringContextBuilder,
    c: CtxModel,
    s: ScopeModel,
    l: Lowering,
    e: ExprMatch,
)
    requires
        regular(l),
    ensures
        ({
            let step = steps::lower_expr_match(b, c, s, l, e);
            &&& steps_on(c, s, step.c, step.s)
            &&& fine(step.r) ==> mild(c, step.c)
        }),
{
    reveal(steps::lower_expr_match);
    lemma_quiet(c, s, c, s);
    if e.matched_expr.0 < b.function_def.exprs@.len() {
        let ty = b.function_def.exprs@[e.matched_expr.0 as int].ty_of();
        let step = l(c, s, e.matched_expr);
        match step.r {
            Err(_) => {},
            Ok(matched) => {
                if ty == b.db.core.felt_ty {
                    let value = expr_var(b, step.c, step.s, matched);
                    lemma_expr_var(b, step.c, step.s, matched);
                    lemma_steps_trans(c, s, step.c, step.s, value.c, value.s);
                    match value.r {
                        Err(_) => {},
                        Ok(v) => {
                            let last = lower_match_felt(b, value.c, value.s, l, e, v);
                            lemma_match_felt(b, value.c, value.s, l, e, v);
                            lemma_steps_trans(c, s, value.c, value.s, last.c, last.s);
                        },
                    }
                } else {
                    match matched {
                        LoweredExprModel::ExternEnum(x) => {
                            let last = optimized_extern_match(b, step.c, step.s, l, x, e.arms@);
                            lemma_optimized_extern_match(b, step.c, step.s, l, x, e.arms@);
                            lemma_steps_trans(c, s, step.c, step.s, last.c, last.s);
                        },
                        _ => {
                            lemma_match_enum(b, c, s, step.c, step.s, l, e, ty, matched);
                        },
                    }
                }
            },
        }
    }
}

/// The part of a match on an enum after its value is lowered.
proof fn lemma_match_enum(
    b: &LoweringContextBuilder,
    c0: CtxModel,
    s0: ScopeModel,
    c: CtxModel,
    s: ScopeModel,
    l: Lowering,
    e: ExprMatch,
    ty: TypeId,
    matched: LoweredExprModel,
)
    requires
        regular(l),
        steps_on(c0, s0, c, s),
    ensures
        ({
            let (c1, found) = matched_enum(b, c, e, ty);
            match found {
                Err(f) => steps_on(c0, s0, c1, s) && f is Failed,
                Ok((enum_id, variants)) => {
                    let value = expr_var(b, c1, s, matched);
                    match value.r {
                        Err(f) => steps_on(c0, s0, value.c, value.s) && (f is Failed || mild(
                            c,
                            value.c,
                        )),
                        Ok(v) => {
                            let arms = lower_enum_arms(
                                b,
                                value.c,
                                merger_of(value.s, Seq::empty()),
                                l,
                                variants,
                                e.arms@,
                                e.stable_ptr,
                                0,
                                Seq::empty(),
                            );
                            match arms.r {
                                Err(_) => steps_on(c0, s0, arms.c, emptied(value.s)),
                                Ok(sealed) => {
                                    let last = finish_match_enum(
                                        b,
                                        arms.c,
                                        emptied(value.s),
                                        arms.m,
                                        sealed,
                                        enum_id,
                                        v,
                                        variants,
                                    );
                                    &&& steps_on(c0, s0, last.c, last.s)
                                    &&& fine(last.r) ==> mild(c, last.c)
                                },
                            }
                        },
                    }
                },
            }
        }),
{
    let (c1, found) = matched_enum(b, c, e, ty);
    lemma_matched_enum(b, c, e, ty);
    lemma_quiet(c, s, c1, s);
    lemma_steps_trans(c0, s0, c, s, c1, s);
    match found {
        Err(_) => {},
        Ok((enum_id, variants)) => {
            let value = expr_var(b, c1, s, matched);
            lemma_expr_var(b, c1, s, matched);
            lemma_steps_trans(c0, s0, c1, s, value.c, value.s);
            match value.r {
                Err(_) => {},
                Ok(v) => {
                    let m = merger_of(value.s, Seq::empty());
                    let arms = lower_enum_arms(
                        b,
                        value.c,
                        m,
                        l,
                        variants,
                        e.arms@,
                        e.stable_ptr,
                        0,
                        Seq::empty(),
                    );
                    lemma_arms_start(value.c);
                    lemma_enum_arms(
                        b,
                        value.c,
                        value.c,
                        m,
                        l,
                        variants,
                        e.arms@,
                        e.stable_ptr,
                        0,
                        Seq::empty(),
                    );
                    match arms.r {
                        Err(_) => {
                            lemma_arms_close(
                                value.c,
                                value.s,
                                arms.c,
                                emptied(value.s),
                                Seq::empty(),
                            );
                            lemma_steps_trans(
                                c0,
                                s0,
                                value.c,
                                value.s,
                                arms.c,
                                emptied(value.s),
                            );
                        },
                        Ok(sealed) => {
                            let last = finish_match_enum(
                                b,
                                arms.c,
                                emptied(value.s),
                                arms.m,
                                sealed,
                                enum_id,
                                v,
                                variants,
                            );
                            lemma_finish_match_enum(
                                b,
                                value.c,
                                value.s,
                                arms.c,
                                emptied(value.s),
                                arms.m,
                                sealed,
                                enum_id,
                                v,
                                variants,
                            );
                            lemma_steps_trans(c0, s0, value.c, value.s, last.c, last.s);
                        },
                    }
                },
            }
        },
    }
}

// === Error propagation ===

proof fn lemma_leave_with(
    b: &LoweringContextBuilder,
    c0: CtxModel,
    c: CtxModel,
    tys: Seq<TypeId>,
    start: ScopeModel,
    c1: CtxModel,
    s1: ScopeModel,
    m: MergerModel,
    input: VariableId,
    func_err_variant: ConcreteVariant,
    sealed: Seq<SealedModel>,
)
    requires
        arms_on(c0, c, sealed),
        start.inputs == fresh_vars(c, tys.len()),
        start.statements.len() == 0,
        steps_on(new_vars(b, c, tys), start, c1, s1),
    ensures
        ({
            let step = leave_with(b, c1, s1, m, input, func_err_variant);
            &&& arms_on(c0, step.c, with_arm(sealed, step))
            &&& step.r is Ok ==> mild(c1, step.c)
        }),
{
    let c2 = new_vars(b, c, tys);
    let value = add_enum_construct(b, c1, s1, input, func_err_variant);
    lemma_enum_construct(b, c1, s1, input, func_err_variant);
    lemma_steps_trans(c2, start, c1, s1, value.c, value.s);
    let at = LoweredExprModel::AtVariable(value.r);
    let full = full_return_vars(b, value.c, value.s, at);
    lemma_full_return_vars(b, value.c, value.s, at);
    lemma_steps_trans(c2, start, value.c, value.s, full.c, full.s);
    match full.r {
        Err(_) => {
            lemma_arms_failed(b, c0, c, tys, start, full.c, full.s, sealed);
        },
        Ok((refs, returned)) => {
            let end = ScopeEndModel::Return { refs, returned };
            lemma_arms_push(b, c0, c, tys, start, full.c, full.s, sealed, end);
        },
    }
}

proof fn lemma_ok_arm(
    b: &LoweringContextBuilder,
    c0: CtxModel,
    c: CtxModel,
    m: MergerModel,
    variant: ConcreteVariant,
    sealed: Seq<SealedModel>,
)
    requires
        arms_on(c0, c, sealed),
    ensures
        arms_on(c0, ok_arm(b, c, m, variant).c, with_arm(sealed, ok_arm(b, c, m, variant))),
        ok_arm(b, c, m, variant).r is Ok,
        mild(c, ok_arm(b, c, m, variant).c),
{
    let tys = seq![variant.ty];
    let c1 = new_vars(b, c, tys);
    let sub = bind_refs(subscope_of(c, m, tys));
    let end = ScopeEndModel::Callsite(Some(sub.inputs[0]));
    lemma_quiet(c1, sub, c1, sub);
    lemma_arms_push(b, c0, c, tys, sub, c1, sub, sealed, end);
}

proof fn lemma_err_arm(
    b: &LoweringContextBuilder,
    c0: CtxModel,
    c: CtxModel,
    m: MergerModel,
    variant: ConcreteVariant,
    func_err_variant: ConcreteVariant,
    sealed: Seq<SealedModel>,
)
    requires
        arms_on(c0, c, sealed),
    ensures
        ({
            let step = err_arm(b, c, m, variant, func_err_variant);
            &&& arms_on(c0, step.c, with_arm(sealed, step))
            &&& step.r is Ok ==> mild(c, step.c)
        }),
{
    let tys = seq![variant.ty];
    let c1 = new_vars(b, c, tys);
    let sub = bind_refs(subscope_of(c, m, tys));
    lemma_quiet(c1, sub, c1, sub);
    lemma_leave_with(
        b,
        c0,
        c,
        tys,
        sub,
        c1,
        sub,
        m,
        sub.inputs[0],
        func_err_variant,
        sealed,
    );
}

proof fn lemma_extern_ok_arm(
    b: &LoweringContextBuilder,
    c0: CtxModel,
    c: CtxModel,
    m: MergerModel,
    x: ExternEnumModel,
    variant: ConcreteVariant,
    sealed: Seq<SealedModel>,
)
    requires
        arms_on(c0, c, sealed),
    ensures
        ({
            let step = extern_ok_arm(b, c, m, x, variant);
            &&& arms_on(c0, step.c, with_arm(sealed, step))
            &&& step.r is Ok ==> mild(c, step.c)
        }),
{
    match extern_arm_tys(c, variant.ty, x) {
        None => {},
        Some(tys) => {
            let sub = subscope_of(c, m, tys);
            let c1 = new_vars(b, c, tys);
            let s1 = extern_bind(sub, x, sub.inputs);
            lemma_extern_bind(sub, x, sub.inputs);
            let value = facade_expr(c1, variant.ty, extern_rest(x, sub.inputs));
            let step = expr_var(b, c1, s1, value);
            lemma_expr_var(b, c1, s1, value);
            match step.r {
                Err(_) => {
                    lemma_arms_failed(b, c0, c, tys, s1, step.c, step.s, sealed);
                },
                Ok(v) => {
                    let end = ScopeEndModel::Callsite(Some(v));
                    lemma_arms_push(b, c0, c, tys, s1, step.c, step.s, sealed, end);
                },
            }
        },
    }
}

proof fn lemma_extern_err_arm(
    b: &LoweringContextBuilder,
    c0: CtxModel,
    c: CtxModel,
    m: MergerModel,
    x: ExternEnumModel,
    variant: ConcreteVariant,
    func_err_variant: ConcreteVariant,
    sealed: Seq<SealedModel>,
)
    requires
        arms_on(c0, c, sealed),
    ensures
        ({
            let step = extern_err_arm(b, c, m, x, variant, func_err_variant);
            &&& arms_on(c0, step.c, with_arm(sealed, step))
            &&& step.r is Ok ==> mild(c, step.c)
        }),
{
    match extern_arm_tys(c, variant.ty, x) {
        None => {},
        Some(tys) => {
            let sub = subscope_of(c, m, tys);
            let c1 = new_vars(b, c, tys);
            let s1 = extern_bind(sub, x, sub.inputs);
            lemma_extern_bind(sub, x, sub.inputs);
            let value = facade_expr(c1, variant.ty, extern_rest(x, sub.inputs));
            let step = expr_var(b, c1, s1, value);
            lemma_expr_var(b, c1, s1, value);
            match step.r {
                Err(_) => {
                    lemma_arms_failed(b, c0, c, tys, s1, step.c, step.s, sealed);
                },
                Ok(v) => {
                    lemma_leave_with(
                        b,
                        c0,
                        c,
                        tys,
                        s1,
                        step.c,
                        step.s,
                        m,
                        v,
                        func_err_variant,
                        sealed,
                    );
                },
            }
        },
    }
}

proof fn lemma_extern_error_propagate(
    b: &LoweringContextBuilder,
    c: CtxModel,
    s: ScopeModel,
    x: ExternEnumModel,
    ok_variant: ConcreteVariant,
    err_variant: ConcreteVariant,
    func_err_variant: ConcreteVariant,
)
    ensures
        ({
            let step = extern_error_propagate(
                b,
                c,
                s,
                x,
                ok_variant,
                err_variant,
                func_err_variant,
            );
            &&& steps_on(c, s, step.c, step.s)
            &&& fine(step.r) ==> mild(c, step.c)
        }),
{
    reveal(extern_error_propagate);
    let s1 = emptied(s);
    let m = merger_of(s, x.ref_args);
    let one = extern_ok_arm(b, c, m, x, ok_variant);
    lemma_arms_start(c);
    lemma_extern_ok_arm(b, c, c, m, x, ok_variant, Seq::empty());
    match one.r {
        Err(_) => {
            lemma_arms_close(c, s, one.c, s1, Seq::empty());
        },
        Ok(first) => {
            let sealed = Seq::empty().push(first);
            let two = extern_err_arm(b, one.c, one.m, x, err_variant, func_err_variant);
            lemma_extern_err_arm(
                b,
                c,
                one.c,
                one.m,
                x,
                err_variant,
                func_err_variant,
                sealed,
            );
            match two.r {
                Err(_) => {
                    lemma_arms_close(c, s, two.c, s1, sealed);
                },
                Ok(second) => {
                    assert(sealed.push(second) =~= seq![first, second]);
                    lemma_finish_match_extern(
                        b,
                        c,
                        s,
                        two.c,
                        s1,
                        two.m,
                        seq![first, second],
                        x.function,
                        x.inputs,
                        seq![ok_variant, err_variant],
                    );
                },
            }
        },
    }
}

proof fn lemma_error_propagate(
    b: &LoweringContextBuilder,
    c: CtxModel,
    s: ScopeModel,
    e: LoweredExprModel,
    ok_variant: ConcreteVariant,
    err_variant: ConcreteVariant,
    func_err_variant: ConcreteVariant,
)
    ensures
        ({
            let step = error_propagate(b, c, s, e, ok_variant, err_variant, func_err_variant);
            &&& steps_on(c, s, step.c, step.s)
            &&& fine(step.r) ==> mild(c, step.c)
        }),
{
    reveal(error_propagate);
    match e {
        LoweredExprModel::ExternEnum(x) => {
            lemma_extern_error_propagate(
                b,
                c,
                s,
                x,
                ok_variant,
                err_variant,
                func_err_variant,
            );
        },
        _ => {
            let value = expr_var(b, c, s, e);
            lemma_expr_var(b, c, s, e);
            match value.r {
                Err(_) => {},
                Ok(v) => {
                    let s1 = emptied(value.s);
                    let m = merger_of(value.s, Seq::empty());
                    let one = ok_arm(b, value.c, m, ok_variant);
                    lemma_arms_start(value.c);
                    lemma_ok_arm(b, value.c, value.c, m, ok_variant, Seq::empty());
                    let first = one.r->Ok_0;
                    let sealed = Seq::empty().push(first);
                    let two = err_arm(b, one.c, one.m, err_variant, func_err_variant);
                    lemma_err_arm(
                        b,
                        value.c,
                        one.c,
                        one.m,
                        err_variant,
                        func_err_variant,
                        sealed,
                    );
                    match two.r {
                        Err(_) => {
                            lemma_arms_close(value.c, value.s, two.c, s1, sealed);
                            lemma_steps_trans(c, s, value.c, value.s, two.c, s1);
                        },
                        Ok(second) => {
                            let both = seq![first, second];
                            let variants = seq![ok_variant, err_variant];
                            assert(sealed.push(second) =~= both);
                            let last = finish_match_enum(
                                b,
                                two.c,
                                s1,
                                two.m,
                                both,
                                ok_variant.concrete_enum_id,
                                v,
                                variants,
                            );
                            lemma_finish_match_enum(
                                b,
                                value.c,
                                value.s,
                                two.c,
                                s1,
                                two.m,
                                both,
                                ok_variant.concrete_enum_id,
                                v,
                                variants,
                            );
                            lemma_steps_trans(c, s, value.c, value.s, last.c, last.s);
                        },
                    }
                },
            }
        },
    }
}

// === Everything ===

proof fn lemma_lower_kind(
    b: &LoweringContextBuilder,
    c: CtxModel,
    s: ScopeModel,
    l: Lowering,
    expr: Expr,
)
    requires
        regular(l),
    ensures
        steps_on(c, s, lower_kind(b, c, s, l, expr).c, lower_kind(b, c, s, l, expr).s),
        fine(lower_kind(b, c, s, l, expr).r) ==> mild(c, lower_kind(b, c, s, l, expr).c),
{
    reveal(lower_kind);
    let last = lower_kind(b, c, s, l, expr);
    match expr {
        Expr::Tuple(e) => {
            reveal(steps::lower_expr_tuple);
            lemma_lower_exprs(c, s, l, e.items@, 0, Seq::empty());
        },
        Expr::Assignment(e) => {
            reveal(steps::lower_expr_assignment);
            let s1 = ensure_semantic_variable(s, e.var);
            let step = lower_expr_var(b, c, s1, l, e.rhs);
            lemma_quiet(c, s, c, s1);
            lemma_lower_expr_var(b, c, s1, l, e.rhs);
            lemma_steps_trans(c, s, c, s1, step.c, step.s);
            lemma_quiet(step.c, step.s, last.c, last.s);
            lemma_steps_trans(c, s, step.c, step.s, last.c, last.s);
        },
        Expr::Block(e) => {
            lemma_lower_expr_block(b, c, s, l, e);
        },
        Expr::FunctionCall(e) => {
            lemma_lower_expr_function_call(b, c, s, l, e);
        },
        Expr::Match(e) => {
            lemma_lower_expr_match(b, c, s, l, e);
        },
        Expr::If(e) => {
            reveal(steps::lower_expr_if);
            let cond = lower_expr_var(b, c, s, l, e.condition);
            lemma_lower_expr_var(b, c, s, l, e.condition);
            match cond.r {
                Err(_) => {},
                Ok(v) => {
                    lemma_branches(
                        b,
                        cond.c,
                        cond.s,
                        l,
                        (seq![b.db.core.unit_ty], e.if_block),
                        (seq![b.db.core.unit_ty], e.else_block),
                        BranchKind::If { input: v },
                    );
                    lemma_steps_trans(c, s, cond.c, cond.s, last.c, last.s);
                },
            }
        },
        Expr::Var(e) => {
            lemma_use_var(c, s, e.var, e.stable_ptr);
        },
        Expr::Literal(e) => {
            lemma_add_one(
                c,
                s,
                last.c,
                last.s,
                StatementModel::Literal { ty: e.ty, value: e.value@, output: next_var(c) },
            );
        },
        Expr::MemberAccess(e) => {
            reveal(steps::lower_expr_member_access);
            lemma_quiet(c, s, c, s);
            let step = lower_expr_var(b, c, s, l, e.expr);
            lemma_lower_expr_var(b, c, s, l, e.expr);
            match b.db.struct_members_of(e.struct_id) {
                Err(_) => {},
                Ok(members) => match step.r {
                    Err(_) => {},
                    Ok(v) => {
                        let tys = members.map_values(|m: Member| m.ty);
                        let parts = add_struct_destructure(b, step.c, step.s, v, tys);
                        lemma_struct_destructure(b, step.c, step.s, v, tys);
                        lemma_steps_trans(c, s, step.c, step.s, parts.c, parts.s);
                    },
                },
            }
        },
        Expr::StructCtor(e) => {
            reveal(steps::lower_expr_struct_ctor);
            lemma_quiet(c, s, c, s);
            match b.db.struct_members_of(e.struct_id) {
                Err(_) => {},
                Ok(members) => {
                    let step = lower_members(b, c, s, l, members, e.members@, 0, Seq::empty());
                    lemma_lower_members(b, c, s, l, members, e.members@, 0, Seq::empty());
                    match step.r {
                        Err(_) => {},
                        Ok(inputs) => {
                            lemma_struct_construct(b, step.c, step.s, inputs, e.ty);
                            lemma_steps_trans(c, s, step.c, step.s, last.c, last.s);
                        },
                    }
                },
            }
        },
        Expr::EnumVariantCtor(e) => {
            reveal(steps::lower_expr_enum_ctor);
            let step = lower_expr_var(b, c, s, l, e.value_expr);
            lemma_lower_expr_var(b, c, s, l, e.value_expr);
            match step.r {
                Err(_) => {},
                Ok(v) => {
                    lemma_enum_construct(b, step.c, step.s, v, e.variant);
                    lemma_steps_trans(c, s, step.c, step.s, last.c, last.s);
                },
            }
        },
        Expr::PropagateError(e) => {
            reveal(steps::lower_expr_error_propagate);
            let step = l(c, s, e.inner);
            match step.r {
                Err(_) => {},
                Ok(inner) => {
                    lemma_error_propagate(
                        b,
                        step.c,
                        step.s,
                        inner,
                        e.ok_variant,
                        e.err_variant,
                        e.func_err_variant,
                    );
                    lemma_steps_trans(c, s, step.c, step.s, last.c, last.s);
                },
            }
        },
        Expr::Missing(_) => {
            lemma_quiet(c, s, c, s);
        },
    }
}

proof fn lemma_lower_expr(b: &LoweringContextBuilder, c: CtxModel, s: ScopeModel, id: nat)
    ensures
        steps_on(c, s, lower_expr(b, c, s, id).c, lower_expr(b, c, s, id).s),
        fine(lower_expr(b, c, s, id).r) ==> mild(c, lower_expr(b, c, s, id).c),
    decreases id, 1nat,
{
    reveal(lower_expr);
    reveal(earlier);
    lemma_quiet(c, s, c, s);
    if id < b.function_def.exprs@.len() {
        lemma_earlier_regular(b, id);
        lemma_lower_kind(b, c, s, earlier(b, id), *b.function_def.exprs@[id as int]);
    }
}

proof fn lemma_earlier_regular(b: &LoweringContextBuilder, bound: nat)
    ensures
        regular(earlier(b, bound)),
    decreases bound, 0nat,
{
    reveal(lower_expr);
    reveal(earlier);
    let l = earlier(b, bound);
    assert forall|c: CtxModel, s: ScopeModel, e: ExprId|
        steps_on(c, s, (#[trigger] l(c, s, e)).c, l(c, s, e).s) && (fine(l(c, s, e).r) ==> mild(
            c,
            l(c, s, e).c,
        )) by {
        lemma_quiet(c, s, c, s);
        if e.0 < bound {
            lemma_lower_expr(b, c, s, e.0 as nat);
        }
    }
}

proof fn lemma_define_params(c: CtxModel, params: Seq<Parameter>, i: int)
    ensures
        define_params(c, params, i).variables == c.variables,
        define_params(c, params, i).blocks == c.blocks,
        define_params(c, params, i).diagnostics == c.diagnostics,
    decreases params.len() - i,
{
    if 0 <= i < params.len() {
        lemma_define_params(
            define(c, VarId::Param(params[i].id), params[i].ty),
            params,
            i + 1,
        );
    }
}

proof fn lemma_first_state(b: &LoweringContextBuilder, types: Seq<TypeModel>)
    ensures
        first_state(b, types).variables.len() == 0,
        first_state(b, types).blocks.len() == 0,
        first_state(b, types).diagnostics.len() == 0,
{
    lemma_define_params(
        CtxModel {
            types,
            variables: Seq::empty(),
            blocks: Seq::empty(),
            diagnostics: Seq::empty(),
            semantic_defs: Seq::empty(),
            given_back: b.implicits@.len() + b.ref_params@.len(),
        },
        b.signature.params@,
        0,
    );
}

proof fn lemma_lower_function(b: &LoweringContextBuilder, types: Seq<TypeModel>, clean: bool)
    ensures
        first_state(b, types).blocks.len() == 0,
        first_state(b, types).diagnostics.len() == 0,
        arms_on(first_state(b, types), lower_function(b, types, clean).0, Seq::empty()),
        lower_function(b, types, clean).1 is Ok ==> mild(
            first_state(b, types),
            lower_function(b, types, clean).0,
        ),
{
    let c0 = first_state(b, types);
    lemma_first_state(b, types);
    lemma_arms_start(c0);
    let id = b.function_def.body_expr.0;
    if clean && id < b.function_def.exprs@.len() {
        match *b.function_def.exprs@[id as int] {
            Expr::Block(block) => {
                let tys = root_tys(b);
                let c1 = new_vars(b, c0, tys);
                let s1 = root_scope(b, c0);
                lemma_root_scope(b, c0);
                let step = steps::lower_block(b, c1, s1, earlier(b, id as nat), block, true, 0);
                lemma_earlier_regular(b, id as nat);
                lemma_lower_block(b, c1, s1, earlier(b, id as nat), block, true, 0);
                match step.r {
                    Err(_) => {
                        lemma_arms_failed(b, c0, c0, tys, s1, step.c, step.s, Seq::empty());
                    },
                    Ok(end) => {
                        lemma_arms_push(b, c0, c0, tys, s1, step.c, step.s, Seq::empty(), end);
                        let sealed = sealed_of(step.s, end);
                        assert(Seq::empty().push(sealed) =~= seq![sealed] + Seq::<
                            SealedModel,
                        >::empty());
                        let f = finalized(step.c, merger_with(root_merger(), step.s, end));
                        lemma_arms_finalize(c0, step.c, f, sealed, Seq::empty());
                    },
                }
            },
            _ => {},
        }
    }
}

/// Every variable of a lowered function is defined once: in one place of one block, as far as there
/// are identifiers for all variables.
pub proof fn every_variable_is_defined_once(
    b: &LoweringContextBuilder,
    types: Seq<TypeModel>,
    clean: bool,
    i: int,
    k: int,
    j: int,
    m: int,
)
    requires
        ({
            let c = lower_function(b, types, clean).0;
            &&& c.variables.len() <= usize::MAX
            &&& 0 <= i < c.blocks.len()
            &&& 0 <= k < block_defs(c.blocks[i]).len()
            &&& 0 <= j < c.blocks.len()
            &&& 0 <= m < block_defs(c.blocks[j]).len()
            &&& block_defs(c.blocks[i])[k] == block_defs(c.blocks[j])[m]
        }),
    ensures
        i == j,
        k == m,
{
    let c0 = first_state(b, types);
    let c = lower_function(b, types, clean).0;
    lemma_lower_function(b, types, clean);
    reveal(arms_on);
    let none = Seq::<SealedModel>::empty();
    let pool = new_defs(c0, c) + none.map_values(|s: SealedModel| sealed_defs(s));
    assert(pool[i] == block_defs(c.blocks[i]));
    assert(pool[j] == block_defs(c.blocks[j]));
    assert(within(pool[i], c0.variables.len(), c.variables.len()));
    if i < j {
        assert(apart(pool[i], pool[j]));
    } else if j < i {
        assert(apart(pool[j], pool[i]));
    } else if k < m {
        assert(pool[i][k].0 < pool[i][m].0);
    } else if m < k {
        assert(pool[i][m].0 < pool[i][k].0);
    }
}

/// The root block of a function is the last one. Its inputs are the first variables: one of the
/// type of each implicit, then one of the type of each parameter, as far as there are identifiers
/// for all variables and blocks.
pub proof fn the_root_block_takes_implicits_and_parameters(
    b: &LoweringContextBuilder,
    types: Seq<TypeModel>,
    clean: bool,
)
    requires
        lower_function(b, types, clean).1 is Ok,
        lower_function(b, types, clean).0.variables.len() <= usize::MAX,
        lower_function(b, types, clean).0.blocks.len() <= usize::MAX,
    ensures
        ({
            let (c, root) = lower_function(b, types, clean);
            let inputs = c.blocks.last().inputs;
            let n = b.implicits@.len();
            let params = b.signature.params@;
            &&& c.blocks.len() > 0
            &&& root->Ok_0.0 == c.blocks.len() - 1
            &&& inputs.len() == n + params.len()
            &&& inputs.len() <= c.variables.len()
            &&& forall|k: int| 0 <= k < inputs.len() ==> (#[trigger] inputs[k]).0 == k
            &&& forall|k: int|
                0 <= k < n ==> #[trigger] c.variables[k] == variable_of(b, b.implicits@[k])
            &&& forall|k: int|
                0 <= k < params.len() ==> c.variables[n + k] == variable_of(
                    b,
                    (#[trigger] params[k]).ty,
                )
        }),
{
    let c0 = first_state(b, types);
    lemma_first_state(b, types);
    let id = b.function_def.body_expr.0;
    if let Expr::Block(block) = *b.function_def.exprs@[id as int] {
        let tys = root_tys(b);
        let c1 = new_vars(b, c0, tys);
        let s1 = root_scope(b, c0);
        lemma_root_scope(b, c0);
        let step = steps::lower_block(b, c1, s1, earlier(b, id as nat), block, true, 0);
        lemma_earlier_regular(b, id as nat);
        lemma_lower_block(b, c1, s1, earlier(b, id as nat), block, true, 0);
        reveal(steps_on);
        let c = lower_function(b, types, clean).0;
        assert(c.blocks.last().inputs == fresh_vars(c0, tys.len()));
        let n = b.implicits@.len();
        let params = b.signature.params@;
        assert forall|k: int| 0 <= k < n implies #[trigger] c.variables[k] == variable_of(
            b,
            b.implicits@[k],
        ) by {
            assert(c1.variables[k] == variable_of(b, tys[k]));
            assert(step.c.variables[k] == c1.variables[k]);
        }
        assert forall|k: int| 0 <= k < params.len() implies c.variables[n + k] == variable_of(
            b,
            (#[trigger] params[k]).ty,
        ) by {
            assert(tys[n + k] == params[k].ty);
            assert(c1.variables[n + k] == variable_of(b, tys[n + k]));
            assert(step.c.variables[n + k] == c1.variables[n + k]);
        }
    }
}

/// At the start of the body each implicit is in its input, and so is each parameter, where no
/// implicit and no parameter is declared twice.
pub proof fn implicits_and_parameters_start_in_their_inputs(
    b: &LoweringContextBuilder,
    c: CtxModel,
)
    requires
        b.implicits@.no_duplicates(),
        param_vars(b.signature.params@).no_duplicates(),
    ensures
        ({
            let s = root_scope(b, c);
            let n = b.implicits@.len();
            let params = b.signature.params@;
            &&& s.inputs == fresh_vars(c, root_tys(b).len())
            &&& forall|k: int|
                0 <= k < n ==> lookup(s.implicits, #[trigger] b.implicits@[k]) == Some(s.inputs[k])
            &&& forall|k: int|
                0 <= k < params.len() ==> entry_of(s, VarId::Param((#[trigger] params[k]).id))
                    == SemanticVariableEntry::Alive(s.inputs[n + k])
        }),
{
    lemma_root_scope(b, c);
    let start = subscope_of(c, root_merger(), root_tys(b));
    let n = b.implicits@.len();
    let tys = b.implicits@;
    let params = b.signature.params@;
    let ids = param_vars(params);
    let ins = start.inputs.take(n as int);
    let outs = start.inputs.skip(n as int);
    let with_implicits = put_implicits(start, tys, ins, 0);
    let s = root_scope(b, c);
    lemma_variables_put(with_implicits, ids, outs, 0);
    lemma_implicits_put(start, tys, ins, 0);
    assert forall|k: int| 0 <= k < n implies lookup(s.implicits, #[trigger] tys[k]) == Some(
        s.inputs[k],
    ) by {
        assert(ins[k] == start.inputs[k]);
    }
    assert forall|k: int| 0 <= k < params.len() implies entry_of(
        s,
        VarId::Param((#[trigger] params[k]).id),
    ) == SemanticVariableEntry::Alive(s.inputs[n + k]) by {
        assert(ids[k] == VarId::Param(params[k].id));
        assert(outs[k] == start.inputs[n + k]);
    }
}

/// Each of the implicits from the place `i` on gets its variable, and the others keep theirs.
proof fn lemma_implicits_put(s: ScopeModel, tys: Seq<TypeId>, vars: Seq<VariableId>, i: int)
    requires
        0 <= i <= tys.len(),
        tys.no_duplicates(),
    ensures
        forall|k: int|
            i <= k < tys.len() ==> lookup(
                put_implicits(s, tys, vars, i).implicits,
                #[trigger] tys[k],
            ) == Some(vars[k]),
        forall|k: int|
            0 <= k < i ==> lookup(put_implicits(s, tys, vars, i).implicits, #[trigger] tys[k])
                == lookup(s.implicits, tys[k]),
    decreases tys.len() - i,
{
    if i < tys.len() {
        lemma_lookup_assign(s.implicits, tys[i], vars[i]);
        lemma_implicits_put(put_implicit(s, tys[i], vars[i]), tys, vars, i + 1);
    }
}

/// Each of the variables of the source from the place `i` on gets its value, and those before keep
/// theirs, as the implicits do.
proof fn lemma_variables_put(s: ScopeModel, ids: Seq<VarId>, vars: Seq<VariableId>, i: int)
    requires
        0 <= i <= ids.len(),
        ids.no_duplicates(),
    ensures
        put_variables(s, ids, vars, i).implicits == s.implicits,
        forall|k: int|
            i <= k < ids.len() ==> entry_of(put_variables(s, ids, vars, i), #[trigger] ids[k])
                == SemanticVariableEntry::Alive(vars[k]),
        forall|k: int|
            0 <= k < i ==> entry_of(put_variables(s, ids, vars, i), #[trigger] ids[k]) == entry_of(
                s,
                ids[k],
            ),
    decreases ids.len() - i,
{
    if i < ids.len() {
        lemma_lookup_assign(s.vars, ids[i], SemanticVariableEntry::Alive(vars[i]));
        lemma_variables_put(put_semantic_variable(s, ids[i], vars[i]), ids, vars, i + 1);
    }
}

/// A function has a root block only if nothing but unreachable statements was reported.
pub proof fn a_reported_fault_fails_the_function(
    b: &LoweringContextBuilder,
    types: Seq<TypeModel>,
    clean: bool,
    i: int,
)
    requires
        lower_function(b, types, clean).1 is Ok,
        0 <= i < lower_function(b, types, clean).0.diagnostics.len(),
    ensures
        lower_function(b, types, clean).0.diagnostics[i].kind is Unreachable,
{
    lemma_lower_function(b, types, clean);
}

proof fn lemma_root_scope(b: &LoweringContextBuilder, c: CtxModel)
    ensures
        root_scope(b, c).inputs == fresh_vars(c, root_tys(b).len()),
        root_scope(b, c).statements.len() == 0,
{
    let start = subscope_of(c, root_merger(), root_tys(b));
    let n = b.implicits@.len() as int;
    lemma_put_implicits(start, b.implicits@, start.inputs.take(n), 0);
    lemma_put_variables(
        put_implicits(start, b.implicits@, start.inputs.take(n), 0),
        param_vars(b.signature.params@),
        start.inputs.skip(n),
        0,
    );
}

} // verus!

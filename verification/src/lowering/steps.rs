//! The mathematics of the lowering: what each kind of pattern, expression and statement is lowered
//! to.
use crate::collections::{has_key, lookup};
use crate::ids::{
    BlockId, ConcreteEnumId, ExprId, FunctionId, MemberId, SyntaxStablePtrId, TypeId, VarId,
    VariableId, VariantId,
};
use crate::lowering::context::{flow_end, LoweringContextBuilder};
use crate::lowering::model::{
    add_call, add_call_block, add_enum_construct, add_literal, add_match_enum, add_match_extern,
    add_struct_construct, add_struct_destructure, bind_refs, define, done, emptied, ended,
    ensure_semantic_variable, entry_of, finalize_statement, finalized, id_of_type,
    mark_implicit_changed, merger_of, merger_with, new_vars, next_block, put_implicit,
    put_semantic_variable, report, sealed_of, stuck, subscope_of, take_implicit,
    take_semantic_variable, types_of_vars, use_semantic_variable, with_block, with_type,
    CallBlockResultModel, CtxModel, ExternEnumModel, Failure, FinalizedModel, FlowModel, FlowStep,
    LoweredExprModel, MergerModel, ScopeEndModel, ScopeModel, SealedModel, SemanticVariableEntry,
    Step,
};
use crate::lowering::objects::LoweringDiagnosticKind;
use crate::outside::is_zero_bytes;
use crate::semantic::expr::{
    Expr, ExprAssignment, ExprBlock, ExprEnumVariantCtor, ExprFunctionCall, ExprIf, ExprMatch,
    ExprMemberAccess, ExprPropagateError, ExprStructCtor, ExprTuple, MatchArm, Pattern, Statement,
};
use crate::semantic::types::{type_of, ConcreteTypeId, ConcreteVariant, Member, TypeModel};
use vstd::prelude::*;

verus! {

/// A step that ends a scope or fails.
pub type EndStep = Step<Result<ScopeEndModel, Failure>>;

/// The lowering of one block of a statement.
pub struct ArmStep {
    pub c: CtxModel,
    pub m: MergerModel,
    pub r: Result<SealedModel, Failure>,
}

/// The lowering of several blocks of a statement.
pub struct ArmsStep {
    pub c: CtxModel,
    pub m: MergerModel,
    pub r: Result<Seq<SealedModel>, Failure>,
}

// === Lists ===

/// Gives the implicits from the place `i` on their variables.
pub open spec fn put_implicits(
    s: ScopeModel,
    tys: Seq<TypeId>,
    vars: Seq<VariableId>,
    i: int,
) -> ScopeModel
    decreases tys.len() - i,
{
    if i < 0 || i >= tys.len() {
        s
    } else {
        put_implicits(put_implicit(s, tys[i], vars[i]), tys, vars, i + 1)
    }
}

/// Gives the implicits from the place `i` on their variables, and marks them as changed.
pub open spec fn push_implicits(
    s: ScopeModel,
    tys: Seq<TypeId>,
    vars: Seq<VariableId>,
    i: int,
) -> ScopeModel
    decreases tys.len() - i,
{
    if i < 0 || i >= tys.len() {
        s
    } else {
        push_implicits(
            mark_implicit_changed(put_implicit(s, tys[i], vars[i]), tys[i]),
            tys,
            vars,
            i + 1,
        )
    }
}

/// Gives the variables of the source from the place `i` on their values.
pub open spec fn put_variables(
    s: ScopeModel,
    ids: Seq<VarId>,
    vars: Seq<VariableId>,
    i: int,
) -> ScopeModel
    decreases ids.len() - i,
{
    if i < 0 || i >= ids.len() {
        s
    } else {
        put_variables(put_semantic_variable(s, ids[i], vars[i]), ids, vars, i + 1)
    }
}

/// Gives the implicits of the pairs from the place `i` on their variables.
pub open spec fn put_implicit_pairs(
    s: ScopeModel,
    pairs: Seq<(TypeId, VariableId)>,
    i: int,
) -> ScopeModel
    decreases pairs.len() - i,
{
    if i < 0 || i >= pairs.len() {
        s
    } else {
        put_implicit_pairs(put_implicit(s, pairs[i].0, pairs[i].1), pairs, i + 1)
    }
}

/// Gives the variables of the source of the pairs from the place `i` on their values.
pub open spec fn put_variable_pairs(
    s: ScopeModel,
    pairs: Seq<(VarId, VariableId)>,
    i: int,
) -> ScopeModel
    decreases pairs.len() - i,
{
    if i < 0 || i >= pairs.len() {
        s
    } else {
        put_variable_pairs(put_semantic_variable(s, pairs[i].0, pairs[i].1), pairs, i + 1)
    }
}

/// Takes the implicits from the place `i` on, behind those of `taken`. Stops at the first one that
/// is not there.
pub open spec fn take_implicits(
    s: ScopeModel,
    tys: Seq<TypeId>,
    i: int,
    taken: Seq<VariableId>,
) -> (ScopeModel, Option<Seq<VariableId>>)
    decreases tys.len() - i,
{
    if i < 0 || i >= tys.len() {
        (s, Some(taken))
    } else {
        match lookup(s.implicits, tys[i]) {
            Some(var) => take_implicits(take_implicit(s, tys[i]), tys, i + 1, taken.push(var)),
            None => (s, None),
        }
    }
}

/// The types of variables of the source, if all of them are defined.
pub open spec fn defined_tys(c: CtxModel, ids: Seq<VarId>) -> Option<Seq<TypeId>> {
    if forall|i: int| 0 <= i < ids.len() ==> has_key(c.semantic_defs, #[trigger] ids[i]) {
        Some(ids.map_values(|id: VarId| lookup(c.semantic_defs, id)->0))
    } else {
        None
    }
}

/// Pairs of the variants and the blocks.
pub open spec fn zip_arms(variants: Seq<ConcreteVariant>, blocks: Seq<BlockId>) -> Seq<
    (ConcreteVariant, BlockId),
> {
    Seq::new(variants.len(), |i: int| (variants[i], blocks[i]))
}

// === Variables of the source ===

/// Reads a variable of the source. Moves it if necessary.
pub open spec fn use_var(c: CtxModel, s: ScopeModel, id: VarId, ptr: SyntaxStablePtrId) -> FlowStep<
    VariableId,
> {
    match entry_of(s, id) {
        SemanticVariableEntry::Alive(var) => done(c, use_semantic_variable(c, s, id), var),
        SemanticVariableEntry::Moved => ended(
            report(c, ptr, LoweringDiagnosticKind::VariableMoved),
            s,
            FlowModel::Failed(Failure::Diagnosed),
        ),
    }
}

/// Moves a variable of the source.
pub open spec fn take_var(
    c: CtxModel,
    s: ScopeModel,
    id: VarId,
    ptr: SyntaxStablePtrId,
) -> FlowStep<VariableId> {
    match entry_of(s, id) {
        SemanticVariableEntry::Alive(var) => done(c, take_semantic_variable(s, id), var),
        SemanticVariableEntry::Moved => ended(
            report(c, ptr, LoweringDiagnosticKind::VariableMoved),
            s,
            FlowModel::Failed(Failure::Diagnosed),
        ),
    }
}

/// Reads the reference parameters from the place `i` on, behind those of `taken`.
pub open spec fn use_ref_params(
    b: &LoweringContextBuilder,
    c: CtxModel,
    s: ScopeModel,
    i: int,
    taken: Seq<VariableId>,
) -> FlowStep<Seq<VariableId>>
    decreases b.ref_params@.len() - i,
{
    if i < 0 || i >= b.ref_params@.len() {
        done(c, s, taken)
    } else {
        let id = b.ref_params@[i];
        match b.db.variable_ptr_of(id) {
            None => stuck(c, s),
            Some(ptr) => {
                let step = use_var(c, s, id, ptr);
                match step.r {
                    Ok(var) => use_ref_params(b, step.c, step.s, i + 1, taken.push(var)),
                    Err(f) => ended(step.c, step.s, f),
                }
            },
        }
    }
}

/// Moves the arguments that are passed by reference from the place `i` on.
pub open spec fn take_ref_args(
    c: CtxModel,
    s: ScopeModel,
    ids: Seq<VarId>,
    ptr: SyntaxStablePtrId,
    i: int,
    tys: Seq<TypeId>,
    vars: Seq<VariableId>,
) -> FlowStep<(Seq<TypeId>, Seq<VariableId>)>
    decreases ids.len() - i,
{
    if i < 0 || i >= ids.len() {
        done(c, s, (tys, vars))
    } else {
        match lookup(c.semantic_defs, ids[i]) {
            None => stuck(c, s),
            Some(ty) => {
                let step = take_var(c, s, ids[i], ptr);
                match step.r {
                    Ok(var) => take_ref_args(
                        step.c,
                        step.s,
                        ids,
                        ptr,
                        i + 1,
                        tys.push(ty),
                        vars.push(var),
                    ),
                    Err(f) => ended(step.c, step.s, f),
                }
            },
        }
    }
}

// === External functions ===

/// The types that an external function gives in place of a value of the type.
pub open spec fn facade_tys(c: CtxModel, ty: TypeId) -> Seq<TypeId> {
    match type_of(c.types, ty) {
        Some(TypeModel::Tuple(tys)) => tys,
        _ => seq![ty],
    }
}

/// The value of the type that is made of what an external function gives.
pub open spec fn facade_expr(c: CtxModel, ty: TypeId, vars: Seq<VariableId>) -> LoweredExprModel {
    match type_of(c.types, ty) {
        Some(TypeModel::Tuple(_)) => LoweredExprModel::Tuple(
            vars.map_values(|v: VariableId| LoweredExprModel::AtVariable(v)),
        ),
        _ => LoweredExprModel::AtVariable(vars[0]),
    }
}

/// Packs variables into a tuple.
pub open spec fn pack_tuple(
    b: &LoweringContextBuilder,
    c: CtxModel,
    s: ScopeModel,
    vars: Seq<VariableId>,
) -> Step<VariableId> {
    let t = TypeModel::Tuple(types_of_vars(c, vars));
    add_struct_construct(b, with_type(c, t), s, vars, id_of_type(c, t))
}

/// The variable of the value of the type that is made of what an external function gives.
pub open spec fn facade_var(
    b: &LoweringContextBuilder,
    c: CtxModel,
    s: ScopeModel,
    ty: TypeId,
    vars: Seq<VariableId>,
) -> Step<VariableId> {
    match type_of(c.types, ty) {
        Some(TypeModel::Tuple(_)) => pack_tuple(b, c, s, vars),
        _ => Step { c, s, r: vars[0] },
    }
}

/// The types of the inputs of the block for a branch of an external function: the implicits, the
/// references, and what the branch gives.
pub open spec fn extern_arm_tys(c: CtxModel, ty: TypeId, x: ExternEnumModel) -> Option<Seq<TypeId>> {
    match defined_tys(c, x.ref_args) {
        Some(ref_tys) => Some(x.implicits + ref_tys + facade_tys(c, ty)),
        None => None,
    }
}

/// Binds the inputs of the block for a branch of an external function that are implicits and
/// references.
pub open spec fn extern_bind(s: ScopeModel, x: ExternEnumModel, inputs: Seq<VariableId>) -> ScopeModel {
    let n = x.implicits.len() as int;
    let m = n + x.ref_args.len();
    bind_refs(
        put_variables(
            put_implicits(s, x.implicits, inputs.take(n), 0),
            x.ref_args,
            inputs.subrange(n, m),
            0,
        ),
    )
}

/// The inputs of the block for a branch of an external function that are neither implicits nor
/// references.
pub open spec fn extern_rest(x: ExternEnumModel, inputs: Seq<VariableId>) -> Seq<VariableId> {
    inputs.skip((x.implicits.len() + x.ref_args.len()) as int)
}

// === Statements with blocks ===

/// Adds the sealed blocks from the place `i` on to the function, behind the blocks of `ids`.
pub open spec fn finalize_blocks(
    c: CtxModel,
    f: FinalizedModel,
    sealed: Seq<SealedModel>,
    i: int,
    ids: Seq<BlockId>,
) -> (CtxModel, Seq<BlockId>)
    decreases sealed.len() - i,
{
    if i < 0 || i >= sealed.len() {
        (c, ids)
    } else {
        finalize_blocks(with_block(c, f, sealed[i]), f, sealed, i + 1, ids.push(next_block(c)))
    }
}

/// Puts what came out of the blocks of a statement into the scope. Gives the output of the
/// statement, if it has one.
pub open spec fn after_blocks(s: ScopeModel, r: CallBlockResultModel, f: FinalizedModel) -> (
    ScopeModel,
    Result<Option<VariableId>, FlowModel>,
) {
    match r {
        CallBlockResultModel::Callsite { maybe_output, pushes } => {
            let n = f.implicit_pushes.len() as int;
            let s1 = push_implicits(s, f.implicit_pushes, pushes, 0);
            let s2 = put_variables(s1, f.var_pushes, pushes.skip(n), 0);
            let s3 = put_implicit_pairs(s2, f.unchanged, 0);
            let s4 = put_variable_pairs(s3, f.bring_back, 0);
            (finalize_statement(s4), Ok(maybe_output))
        },
        CallBlockResultModel::End => (finalize_statement(s), Err(FlowModel::Unreachable)),
    }
}

/// The value of a statement with blocks.
pub open spec fn output_expr(o: Option<VariableId>) -> LoweredExprModel {
    match o {
        Some(v) => LoweredExprModel::AtVariable(v),
        None => LoweredExprModel::Tuple(Seq::empty()),
    }
}

/// The step after a statement with blocks was added.
pub open spec fn from_block_result(
    step: Step<CallBlockResultModel>,
    f: FinalizedModel,
) -> FlowStep<LoweredExprModel> {
    let (s, r) = after_blocks(step.s, step.r, f);
    Step {
        c: step.c,
        s,
        r: match r {
            Ok(o) => Ok(output_expr(o)),
            Err(flow) => Err(flow),
        },
    }
}

/// Adds a match on an enum whose blocks are all there.
pub open spec fn finish_match_enum(
    b: &LoweringContextBuilder,
    c: CtxModel,
    s: ScopeModel,
    m: MergerModel,
    sealed: Seq<SealedModel>,
    concrete_enum_id: ConcreteEnumId,
    input: VariableId,
    variants: Seq<ConcreteVariant>,
) -> FlowStep<LoweredExprModel> {
    let f = finalized(c, m);
    let (c1, blocks) = finalize_blocks(c, f, sealed, 0, Seq::empty());
    from_block_result(
        add_match_enum(b, c1, s, concrete_enum_id, input, zip_arms(variants, blocks), f.info),
        f,
    )
}

/// Adds a match on an external function whose blocks are all there.
pub open spec fn finish_match_extern(
    b: &LoweringContextBuilder,
    c: CtxModel,
    s: ScopeModel,
    m: MergerModel,
    sealed: Seq<SealedModel>,
    function: FunctionId,
    inputs: Seq<VariableId>,
    variants: Seq<ConcreteVariant>,
) -> FlowStep<LoweredExprModel> {
    let f = finalized(c, m);
    let (c1, blocks) = finalize_blocks(c, f, sealed, 0, Seq::empty());
    from_block_result(
        add_match_extern(b, c1, s, function, inputs, zip_arms(variants, blocks), f.info),
        f,
    )
}

// === Values ===

/// The blocks that store the branches of an external function, from the place `i` on.
pub open spec fn extern_var_arms(
    b: &LoweringContextBuilder,
    c: CtxModel,
    m: MergerModel,
    x: ExternEnumModel,
    variants: Seq<ConcreteVariant>,
    i: int,
    sealed: Seq<SealedModel>,
) -> ArmsStep
    decreases variants.len() - i,
{
    if i < 0 || i >= variants.len() {
        ArmsStep { c, m, r: Ok(sealed) }
    } else {
        match extern_arm_tys(c, variants[i].ty, x) {
            None => ArmsStep { c, m, r: Err(Failure::Stuck) },
            Some(tys) => {
                let sub = subscope_of(c, m, tys);
                let c1 = new_vars(b, c, tys);
                let s1 = extern_bind(sub, x, sub.inputs);
                let value = facade_var(b, c1, s1, variants[i].ty, extern_rest(x, sub.inputs));
                let whole = add_enum_construct(b, value.c, value.s, value.r, variants[i]);
                let end = ScopeEndModel::Callsite(Some(whole.r));
                extern_var_arms(
                    b,
                    whole.c,
                    merger_with(m, whole.s, end),
                    x,
                    variants,
                    i + 1,
                    sealed.push(sealed_of(whole.s, end)),
                )
            },
        }
    }
}

/// Performs a call of an external function and stores its result in a variable.
#[verifier::opaque]
pub open spec fn extern_enum_var(
    b: &LoweringContextBuilder,
    c: CtxModel,
    s: ScopeModel,
    x: ExternEnumModel,
) -> FlowStep<VariableId> {
    match b.db.concrete_enum_variants_of(x.concrete_enum_id) {
        Err(_) => ended(c, s, FlowModel::Failed(Failure::Diagnosed)),
        Ok(variants) => {
            let arms = extern_var_arms(
                b,
                c,
                merger_of(s, x.ref_args),
                x,
                variants,
                0,
                Seq::empty(),
            );
            match arms.r {
                Err(failure) => ended(arms.c, emptied(s), FlowModel::Failed(failure)),
                Ok(sealed) => {
                    let step = finish_match_extern(
                        b,
                        arms.c,
                        emptied(s),
                        arms.m,
                        sealed,
                        x.function,
                        x.inputs,
                        variants,
                    );
                    match step.r {
                        Ok(LoweredExprModel::AtVariable(v)) => done(step.c, step.s, v),
                        Ok(_) => {
                            let packed = pack_tuple(b, step.c, step.s, Seq::empty());
                            done(packed.c, packed.s, packed.r)
                        },
                        Err(f) => ended(step.c, step.s, f),
                    }
                },
            }
        },
    }
}

/// Stores a lowered expression in a variable.
#[verifier::opaque]
pub open spec fn expr_var(
    b: &LoweringContextBuilder,
    c: CtxModel,
    s: ScopeModel,
    e: LoweredExprModel,
) -> FlowStep<VariableId>
    decreases e, 0nat,
{
    match e {
        LoweredExprModel::AtVariable(v) => done(c, s, v),
        LoweredExprModel::Tuple(es) => {
            let step = expr_vars(b, c, s, es, 0, Seq::empty());
            match step.r {
                Ok(vars) => {
                    let packed = pack_tuple(b, step.c, step.s, vars);
                    done(packed.c, packed.s, packed.r)
                },
                Err(f) => ended(step.c, step.s, f),
            }
        },
        LoweredExprModel::ExternEnum(x) => extern_enum_var(b, c, s, x),
    }
}

/// Stores the lowered expressions from the place `i` on in variables, behind those of `vars`.
#[verifier::opaque]
pub open spec fn expr_vars(
    b: &LoweringContextBuilder,
    c: CtxModel,
    s: ScopeModel,
    es: Seq<LoweredExprModel>,
    i: int,
    vars: Seq<VariableId>,
) -> FlowStep<Seq<VariableId>>
    decreases es, es.len() - i,
{
    if i < 0 || i >= es.len() {
        done(c, s, vars)
    } else {
        let step = expr_var(b, c, s, es[i]);
        match step.r {
            Ok(v) => expr_vars(b, step.c, step.s, es, i + 1, vars.push(v)),
            Err(f) => ended(step.c, step.s, f),
        }
    }
}

/// Whether the value is the empty tuple.
pub open spec fn is_unit(e: LoweredExprModel) -> bool {
    match e {
        LoweredExprModel::Tuple(es) => es.len() == 0,
        _ => false,
    }
}

/// The variables that the function returns with the value: the implicits and the reference
/// parameters, and the value itself.
#[verifier::opaque]
pub open spec fn full_return_vars(
    b: &LoweringContextBuilder,
    c: CtxModel,
    s: ScopeModel,
    e: LoweredExprModel,
) -> FlowStep<(Seq<VariableId>, Seq<VariableId>)> {
    let value = if is_unit(e) {
        done(c, s, Seq::empty())
    } else {
        let step = expr_var(b, c, s, e);
        match step.r {
            Ok(v) => done(step.c, step.s, seq![v]),
            Err(f) => ended(step.c, step.s, f),
        }
    };
    match value.r {
        Err(f) => ended(value.c, value.s, f),
        Ok(value_vars) => {
            let (s1, taken) = take_implicits(value.s, b.implicits@, 0, Seq::empty());
            match taken {
                None => ended(value.c, s1, FlowModel::Failed(Failure::Diagnosed)),
                Some(implicit_vars) => {
                    let refs = use_ref_params(b, value.c, s1, 0, Seq::empty());
                    match refs.r {
                        Err(f) => ended(refs.c, refs.s, f),
                        Ok(ref_vars) => done(
                            refs.c,
                            refs.s,
                            (implicit_vars + ref_vars, value_vars),
                        ),
                    }
                },
            }
        },
    }
}

/// The end of a scope that gives the value: of the root block, a return.
#[verifier::opaque]
pub open spec fn expr_end(
    b: &LoweringContextBuilder,
    c: CtxModel,
    s: ScopeModel,
    r: Result<LoweredExprModel, FlowModel>,
    root: bool,
) -> EndStep {
    match r {
        Err(f) => Step { c, s, r: flow_end(f) },
        Ok(e) => if !root && is_unit(e) {
            Step { c, s, r: Ok(ScopeEndModel::Callsite(None)) }
        } else {
            let step = expr_var(b, c, s, e);
            match step.r {
                Err(f) => Step { c: step.c, s: step.s, r: flow_end(f) },
                Ok(v) => if !root {
                    Step { c: step.c, s: step.s, r: Ok(ScopeEndModel::Callsite(Some(v))) }
                } else {
                    let full = full_return_vars(
                        b,
                        step.c,
                        step.s,
                        LoweredExprModel::AtVariable(v),
                    );
                    Step {
                        c: full.c,
                        s: full.s,
                        r: match full.r {
                            Ok((refs, returned)) => Ok(ScopeEndModel::Return { refs, returned }),
                            Err(f) => flow_end(f),
                        },
                    }
                },
            }
        },
    }
}

// === Patterns ===

/// The place of the last field pattern for the member, up to the place `i`; -1 if there is none.
pub open spec fn last_field(fields: Seq<(Member, Pattern)>, member: MemberId, i: int) -> int
    decreases i,
{
    if i <= 0 || i > fields.len() {
        -1
    } else if fields[i - 1].0.id == member {
        i - 1
    } else {
        last_field(fields, member, i - 1)
    }
}

/// Whether the member occurs among the first `i`.
pub open spec fn member_before(members: Seq<Member>, member: MemberId, i: int) -> bool {
    exists|j: int| 0 <= j < i && j < members.len() && (#[trigger] members[j]).id == member
}

/// Binds the variables of a pattern.
#[verifier::opaque]
pub open spec fn lower_pattern(
    b: &LoweringContextBuilder,
    c: CtxModel,
    s: ScopeModel,
    p: Pattern,
    e: LoweredExprModel,
) -> FlowStep<()>
    decreases p, 1nat, 0nat,
{
    match p {
        Pattern::Literal(_) => stuck(c, s),
        Pattern::EnumVariant(_) => stuck(c, s),
        Pattern::Otherwise(_) => done(c, s, ()),
        Pattern::Variable(v) => {
            let step = expr_var(b, c, s, e);
            match step.r {
                Err(f) => ended(step.c, step.s, f),
                Ok(var) => done(
                    define(step.c, VarId::Local(v.var.id), v.var.ty),
                    put_semantic_variable(step.s, VarId::Local(v.var.id), var),
                    (),
                ),
            }
        },
        Pattern::Struct(st) => match b.db.struct_members_of(st.id) {
            Err(_) => ended(c, s, FlowModel::Failed(Failure::Diagnosed)),
            Ok(members) => {
                let step = expr_var(b, c, s, e);
                match step.r {
                    Err(f) => ended(step.c, step.s, f),
                    Ok(input) => {
                        let parts = add_struct_destructure(
                            b,
                            step.c,
                            step.s,
                            input,
                            members.map_values(|m: Member| m.ty),
                        );
                        lower_struct_fields(b, parts.c, parts.s, p, members, parts.r, 0)
                    },
                }
            },
        },
        Pattern::Tuple(t) => match e {
            LoweredExprModel::Tuple(es) => if es.len() == t.field_patterns@.len() {
                lower_tuple_fields(b, c, s, p, es, 0)
            } else {
                stuck(c, s)
            },
            _ => match type_of(c.types, t.ty) {
                Some(TypeModel::Tuple(tys)) => {
                    let step = expr_var(b, c, s, e);
                    match step.r {
                        Err(f) => ended(step.c, step.s, f),
                        Ok(input) => {
                            let parts = add_struct_destructure(b, step.c, step.s, input, tys);
                            if tys.len() == t.field_patterns@.len() {
                                lower_tuple_fields(
                                    b,
                                    parts.c,
                                    parts.s,
                                    p,
                                    parts.r.map_values(
                                        |v: VariableId| LoweredExprModel::AtVariable(v),
                                    ),
                                    0,
                                )
                            } else {
                                stuck(parts.c, parts.s)
                            }
                        },
                    }
                },
                _ => stuck(c, s),
            },
        },
    }
}

/// Binds the variables of the patterns of the members from the place `i` on.
#[verifier::opaque]
pub open spec fn lower_struct_fields(
    b: &LoweringContextBuilder,
    c: CtxModel,
    s: ScopeModel,
    p: Pattern,
    members: Seq<Member>,
    vars: Seq<VariableId>,
    i: int,
) -> FlowStep<()>
    decreases p, 0nat, members.len() - i,
{
    match p {
        Pattern::Struct(st) => if i < 0 || i >= members.len() {
            done(c, s, ())
        } else {
            let k = last_field(
                st.field_patterns@,
                members[i].id,
                st.field_patterns@.len() as int,
            );
            if 0 <= k < st.field_patterns@.len() && !member_before(members, members[i].id, i) {
                let step = lower_pattern(
                    b,
                    c,
                    s,
                    st.field_patterns@[k].1,
                    LoweredExprModel::AtVariable(vars[i]),
                );
                match step.r {
                    Err(f) => ended(step.c, step.s, f),
                    Ok(_) => lower_struct_fields(b, step.c, step.s, p, members, vars, i + 1),
                }
            } else {
                lower_struct_fields(b, c, s, p, members, vars, i + 1)
            }
        },
        _ => stuck(c, s),
    }
}

/// Binds the variables of the patterns of a tuple from the place `i` on.
#[verifier::opaque]
pub open spec fn lower_tuple_fields(
    b: &LoweringContextBuilder,
    c: CtxModel,
    s: ScopeModel,
    p: Pattern,
    es: Seq<LoweredExprModel>,
    i: int,
) -> FlowStep<()>
    decreases p, 0nat, es.len() - i,
{
    match p {
        Pattern::Tuple(t) => if i < 0 || i >= es.len() || i >= t.field_patterns@.len() {
            done(c, s, ())
        } else {
            let step = lower_pattern(b, c, s, t.field_patterns@[i], es[i]);
            match step.r {
                Err(f) => ended(step.c, step.s, f),
                Ok(_) => lower_tuple_fields(b, step.c, step.s, p, es, i + 1),
            }
        },
        _ => stuck(c, s),
    }
}

// === Expressions and statements ===

/// Performs a call of a function.
pub open spec fn perform_call(
    b: &LoweringContextBuilder,
    c: CtxModel,
    s: ScopeModel,
    function: FunctionId,
    inputs: Seq<VariableId>,
    implicit_tys: Seq<TypeId>,
    ref_tys: Seq<TypeId>,
    ret_ty: TypeId,
) -> Step<(Seq<VariableId>, Seq<VariableId>, LoweredExprModel)> {
    if b.db.extern_function_of(function) is None {
        let call = add_call(b, c, s, function, inputs, implicit_tys, ref_tys, seq![ret_ty]);
        Step {
            c: call.c,
            s: call.s,
            r: (
                call.r.implicit_outputs,
                call.r.ref_outputs,
                LoweredExprModel::AtVariable(call.r.returned[0]),
            ),
        }
    } else {
        let call = add_call(
            b,
            c,
            s,
            function,
            inputs,
            implicit_tys,
            ref_tys,
            facade_tys(c, ret_ty),
        );
        Step {
            c: call.c,
            s: call.s,
            r: (
                call.r.implicit_outputs,
                call.r.ref_outputs,
                facade_expr(call.c, ret_ty, call.r.returned),
            ),
        }
    }
}

/// The enum that the type is, if it is one.
pub open spec fn enum_of_type(c: CtxModel, ty: TypeId) -> Option<ConcreteEnumId> {
    match type_of(c.types, ty) {
        Some(TypeModel::Concrete(ConcreteTypeId::Enum(id))) => Some(id),
        _ => None,
    }
}

/// The rest of a function call when its inputs are there.
#[verifier::opaque]
pub open spec fn finish_call(
    b: &LoweringContextBuilder,
    c: CtxModel,
    s: ScopeModel,
    e: ExprFunctionCall,
    inputs: Seq<VariableId>,
    implicit_tys: Seq<TypeId>,
    ref_tys: Seq<TypeId>,
) -> FlowStep<LoweredExprModel> {
    let of_enum = enum_of_type(c, e.ty);
    if e.function == b.db.core.panic_func {
        if inputs.len() != 1 {
            stuck(c, s)
        } else {
            let full = full_return_vars(b, c, s, LoweredExprModel::AtVariable(inputs[0]));
            match full.r {
                Err(f) => ended(full.c, full.s, f),
                Ok((refs, returned)) => ended(
                    full.c,
                    full.s,
                    FlowModel::Panic { refs, data: returned[0] },
                ),
            }
        }
    } else if b.db.extern_function_of(e.function) is Some && of_enum is Some {
        let x = ExternEnumModel {
            function: e.function,
            concrete_enum_id: of_enum->0,
            inputs,
            ref_args: e.ref_args@,
            implicits: implicit_tys,
            stable_ptr: e.stable_ptr,
        };
        if b.db.extern_function_has_refs(b.db.extern_function_of(e.function)->0) {
            let step = extern_enum_var(b, c, s, x);
            match step.r {
                Err(f) => ended(step.c, step.s, f),
                Ok(v) => done(step.c, step.s, LoweredExprModel::AtVariable(v)),
            }
        } else {
            done(c, s, LoweredExprModel::ExternEnum(x))
        }
    } else {
        let call = perform_call(b, c, s, e.function, inputs, implicit_tys, ref_tys, e.ty);
        let s1 = put_implicits(call.s, implicit_tys, call.r.0, 0);
        let s2 = put_variables(s1, e.ref_args@, call.r.1, 0);
        done(call.c, finalize_statement(s2), call.r.2)
    }
}

/// The concrete variants of an enum from the place `i` on, behind those of `found`.
pub open spec fn concrete_variants_from(
    b: &LoweringContextBuilder,
    concrete_enum_id: ConcreteEnumId,
    ids: Seq<VariantId>,
    i: int,
    found: Seq<ConcreteVariant>,
) -> Option<Seq<ConcreteVariant>>
    decreases ids.len() - i,
{
    if i < 0 || i >= ids.len() {
        Some(found)
    } else {
        let enum_id = b.db.concrete_enums@[concrete_enum_id.0 as int].enum_id;
        match b.db.variant_semantic_of(enum_id, ids[i]) {
            Err(_) => None,
            Ok(variant) => match b.db.concrete_enum_variant_of(concrete_enum_id, variant) {
                Err(_) => None,
                Ok(concrete) => concrete_variants_from(
                    b,
                    concrete_enum_id,
                    ids,
                    i + 1,
                    found.push(concrete),
                ),
            },
        }
    }
}

/// The enum that a match is on, and its variants.
#[verifier::opaque]
pub open spec fn matched_enum(
    b: &LoweringContextBuilder,
    c: CtxModel,
    e: ExprMatch,
    ty: TypeId,
) -> (CtxModel, Result<(ConcreteEnumId, Seq<ConcreteVariant>), FlowModel>) {
    let failed = Err(FlowModel::Failed(Failure::Diagnosed));
    match type_of(c.types, ty) {
        Some(TypeModel::Concrete(ConcreteTypeId::Enum(id))) => {
            if id.0 >= b.db.concrete_enums@.len() {
                (c, Err(FlowModel::Failed(Failure::Stuck)))
            } else {
                match b.db.enum_variants_of(b.db.concrete_enums@[id.0 as int].enum_id) {
                    Err(_) => (c, failed),
                    Ok(ids) => match concrete_variants_from(b, id, ids, 0, Seq::empty()) {
                        None => (c, failed),
                        Some(variants) => if e.arms@.len() != variants.len() {
                            (
                                report(
                                    c,
                                    e.stable_ptr,
                                    LoweringDiagnosticKind::UnsupportedMatch,
                                ),
                                failed,
                            )
                        } else {
                            (c, Ok((id, variants)))
                        },
                    },
                }
            }
        },
        _ => (c, failed),
    }
}

/// The last of the pairs for the member, up to the place `i`.
pub open spec fn last_member_expr(
    members: Seq<(MemberId, ExprId)>,
    member: MemberId,
    i: int,
) -> Option<ExprId>
    decreases i,
{
    if i <= 0 || i > members.len() {
        None
    } else if members[i - 1].0 == member {
        Some(members[i - 1].1)
    } else {
        last_member_expr(members, member, i - 1)
    }
}

/// The place of the first member with the identifier, from the place `i` on.
pub open spec fn member_position(members: Seq<Member>, member: MemberId, i: int) -> Option<int>
    decreases members.len() - i,
{
    if i < 0 || i >= members.len() {
        None
    } else if members[i].id == member {
        Some(i)
    } else {
        member_position(members, member, i + 1)
    }
}

/// What becomes of an end of the flow where only a failure can be reported.
pub open spec fn as_failure(f: FlowModel) -> Failure {
    match f {
        FlowModel::Failed(failure) => failure,
        _ => Failure::Diagnosed,
    }
}

/// How expressions are lowered.
pub type Lowering = spec_fn(CtxModel, ScopeModel, ExprId) -> FlowStep<LoweredExprModel>;

/// Lowers the expression with the number `id`.
#[verifier::opaque]
pub open spec fn lower_expr(
    b: &LoweringContextBuilder,
    c: CtxModel,
    s: ScopeModel,
    id: nat,
) -> FlowStep<LoweredExprModel>
    decreases id, 1nat,
{
    if id >= b.function_def.exprs@.len() {
        stuck(c, s)
    } else {
        lower_kind(b, c, s, earlier(b, id), *b.function_def.exprs@[id as int])
    }
}

/// How the expressions before the number `bound` are lowered. There is no lowering of the others.
#[verifier::opaque]
pub open spec fn earlier(b: &LoweringContextBuilder, bound: nat) -> Lowering
    decreases bound, 0nat,
{
    |c: CtxModel, s: ScopeModel, e: ExprId|
        if e.0 < bound {
            lower_expr(b, c, s, e.0 as nat)
        } else {
            stuck(c, s)
        }
}

/// Lowers an expression when it is known how those inside it are lowered.
#[verifier::opaque]
pub open spec fn lower_kind(
    b: &LoweringContextBuilder,
    c: CtxModel,
    s: ScopeModel,
    l: Lowering,
    expr: Expr,
) -> FlowStep<LoweredExprModel> {
    match expr {
        Expr::Tuple(e) => lower_expr_tuple(c, s, l, e),
        Expr::Assignment(e) => lower_expr_assignment(b, c, s, l, e),
        Expr::Block(e) => lower_expr_block(b, c, s, l, e),
        Expr::FunctionCall(e) => lower_expr_function_call(b, c, s, l, e),
        Expr::Match(e) => lower_expr_match(b, c, s, l, e),
        Expr::If(e) => lower_expr_if(b, c, s, l, e),
        Expr::Var(e) => {
            let step = use_var(c, s, e.var, e.stable_ptr);
            match step.r {
                Err(f) => ended(step.c, step.s, f),
                Ok(v) => done(step.c, step.s, LoweredExprModel::AtVariable(v)),
            }
        },
        Expr::Literal(e) => {
            let step = add_literal(b, c, s, e.value@, e.ty);
            done(step.c, step.s, LoweredExprModel::AtVariable(step.r))
        },
        Expr::MemberAccess(e) => lower_expr_member_access(b, c, s, l, e),
        Expr::StructCtor(e) => lower_expr_struct_ctor(b, c, s, l, e),
        Expr::EnumVariantCtor(e) => lower_expr_enum_ctor(b, c, s, l, e),
        Expr::PropagateError(e) => lower_expr_error_propagate(b, c, s, l, e),
        Expr::Missing(_) => ended(c, s, FlowModel::Failed(Failure::Diagnosed)),
    }
}

/// Lowers a tuple.
#[verifier::opaque]
pub open spec fn lower_expr_tuple(
    c: CtxModel,
    s: ScopeModel,
    l: Lowering,
    e: ExprTuple,
) -> FlowStep<LoweredExprModel> {
    let step = lower_exprs(c, s, l, e.items@, 0, Seq::empty());
    match step.r {
        Err(f) => ended(step.c, step.s, f),
        Ok(items) => done(step.c, step.s, LoweredExprModel::Tuple(items)),
    }
}

/// Lowers an assignment.
#[verifier::opaque]
pub open spec fn lower_expr_assignment(
    b: &LoweringContextBuilder,
    c: CtxModel,
    s: ScopeModel,
    l: Lowering,
    e: ExprAssignment,
) -> FlowStep<LoweredExprModel> {
    let step = lower_expr_var(b, c, ensure_semantic_variable(s, e.var), l, e.rhs);
    match step.r {
        Err(f) => ended(step.c, step.s, f),
        Ok(v) => done(
            step.c,
            put_semantic_variable(step.s, e.var, v),
            LoweredExprModel::Tuple(Seq::empty()),
        ),
    }
}

/// Lowers a condition.
#[verifier::opaque]
pub open spec fn lower_expr_if(
    b: &LoweringContextBuilder,
    c: CtxModel,
    s: ScopeModel,
    l: Lowering,
    e: ExprIf,
) -> FlowStep<LoweredExprModel> {
    let cond = lower_expr_var(b, c, s, l, e.condition);
    match cond.r {
        Err(f) => ended(cond.c, cond.s, f),
        Ok(v) => lower_branches(
            b,
            cond.c,
            cond.s,
            l,
            (seq![b.db.core.unit_ty], e.if_block),
            (seq![b.db.core.unit_ty], e.else_block),
            BranchKind::If { input: v },
        ),
    }
}

/// Lowers the reading of a member of a struct.
#[verifier::opaque]
pub open spec fn lower_expr_member_access(
    b: &LoweringContextBuilder,
    c: CtxModel,
    s: ScopeModel,
    l: Lowering,
    e: ExprMemberAccess,
) -> FlowStep<LoweredExprModel> {
    match b.db.struct_members_of(e.struct_id) {
        Err(_) => ended(c, s, FlowModel::Failed(Failure::Diagnosed)),
        Ok(members) => match member_position(members, e.member, 0) {
            None => ended(c, s, FlowModel::Failed(Failure::Diagnosed)),
            Some(k) => {
                let step = lower_expr_var(b, c, s, l, e.expr);
                match step.r {
                    Err(f) => ended(step.c, step.s, f),
                    Ok(v) => {
                        let parts = add_struct_destructure(
                            b,
                            step.c,
                            step.s,
                            v,
                            members.map_values(|m: Member| m.ty),
                        );
                        done(parts.c, parts.s, LoweredExprModel::AtVariable(parts.r[k]))
                    },
                }
            },
        },
    }
}

/// Lowers the making of a struct.
#[verifier::opaque]
pub open spec fn lower_expr_struct_ctor(
    b: &LoweringContextBuilder,
    c: CtxModel,
    s: ScopeModel,
    l: Lowering,
    e: ExprStructCtor,
) -> FlowStep<LoweredExprModel> {
    match b.db.struct_members_of(e.struct_id) {
        Err(_) => ended(c, s, FlowModel::Failed(Failure::Diagnosed)),
        Ok(members) => {
            let step = lower_members(b, c, s, l, members, e.members@, 0, Seq::empty());
            match step.r {
                Err(f) => ended(step.c, step.s, f),
                Ok(inputs) => {
                    let whole = add_struct_construct(b, step.c, step.s, inputs, e.ty);
                    done(whole.c, whole.s, LoweredExprModel::AtVariable(whole.r))
                },
            }
        },
    }
}

/// Lowers the making of a value of an enum.
#[verifier::opaque]
pub open spec fn lower_expr_enum_ctor(
    b: &LoweringContextBuilder,
    c: CtxModel,
    s: ScopeModel,
    l: Lowering,
    e: ExprEnumVariantCtor,
) -> FlowStep<LoweredExprModel> {
    let step = lower_expr_var(b, c, s, l, e.value_expr);
    match step.r {
        Err(f) => ended(step.c, step.s, f),
        Ok(v) => {
            let whole = add_enum_construct(b, step.c, step.s, v, e.variant);
            done(whole.c, whole.s, LoweredExprModel::AtVariable(whole.r))
        },
    }
}

/// Lowers an error propagation.
#[verifier::opaque]
pub open spec fn lower_expr_error_propagate(
    b: &LoweringContextBuilder,
    c: CtxModel,
    s: ScopeModel,
    l: Lowering,
    e: ExprPropagateError,
) -> FlowStep<LoweredExprModel> {
    let step = l(c, s, e.inner);
    match step.r {
        Err(f) => ended(step.c, step.s, f),
        Ok(inner) => error_propagate(
            b,
            step.c,
            step.s,
            inner,
            e.ok_variant,
            e.err_variant,
            e.func_err_variant,
        ),
    }
}

/// Lowers an expression and stores it in a variable.
#[verifier::opaque]
pub open spec fn lower_expr_var(
    b: &LoweringContextBuilder,
    c: CtxModel,
    s: ScopeModel,
    l: Lowering,
    e: ExprId,
) -> FlowStep<VariableId> {
    let step = l(c, s, e);
    match step.r {
        Err(f) => ended(step.c, step.s, f),
        Ok(le) => expr_var(b, step.c, step.s, le),
    }
}

/// Lowers the expressions from the place `i` on, behind those of `lowered`.
#[verifier::opaque]
pub open spec fn lower_exprs(
    c: CtxModel,
    s: ScopeModel,
    l: Lowering,
    ids: Seq<ExprId>,
    i: int,
    lowered: Seq<LoweredExprModel>,
) -> FlowStep<Seq<LoweredExprModel>>
    decreases ids.len() - i,
{
    if i < 0 || i >= ids.len() {
        done(c, s, lowered)
    } else {
        let step = l(c, s, ids[i]);
        match step.r {
            Err(f) => ended(step.c, step.s, f),
            Ok(e) => lower_exprs(step.c, step.s, l, ids, i + 1, lowered.push(e)),
        }
    }
}

/// Lowers the expressions from the place `i` on, and stores each in a variable.
#[verifier::opaque]
pub open spec fn lower_exprs_as_vars(
    b: &LoweringContextBuilder,
    c: CtxModel,
    s: ScopeModel,
    l: Lowering,
    ids: Seq<ExprId>,
    i: int,
    vars: Seq<VariableId>,
) -> FlowStep<Seq<VariableId>>
    decreases ids.len() - i,
{
    if i < 0 || i >= ids.len() {
        done(c, s, vars)
    } else {
        let step = lower_expr_var(b, c, s, l, ids[i]);
        match step.r {
            Err(f) => ended(step.c, step.s, f),
            Ok(v) => lower_exprs_as_vars(b, step.c, step.s, l, ids, i + 1, vars.push(v)),
        }
    }
}

/// Lowers the values of the members of a struct, from the place `i` on.
#[verifier::opaque]
pub open spec fn lower_members(
    b: &LoweringContextBuilder,
    c: CtxModel,
    s: ScopeModel,
    l: Lowering,
    members: Seq<Member>,
    values: Seq<(MemberId, ExprId)>,
    i: int,
    vars: Seq<VariableId>,
) -> FlowStep<Seq<VariableId>>
    decreases members.len() - i,
{
    if i < 0 || i >= members.len() {
        done(c, s, vars)
    } else {
        match last_member_expr(values, members[i].id, values.len() as int) {
            None => stuck(c, s),
            Some(e) => {
                let step = lower_expr_var(b, c, s, l, e);
                match step.r {
                    Err(f) => ended(step.c, step.s, f),
                    Ok(v) => lower_members(
                        b,
                        step.c,
                        step.s,
                        l,
                        members,
                        values,
                        i + 1,
                        vars.push(v),
                    ),
                }
            },
        }
    }
}

/// Lowers a statement.
#[verifier::opaque]
pub open spec fn lower_statement(
    b: &LoweringContextBuilder,
    c: CtxModel,
    s: ScopeModel,
    l: Lowering,
    stmt: Statement,
) -> FlowStep<()> {
    let expr = match stmt {
        Statement::Expr(st) => st.expr,
        Statement::Let(st) => st.expr,
        Statement::Return(st) => st.expr,
    };
    let step = l(c, s, expr);
    match step.r {
        Err(f) => ended(step.c, step.s, f),
        Ok(e) => match stmt {
            Statement::Expr(_) => match e {
                LoweredExprModel::ExternEnum(x) => {
                    let value = extern_enum_var(b, step.c, step.s, x);
                    match value.r {
                        Err(f) => ended(value.c, value.s, f),
                        Ok(_) => done(value.c, value.s, ()),
                    }
                },
                _ => done(step.c, step.s, ()),
            },
            Statement::Let(st) => lower_pattern(b, step.c, step.s, st.pattern, e),
            Statement::Return(_) => {
                let full = full_return_vars(b, step.c, step.s, e);
                match full.r {
                    Err(f) => ended(full.c, full.s, f),
                    Ok((refs, returned)) => ended(
                        full.c,
                        full.s,
                        FlowModel::Return { refs, returned },
                    ),
                }
            },
        },
    }
}

/// Lowers the statements of a block from the place `i` on, and its tail.
#[verifier::opaque]
pub open spec fn lower_block(
    b: &LoweringContextBuilder,
    c: CtxModel,
    s: ScopeModel,
    l: Lowering,
    e: ExprBlock,
    root: bool,
    i: int,
) -> EndStep
    decreases e.statements@.len() - i,
{
    let ids = e.statements@;
    let statements = b.function_def.statements@;
    if i < 0 || i >= ids.len() {
        if e.tail is None && !root {
            Step { c, s, r: Ok(ScopeEndModel::Callsite(None)) }
        } else {
            lower_tail_expr(b, c, s, l, e.tail, root)
        }
    } else if ids[i].0 >= statements.len() {
        Step { c, s, r: Err(Failure::Stuck) }
    } else {
        let step = lower_statement(b, c, s, l, statements[ids[i].0 as int]);
        match step.r {
            Ok(_) => lower_block(b, step.c, step.s, l, e, root, i + 1),
            Err(f) => match flow_end(f) {
                Err(failure) => Step { c: step.c, s: step.s, r: Err(failure) },
                Ok(end) => if i + 1 < ids.len() {
                    if ids[i + 1].0 >= statements.len() || ids.last().0 >= statements.len() {
                        Step { c: step.c, s: step.s, r: Err(Failure::Stuck) }
                    } else {
                        Step {
                            c: report(
                                step.c,
                                statements[ids[i + 1].0 as int].ptr_of(),
                                LoweringDiagnosticKind::Unreachable {
                                    last_statement_ptr: statements[ids.last().0 as int].ptr_of(),
                                },
                            ),
                            s: step.s,
                            r: Ok(end),
                        }
                    }
                } else {
                    Step { c: step.c, s: step.s, r: Ok(end) }
                },
            },
        }
    }
}

/// Lowers the expression that a block ends with.
#[verifier::opaque]
pub open spec fn lower_tail_expr(
    b: &LoweringContextBuilder,
    c: CtxModel,
    s: ScopeModel,
    l: Lowering,
    tail: Option<ExprId>,
    root: bool,
) -> EndStep {
    match tail {
        None => expr_end(b, c, s, Ok(LoweredExprModel::Tuple(Seq::empty())), root),
        Some(e) => {
            let step = l(c, s, e);
            expr_end(b, step.c, step.s, step.r, root)
        },
    }
}

/// Lowers an expression that is a block.
#[verifier::opaque]
pub open spec fn lower_expr_block(
    b: &LoweringContextBuilder,
    c: CtxModel,
    s: ScopeModel,
    l: Lowering,
    e: ExprBlock,
) -> FlowStep<LoweredExprModel> {
    let m = merger_of(s, Seq::empty());
    let sub = bind_refs(subscope_of(c, m, Seq::empty()));
    let step = lower_block(b, new_vars(b, c, Seq::empty()), sub, l, e, false, 0);
    match step.r {
        Err(failure) => ended(step.c, emptied(s), FlowModel::Failed(failure)),
        Ok(end) => {
            let f = finalized(step.c, merger_with(m, step.s, end));
            from_block_result(
                add_call_block(
                    b,
                    with_block(step.c, f, sealed_of(step.s, end)),
                    emptied(s),
                    next_block(step.c),
                    f.info,
                ),
                f,
            )
        },
    }
}

/// Lowers a function call.
#[verifier::opaque]
pub open spec fn lower_expr_function_call(
    b: &LoweringContextBuilder,
    c: CtxModel,
    s: ScopeModel,
    l: Lowering,
    e: ExprFunctionCall,
) -> FlowStep<LoweredExprModel> {
    let args = lower_exprs_as_vars(b, c, s, l, e.args@, 0, Seq::empty());
    match args.r {
        Err(f) => ended(args.c, args.s, f),
        Ok(arg_inputs) => {
            let refs = take_ref_args(
                args.c,
                args.s,
                e.ref_args@,
                e.stable_ptr,
                0,
                Seq::empty(),
                Seq::empty(),
            );
            match refs.r {
                Err(f) => ended(refs.c, refs.s, f),
                Ok((ref_tys, ref_inputs)) => match b.db.function_all_implicits_of(e.function) {
                    Err(_) => ended(refs.c, refs.s, FlowModel::Failed(Failure::Diagnosed)),
                    Ok(implicit_tys) => {
                        let (s1, taken) = take_implicits(refs.s, implicit_tys, 0, Seq::empty());
                        match taken {
                            None => ended(refs.c, s1, FlowModel::Failed(Failure::Diagnosed)),
                            Some(implicits) => finish_call(
                                b,
                                refs.c,
                                s1,
                                e,
                                implicits + ref_inputs + arg_inputs,
                                implicit_tys,
                                ref_tys,
                            ),
                        }
                    },
                },
            }
        },
    }
}

/// Lowers the body of the block of a match arm.
#[verifier::opaque]
pub open spec fn arm_body(
    b: &LoweringContextBuilder,
    c: CtxModel,
    s: ScopeModel,
    l: Lowering,
    inner: Pattern,
    value: LoweredExprModel,
    expression: ExprId,
) -> EndStep {
    let step = lower_pattern(b, c, s, inner, value);
    match step.r {
        Err(f) => Step { c: step.c, s: step.s, r: flow_end(f) },
        Ok(_) => lower_tail_expr(b, step.c, step.s, l, Some(expression), false),
    }
}

/// Lowers the block of an arm of a match on an enum.
#[verifier::opaque]
pub open spec fn lower_enum_arm(
    b: &LoweringContextBuilder,
    c: CtxModel,
    m: MergerModel,
    l: Lowering,
    variant: ConcreteVariant,
    arm: MatchArm,
    ptr: SyntaxStablePtrId,
) -> ArmStep {
    let tys = seq![variant.ty];
    let c1 = new_vars(b, c, tys);
    let sub = bind_refs(subscope_of(c, m, tys));
    match arm.pattern {
        Pattern::EnumVariant(p) if p.variant == variant => {
            let step = arm_body(
                b,
                c1,
                sub,
                l,
                *p.inner_pattern,
                LoweredExprModel::AtVariable(sub.inputs[0]),
                arm.expression,
            );
            match step.r {
                Err(failure) => ArmStep { c: step.c, m, r: Err(failure) },
                Ok(end) => ArmStep {
                    c: step.c,
                    m: merger_with(m, step.s, end),
                    r: Ok(sealed_of(step.s, end)),
                },
            }
        },
        _ => ArmStep {
            c: report(c1, ptr, LoweringDiagnosticKind::UnsupportedMatchArm),
            m,
            r: Err(Failure::Diagnosed),
        },
    }
}

/// Lowers the blocks of the arms of a match on an enum from the place `i` on.
#[verifier::opaque]
pub open spec fn lower_enum_arms(
    b: &LoweringContextBuilder,
    c: CtxModel,
    m: MergerModel,
    l: Lowering,
    variants: Seq<ConcreteVariant>,
    arms: Seq<MatchArm>,
    ptr: SyntaxStablePtrId,
    i: int,
    sealed: Seq<SealedModel>,
) -> ArmsStep
    decreases variants.len() - i,
{
    if i < 0 || i >= variants.len() {
        ArmsStep { c, m, r: Ok(sealed) }
    } else {
        let step = lower_enum_arm(b, c, m, l, variants[i], arms[i], ptr);
        match step.r {
            Err(failure) => ArmsStep { c: step.c, m: step.m, r: Err(failure) },
            Ok(block) => lower_enum_arms(
                b,
                step.c,
                step.m,
                l,
                variants,
                arms,
                ptr,
                i + 1,
                sealed.push(block),
            ),
        }
    }
}

/// Lowers the block of an arm of a match on an external function.
#[verifier::opaque]
pub open spec fn lower_extern_arm(
    b: &LoweringContextBuilder,
    c: CtxModel,
    m: MergerModel,
    l: Lowering,
    x: ExternEnumModel,
    variant: ConcreteVariant,
    arm: MatchArm,
) -> ArmStep {
    match extern_arm_tys(c, variant.ty, x) {
        None => ArmStep { c, m, r: Err(Failure::Stuck) },
        Some(tys) => {
            let c1 = new_vars(b, c, tys);
            let sub = subscope_of(c, m, tys);
            match arm.pattern {
                Pattern::EnumVariant(p) if p.variant == variant => {
                    let step = arm_body(
                        b,
                        c1,
                        extern_bind(sub, x, sub.inputs),
                        l,
                        *p.inner_pattern,
                        facade_expr(c1, variant.ty, extern_rest(x, sub.inputs)),
                        arm.expression,
                    );
                    match step.r {
                        Err(failure) => ArmStep { c: step.c, m, r: Err(failure) },
                        Ok(end) => ArmStep {
                            c: step.c,
                            m: merger_with(m, step.s, end),
                            r: Ok(sealed_of(step.s, end)),
                        },
                    }
                },
                _ => ArmStep {
                    c: report(c1, x.stable_ptr, LoweringDiagnosticKind::UnsupportedMatchArm),
                    m,
                    r: Err(Failure::Diagnosed),
                },
            }
        },
    }
}

/// Lowers the blocks of the arms of a match on an external function from the place `i` on.
#[verifier::opaque]
pub open spec fn lower_extern_arms(
    b: &LoweringContextBuilder,
    c: CtxModel,
    m: MergerModel,
    l: Lowering,
    x: ExternEnumModel,
    variants: Seq<ConcreteVariant>,
    arms: Seq<MatchArm>,
    i: int,
    sealed: Seq<SealedModel>,
) -> ArmsStep
    decreases variants.len() - i,
{
    if i < 0 || i >= variants.len() {
        ArmsStep { c, m, r: Ok(sealed) }
    } else {
        let step = lower_extern_arm(b, c, m, l, x, variants[i], arms[i]);
        match step.r {
            Err(failure) => ArmsStep { c: step.c, m: step.m, r: Err(failure) },
            Ok(block) => lower_extern_arms(
                b,
                step.c,
                step.m,
                l,
                x,
                variants,
                arms,
                i + 1,
                sealed.push(block),
            ),
        }
    }
}

/// Lowers a match on the result of a call of an external function that was not performed yet.
#[verifier::opaque]
pub open spec fn optimized_extern_match(
    b: &LoweringContextBuilder,
    c: CtxModel,
    s: ScopeModel,
    l: Lowering,
    x: ExternEnumModel,
    arms: Seq<MatchArm>,
) -> FlowStep<LoweredExprModel> {
    match b.db.concrete_enum_variants_of(x.concrete_enum_id) {
        Err(_) => ended(c, s, FlowModel::Failed(Failure::Diagnosed)),
        Ok(variants) => if arms.len() != variants.len() {
            ended(c, s, FlowModel::Failed(Failure::Diagnosed))
        } else {
            let step = lower_extern_arms(
                b,
                c,
                merger_of(s, x.ref_args),
                l,
                x,
                variants,
                arms,
                0,
                Seq::empty(),
            );
            match step.r {
                Err(failure) => ended(step.c, emptied(s), FlowModel::Failed(failure)),
                Ok(sealed) => finish_match_extern(
                    b,
                    step.c,
                    emptied(s),
                    step.m,
                    sealed,
                    x.function,
                    x.inputs,
                    variants,
                ),
            }
        },
    }
}

/// Lowers a block that is one expression.
#[verifier::opaque]
pub open spec fn lower_branch(
    b: &LoweringContextBuilder,
    c: CtxModel,
    m: MergerModel,
    l: Lowering,
    tys: Seq<TypeId>,
    e: ExprId,
) -> ArmStep {
    let step = lower_tail_expr(
        b,
        new_vars(b, c, tys),
        bind_refs(subscope_of(c, m, tys)),
        l,
        Some(e),
        false,
    );
    match step.r {
        Err(failure) => ArmStep { c: step.c, m, r: Err(failure) },
        Ok(end) => ArmStep {
            c: step.c,
            m: merger_with(m, step.s, end),
            r: Ok(sealed_of(step.s, end)),
        },
    }
}

/// The statement that two branches belong to.
#[derive(Clone, Copy, Debug)]
pub enum BranchKind {
    /// A match of a felt with zero: the first branch is for zero.
    FeltZero { input: VariableId },
    /// A condition: the first branch is for true.
    If { input: VariableId },
}

impl BranchKind {
    /// The variable that decides between the branches.
    pub open spec fn input_of(self) -> VariableId {
        match self {
            BranchKind::FeltZero { input } => input,
            BranchKind::If { input } => input,
        }
    }
}

/// Lowers a statement with two branches. The second is lowered even if the first fails.
#[verifier::opaque]
pub open spec fn lower_branches(
    b: &LoweringContextBuilder,
    c: CtxModel,
    s: ScopeModel,
    l: Lowering,
    first: (Seq<TypeId>, ExprId),
    second: (Seq<TypeId>, ExprId),
    kind: BranchKind,
) -> FlowStep<LoweredExprModel> {
    let s1 = emptied(s);
    let one = lower_branch(b, c, merger_of(s, Seq::empty()), l, first.0, first.1);
    let two = lower_branch(b, one.c, one.m, l, second.0, second.1);
    let f = finalized(two.c, two.m);
    if one.r == Err::<SealedModel, Failure>(Failure::Stuck) {
        stuck(two.c, s1)
    } else if two.r == Err::<SealedModel, Failure>(Failure::Stuck) {
        stuck(two.c, s1)
    } else {
        match (one.r, two.r) {
            (Err(failure), _) => ended(two.c, s1, FlowModel::Failed(failure)),
            (Ok(x), Err(failure)) => ended(
                with_block(two.c, f, x),
                s1,
                FlowModel::Failed(failure),
            ),
            (Ok(x), Ok(y)) => {
                let c1 = with_block(two.c, f, x);
                let c2 = with_block(c1, f, y);
                let step = match kind {
                    BranchKind::FeltZero { input } => add_match_extern(
                        b,
                        c2,
                        s1,
                        b.db.core.jump_nz_func,
                        seq![input],
                        seq![
                            (b.db.core.jump_nz_zero_variant, next_block(two.c)),
                            (b.db.core.jump_nz_nonzero_variant, next_block(c1)),
                        ],
                        f.info,
                    ),
                    BranchKind::If { input } => add_match_enum(
                        b,
                        c2,
                        s1,
                        b.db.core.bool_enum,
                        input,
                        seq![
                            (b.db.core.false_variant, next_block(c1)),
                            (b.db.core.true_variant, next_block(two.c)),
                        ],
                        f.info,
                    ),
                };
                from_block_result(step, f)
            },
        }
    }
}

/// Lowers a match on a felt: only a match with zero has a lowering.
#[verifier::opaque]
pub open spec fn lower_match_felt(
    b: &LoweringContextBuilder,
    c: CtxModel,
    s: ScopeModel,
    l: Lowering,
    e: ExprMatch,
    v: VariableId,
) -> FlowStep<LoweredExprModel> {
    let arms = e.arms@;
    if arms.len() == 2 && arms[0].pattern is Literal && arms[1].pattern is Otherwise {
        let literal = arms[0].pattern->Literal_0.literal;
        if !is_zero_bytes(literal.value@) {
            ended(
                report(c, literal.stable_ptr, LoweringDiagnosticKind::NonZeroValueInMatch),
                s,
                FlowModel::Failed(Failure::Diagnosed),
            )
        } else {
            lower_branches(
                b,
                c,
                s,
                l,
                (Seq::empty(), arms[0].expression),
                (seq![b.db.core.nonzero_felt_ty], arms[1].expression),
                BranchKind::FeltZero { input: v },
            )
        }
    } else {
        ended(
            report(c, e.stable_ptr, LoweringDiagnosticKind::OnlyMatchZeroIsSupported),
            s,
            FlowModel::Failed(Failure::Diagnosed),
        )
    }
}

/// Lowers a match.
#[verifier::opaque]
pub open spec fn lower_expr_match(
    b: &LoweringContextBuilder,
    c: CtxModel,
    s: ScopeModel,
    l: Lowering,
    e: ExprMatch,
) -> FlowStep<LoweredExprModel> {
    if e.matched_expr.0 >= b.function_def.exprs@.len() {
        stuck(c, s)
    } else {
        let ty = b.function_def.exprs@[e.matched_expr.0 as int].ty_of();
        let step = l(c, s, e.matched_expr);
        match step.r {
            Err(f) => ended(step.c, step.s, f),
            Ok(matched) => if ty == b.db.core.felt_ty {
                let value = expr_var(b, step.c, step.s, matched);
                match value.r {
                    Err(f) => ended(value.c, value.s, f),
                    Ok(v) => lower_match_felt(b, value.c, value.s, l, e, v),
                }
            } else {
                match matched {
                    LoweredExprModel::ExternEnum(x) => optimized_extern_match(
                        b,
                        step.c,
                        step.s,
                        l,
                        x,
                        e.arms@,
                    ),
                    _ => {
                        let (c1, found) = matched_enum(b, step.c, e, ty);
                        match found {
                            Err(f) => ended(c1, step.s, f),
                            Ok((enum_id, variants)) => {
                                let value = expr_var(b, c1, step.s, matched);
                                match value.r {
                                    Err(f) => ended(value.c, value.s, f),
                                    Ok(v) => {
                                        let arms = lower_enum_arms(
                                            b,
                                            value.c,
                                            merger_of(value.s, Seq::empty()),
                                            l,
                                            variants,
                                            e.arms@,
                                            e.stable_ptr,
                                            0,
                                            Seq::empty(),
                                        );
                                        match arms.r {
                                            Err(failure) => ended(
                                                arms.c,
                                                emptied(value.s),
                                                FlowModel::Failed(failure),
                                            ),
                                            Ok(sealed) => finish_match_enum(
                                                b,
                                                arms.c,
                                                emptied(value.s),
                                                arms.m,
                                                sealed,
                                                enum_id,
                                                v,
                                                variants,
                                            ),
                                        }
                                    },
                                }
                            },
                        }
                    },
                }
            },
        }
    }
}

// === Error propagation ===

/// The block that carries the value on.
pub open spec fn ok_arm(
    b: &LoweringContextBuilder,
    c: CtxModel,
    m: MergerModel,
    variant: ConcreteVariant,
) -> ArmStep {
    let tys = seq![variant.ty];
    let sub = bind_refs(subscope_of(c, m, tys));
    let end = ScopeEndModel::Callsite(Some(sub.inputs[0]));
    ArmStep { c: new_vars(b, c, tys), m: merger_with(m, sub, end), r: Ok(sealed_of(sub, end)) }
}

/// The end of a block that leaves the function with the error in `input`.
pub open spec fn leave_with(
    b: &LoweringContextBuilder,
    c: CtxModel,
    s: ScopeModel,
    m: MergerModel,
    input: VariableId,
    func_err_variant: ConcreteVariant,
) -> ArmStep {
    let value = add_enum_construct(b, c, s, input, func_err_variant);
    let full = full_return_vars(b, value.c, value.s, LoweredExprModel::AtVariable(value.r));
    match full.r {
        Err(f) => ArmStep { c: full.c, m, r: Err(as_failure(f)) },
        Ok((refs, returned)) => {
            let end = ScopeEndModel::Return { refs, returned };
            ArmStep {
                c: full.c,
                m: merger_with(m, full.s, end),
                r: Ok(sealed_of(full.s, end)),
            }
        },
    }
}

/// The block that leaves the function.
pub open spec fn err_arm(
    b: &LoweringContextBuilder,
    c: CtxModel,
    m: MergerModel,
    variant: ConcreteVariant,
    func_err_variant: ConcreteVariant,
) -> ArmStep {
    let tys = seq![variant.ty];
    let sub = bind_refs(subscope_of(c, m, tys));
    leave_with(b, new_vars(b, c, tys), sub, m, sub.inputs[0], func_err_variant)
}

/// The block that carries the value of an external function on.
pub open spec fn extern_ok_arm(
    b: &LoweringContextBuilder,
    c: CtxModel,
    m: MergerModel,
    x: ExternEnumModel,
    variant: ConcreteVariant,
) -> ArmStep {
    match extern_arm_tys(c, variant.ty, x) {
        None => ArmStep { c, m, r: Err(Failure::Stuck) },
        Some(tys) => {
            let sub = subscope_of(c, m, tys);
            let c1 = new_vars(b, c, tys);
            let step = expr_var(
                b,
                c1,
                extern_bind(sub, x, sub.inputs),
                facade_expr(c1, variant.ty, extern_rest(x, sub.inputs)),
            );
            match step.r {
                Err(f) => ArmStep { c: step.c, m, r: Err(as_failure(f)) },
                Ok(v) => {
                    let end = ScopeEndModel::Callsite(Some(v));
                    ArmStep {
                        c: step.c,
                        m: merger_with(m, step.s, end),
                        r: Ok(sealed_of(step.s, end)),
                    }
                },
            }
        },
    }
}

/// The block that leaves the function with the error of an external function.
pub open spec fn extern_err_arm(
    b: &LoweringContextBuilder,
    c: CtxModel,
    m: MergerModel,
    x: ExternEnumModel,
    variant: ConcreteVariant,
    func_err_variant: ConcreteVariant,
) -> ArmStep {
    match extern_arm_tys(c, variant.ty, x) {
        None => ArmStep { c, m, r: Err(Failure::Stuck) },
        Some(tys) => {
            let sub = subscope_of(c, m, tys);
            let c1 = new_vars(b, c, tys);
            let step = expr_var(
                b,
                c1,
                extern_bind(sub, x, sub.inputs),
                facade_expr(c1, variant.ty, extern_rest(x, sub.inputs)),
            );
            match step.r {
                Err(f) => ArmStep { c: step.c, m, r: Err(as_failure(f)) },
                Ok(v) => leave_with(b, step.c, step.s, m, v, func_err_variant),
            }
        },
    }
}

/// Lowers an error propagation: a match whose second block leaves the function.
#[verifier::opaque]
pub open spec fn error_propagate(
    b: &LoweringContextBuilder,
    c: CtxModel,
    s: ScopeModel,
    e: LoweredExprModel,
    ok_variant: ConcreteVariant,
    err_variant: ConcreteVariant,
    func_err_variant: ConcreteVariant,
) -> FlowStep<LoweredExprModel> {
    match e {
        LoweredExprModel::ExternEnum(x) => extern_error_propagate(
            b,
            c,
            s,
            x,
            ok_variant,
            err_variant,
            func_err_variant,
        ),
        _ => {
            let value = expr_var(b, c, s, e);
            match value.r {
                Err(f) => ended(value.c, value.s, f),
                Ok(v) => {
                    let one = ok_arm(b, value.c, merger_of(value.s, Seq::empty()), ok_variant);
                    let two = err_arm(b, one.c, one.m, err_variant, func_err_variant);
                    match two.r {
                        Err(failure) => ended(
                            two.c,
                            emptied(value.s),
                            FlowModel::Failed(failure),
                        ),
                        Ok(block) => finish_match_enum(
                            b,
                            two.c,
                            emptied(value.s),
                            two.m,
                            seq![one.r->Ok_0, block],
                            ok_variant.concrete_enum_id,
                            v,
                            seq![ok_variant, err_variant],
                        ),
                    }
                },
            }
        },
    }
}

/// Lowers an error propagation of the result of a call of an external function that was not
/// performed yet.
#[verifier::opaque]
pub open spec fn extern_error_propagate(
    b: &LoweringContextBuilder,
    c: CtxModel,
    s: ScopeModel,
    x: ExternEnumModel,
    ok_variant: ConcreteVariant,
    err_variant: ConcreteVariant,
    func_err_variant: ConcreteVariant,
) -> FlowStep<LoweredExprModel> {
    let s1 = emptied(s);
    let one = extern_ok_arm(b, c, merger_of(s, x.ref_args), x, ok_variant);
    match one.r {
        Err(failure) => ended(one.c, s1, FlowModel::Failed(failure)),
        Ok(first) => {
            let two = extern_err_arm(b, one.c, one.m, x, err_variant, func_err_variant);
            match two.r {
                Err(failure) => ended(two.c, s1, FlowModel::Failed(failure)),
                Ok(second) => finish_match_extern(
                    b,
                    two.c,
                    s1,
                    two.m,
                    seq![first, second],
                    x.function,
                    x.inputs,
                    seq![ok_variant, err_variant],
                ),
            }
        },
    }
}

} // verus!

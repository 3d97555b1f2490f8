//! The mathematics of the lowering: its state, the steps on it, and what every step keeps.
use crate::collections::{assign, begins, has_key, keys, lookup, unique_keys, without};
use crate::ids::{BlockId, ConcreteEnumId, FunctionId, SyntaxStablePtrId, TypeId, VarId, VariableId};
use crate::interner::{interned, short_id};
use crate::lowering::context::LoweringContextBuilder;
use crate::lowering::objects::{
    BlockEndModel, BlockModel, LoweringDiagnostic, LoweringDiagnosticKind, StatementModel,
    StructuredStatementModel, Variable,
};
use crate::semantic::db::type_info_from;
use crate::semantic::types::{ConcreteTypeId, ConcreteVariant, TypeModel};
use vstd::prelude::*;

verus! {

/// What the lowering of a function has made so far.
#[verifier::ext_equal]
pub struct CtxModel {
    pub types: Seq<TypeModel>,
    pub variables: Seq<Variable>,
    pub blocks: Seq<BlockModel>,
    pub diagnostics: Seq<LoweringDiagnostic>,
    /// The types of the variables of the source that were defined so far.
    pub semantic_defs: Seq<(VarId, TypeId)>,
    /// How many implicits and reference parameters the function gives back when it is left.
    pub given_back: nat,
}

/// What a variable of the source is in a scope.
#[derive(Clone, Copy, PartialEq, Eq, Structural, Debug)]
pub enum SemanticVariableEntry {
    /// The value lies in a variable.
    Alive(VariableId),
    /// The value was moved elsewhere.
    Moved,
}

/// The state of a block that is being filled.
#[verifier::ext_equal]
pub struct ScopeModel {
    pub inputs: Seq<VariableId>,
    pub initial_refs: Seq<(TypeId, VariableId)>,
    pub statements: Seq<StructuredStatementModel>,
    pub implicits: Seq<(TypeId, VariableId)>,
    pub changed: Seq<TypeId>,
    pub vars: Seq<(VarId, SemanticVariableEntry)>,
}

/// A lowered expression.
pub enum LoweredExprModel {
    AtVariable(VariableId),
    Tuple(Seq<LoweredExprModel>),
    ExternEnum(ExternEnumModel),
}

/// The result of a call of an external function that was not performed yet.
#[verifier::ext_equal]
pub struct ExternEnumModel {
    pub function: FunctionId,
    pub concrete_enum_id: ConcreteEnumId,
    pub inputs: Seq<VariableId>,
    pub ref_args: Seq<VarId>,
    pub implicits: Seq<TypeId>,
    pub stable_ptr: SyntaxStablePtrId,
}

/// Why the lowering gave up.
pub enum Failure {
    /// A diagnostic says why.
    Diagnosed,
    /// The input is not a function body that type checks: it has no lowering.
    Stuck,
}

/// Why the flow does not go on.
pub enum FlowModel {
    Failed(Failure),
    Panic { refs: Seq<VariableId>, data: VariableId },
    Return { refs: Seq<VariableId>, returned: Seq<VariableId> },
    Unreachable,
}

/// How a scope ends.
pub enum ScopeEndModel {
    Callsite(Option<VariableId>),
    Return { refs: Seq<VariableId>, returned: Seq<VariableId> },
    Panic { refs: Seq<VariableId>, data: VariableId },
    Unreachable,
}

/// A step of the lowering: the state after it, and what it gives.
pub struct Step<T> {
    pub c: CtxModel,
    pub s: ScopeModel,
    pub r: T,
}

/// A step that gives a value or ends the flow.
pub type FlowStep<T> = Step<Result<T, FlowModel>>;

/// Whether the step has a lowering.
pub open spec fn defined<T>(r: Result<T, FlowModel>) -> bool {
    r != Err::<T, FlowModel>(FlowModel::Failed(Failure::Stuck))
}

/// Whether the end has a lowering.
pub open spec fn end_defined<T>(r: Result<T, Failure>) -> bool {
    r != Err::<T, Failure>(Failure::Stuck)
}

/// The step that gives `v` and changes nothing.
pub open spec fn done<T>(c: CtxModel, s: ScopeModel, v: T) -> FlowStep<T> {
    Step { c, s, r: Ok(v) }
}

/// The step that ends the flow and changes nothing.
pub open spec fn ended<T>(c: CtxModel, s: ScopeModel, f: FlowModel) -> FlowStep<T> {
    Step { c, s, r: Err(f) }
}

/// The step of an input that has no lowering.
pub open spec fn stuck<T>(c: CtxModel, s: ScopeModel) -> FlowStep<T> {
    ended(c, s, FlowModel::Failed(Failure::Stuck))
}

// === The context ===

/// A new variable of a type.
pub open spec fn variable_of(b: &LoweringContextBuilder, ty: TypeId) -> Variable {
    match type_info_from(b.db.type_infos@, b.lookup_context@, ty, 0) {
        Ok(info) => Variable { ty, duplicatable: info.duplicatable, droppable: info.droppable },
        Err(_) => Variable { ty, duplicatable: false, droppable: false },
    }
}

/// The identifier of the next new variable.
pub open spec fn next_var(c: CtxModel) -> VariableId {
    VariableId(c.variables.len() as usize)
}

/// The state with a new variable.
pub open spec fn new_var(b: &LoweringContextBuilder, c: CtxModel, ty: TypeId) -> CtxModel {
    CtxModel { variables: c.variables.push(variable_of(b, ty)), ..c }
}

/// The identifiers of the next `n` new variables.
pub open spec fn fresh_vars(c: CtxModel, n: nat) -> Seq<VariableId> {
    Seq::new(n, |i: int| VariableId((c.variables.len() + i) as usize))
}

/// The state with a new variable of each of the types.
pub open spec fn new_vars(b: &LoweringContextBuilder, c: CtxModel, tys: Seq<TypeId>) -> CtxModel {
    CtxModel {
        variables: c.variables + tys.map_values(|ty: TypeId| variable_of(b, ty)),
        ..c
    }
}

/// The state with the type in the table.
pub open spec fn with_type(c: CtxModel, t: TypeModel) -> CtxModel {
    CtxModel { types: interned(c.types, t), ..c }
}

/// The identifier of the type.
pub open spec fn id_of_type(c: CtxModel, t: TypeModel) -> TypeId {
    TypeId(short_id(c.types, t) as usize)
}

/// The state with one more diagnostic.
pub open spec fn report(
    c: CtxModel,
    stable_ptr: SyntaxStablePtrId,
    kind: LoweringDiagnosticKind,
) -> CtxModel {
    CtxModel { diagnostics: c.diagnostics.push(LoweringDiagnostic { stable_ptr, kind }), ..c }
}

/// The state with the definition of a variable of the source.
pub open spec fn define(c: CtxModel, var: VarId, ty: TypeId) -> CtxModel {
    CtxModel { semantic_defs: assign(c.semantic_defs, var, ty), ..c }
}

/// The types of the variables.
pub open spec fn types_of_vars(c: CtxModel, vars: Seq<VariableId>) -> Seq<TypeId> {
    vars.map_values(|v: VariableId| c.variables[v.0 as int].ty)
}

// === The scope ===

/// Gives an implicit its variable.
pub open spec fn put_implicit(s: ScopeModel, ty: TypeId, var: VariableId) -> ScopeModel {
    ScopeModel { implicits: assign(s.implicits, ty, var), ..s }
}

/// Marks an implicit as changed.
pub open spec fn mark_implicit_changed(s: ScopeModel, ty: TypeId) -> ScopeModel {
    if s.changed.contains(ty) {
        s
    } else {
        ScopeModel { changed: s.changed.push(ty), ..s }
    }
}

/// Takes an implicit, if it is there, and marks it as changed.
pub open spec fn take_implicit(s: ScopeModel, ty: TypeId) -> ScopeModel {
    if has_key(s.implicits, ty) {
        mark_implicit_changed(ScopeModel { implicits: without(s.implicits, ty), ..s }, ty)
    } else {
        s
    }
}

/// Gives a variable of the source its value.
pub open spec fn put_semantic_variable(s: ScopeModel, id: VarId, var: VariableId) -> ScopeModel {
    ScopeModel { vars: assign(s.vars, id, SemanticVariableEntry::Alive(var)), ..s }
}

/// The variable that the entries give to a variable of the source, if it is alive.
pub open spec fn alive_in(vars: Seq<(VarId, SemanticVariableEntry)>, id: VarId) -> Option<
    VariableId,
> {
    match lookup(vars, id) {
        Some(SemanticVariableEntry::Alive(var)) => Some(var),
        _ => None,
    }
}

/// What a lookup of a variable of the source gives.
pub open spec fn entry_of(s: ScopeModel, id: VarId) -> SemanticVariableEntry {
    match alive_in(s.vars, id) {
        Some(var) => SemanticVariableEntry::Alive(var),
        None => SemanticVariableEntry::Moved,
    }
}

/// Moves a variable of the source.
pub open spec fn take_semantic_variable(s: ScopeModel, id: VarId) -> ScopeModel {
    match alive_in(s.vars, id) {
        Some(_) => ScopeModel { vars: assign(s.vars, id, SemanticVariableEntry::Moved), ..s },
        None => s,
    }
}

/// Moves a variable of the source, unless its value can be duplicated.
pub open spec fn use_semantic_variable(c: CtxModel, s: ScopeModel, id: VarId) -> ScopeModel {
    match alive_in(s.vars, id) {
        Some(var) => if c.variables[var.0 as int].duplicatable {
            s
        } else {
            take_semantic_variable(s, id)
        },
        None => s,
    }
}

/// Makes sure that the scope knows a variable of the source.
pub open spec fn ensure_semantic_variable(s: ScopeModel, id: VarId) -> ScopeModel {
    if has_key(s.vars, id) {
        s
    } else {
        ScopeModel { vars: s.vars.push((id, SemanticVariableEntry::Moved)), ..s }
    }
}

/// Records where the implicits are at the start of the block.
pub open spec fn bind_refs(s: ScopeModel) -> ScopeModel {
    ScopeModel { initial_refs: s.implicits, ..s }
}

/// Records where the implicits are after the last statement.
pub open spec fn finalize_statement(s: ScopeModel) -> ScopeModel {
    if s.statements.len() == 0 {
        s
    } else {
        ScopeModel {
            statements: s.statements.drop_last().push(
                StructuredStatementModel {
                    statement: s.statements.last().statement,
                    refs: s.implicits,
                },
            ),
            ..s
        }
    }
}

/// Adds a statement.
pub open spec fn push_statement(s: ScopeModel, statement: StatementModel) -> ScopeModel {
    ScopeModel {
        statements: s.statements.push(StructuredStatementModel { statement, refs: s.implicits }),
        ..s
    }
}

// === Statements that are added to a scope ===

/// A literal.
pub open spec fn add_literal(
    b: &LoweringContextBuilder,
    c: CtxModel,
    s: ScopeModel,
    value: Seq<u8>,
    ty: TypeId,
) -> Step<VariableId> {
    let output = next_var(c);
    Step {
        c: new_var(b, c, ty),
        s: push_statement(s, StatementModel::Literal { ty, value, output }),
        r: output,
    }
}

/// The packing of a struct or tuple.
pub open spec fn add_struct_construct(
    b: &LoweringContextBuilder,
    c: CtxModel,
    s: ScopeModel,
    inputs: Seq<VariableId>,
    ty: TypeId,
) -> Step<VariableId> {
    let output = next_var(c);
    Step {
        c: new_var(b, c, ty),
        s: push_statement(s, StatementModel::StructConstruct { inputs, output }),
        r: output,
    }
}

/// The unpacking of a struct or tuple.
pub open spec fn add_struct_destructure(
    b: &LoweringContextBuilder,
    c: CtxModel,
    s: ScopeModel,
    input: VariableId,
    tys: Seq<TypeId>,
) -> Step<Seq<VariableId>> {
    let outputs = fresh_vars(c, tys.len());
    Step {
        c: new_vars(b, c, tys),
        s: push_statement(s, StatementModel::StructDestructure { input, outputs }),
        r: outputs,
    }
}

/// The making of a value of an enum.
pub open spec fn add_enum_construct(
    b: &LoweringContextBuilder,
    c: CtxModel,
    s: ScopeModel,
    input: VariableId,
    variant: ConcreteVariant,
) -> Step<VariableId> {
    let t = TypeModel::Concrete(ConcreteTypeId::Enum(variant.concrete_enum_id));
    let output = next_var(c);
    Step {
        c: new_var(b, with_type(c, t), id_of_type(c, t)),
        s: push_statement(s, StatementModel::EnumConstruct { variant, input, output }),
        r: output,
    }
}

/// What a call gives.
#[verifier::ext_equal]
pub struct CallResultModel {
    pub implicit_outputs: Seq<VariableId>,
    pub ref_outputs: Seq<VariableId>,
    pub returned: Seq<VariableId>,
}

/// A call of a function. Its outputs are the implicits, then the references, then the returned
/// values.
pub open spec fn add_call(
    b: &LoweringContextBuilder,
    c: CtxModel,
    s: ScopeModel,
    function: FunctionId,
    inputs: Seq<VariableId>,
    implicit_tys: Seq<TypeId>,
    ref_tys: Seq<TypeId>,
    ret_tys: Seq<TypeId>,
) -> Step<CallResultModel> {
    let c1 = new_vars(b, c, implicit_tys);
    let c2 = new_vars(b, c1, ref_tys);
    let c3 = new_vars(b, c2, ret_tys);
    let r = CallResultModel {
        implicit_outputs: fresh_vars(c, implicit_tys.len()),
        ref_outputs: fresh_vars(c1, ref_tys.len()),
        returned: fresh_vars(c2, ret_tys.len()),
    };
    Step {
        c: c3,
        s: push_statement(
            s,
            StatementModel::Call {
                function,
                inputs,
                outputs: r.implicit_outputs + r.ref_outputs + r.returned,
            },
        ),
        r,
    }
}

/// How the blocks of a statement come back to it.
pub enum EndInfoModel {
    /// Some block comes back, with outputs of these types.
    Callsite { push_tys: Seq<TypeId>, maybe_output_ty: Option<TypeId> },
    /// No block comes back.
    End,
}

/// What a statement with blocks gives.
pub enum CallBlockResultModel {
    Callsite { maybe_output: Option<VariableId>, pushes: Seq<VariableId> },
    End,
}

/// The types of the outputs.
pub open spec fn output_tys(info: EndInfoModel) -> Seq<TypeId> {
    match info {
        EndInfoModel::Callsite { push_tys, maybe_output_ty } => match maybe_output_ty {
            Some(ty) => push_tys.push(ty),
            None => push_tys,
        },
        EndInfoModel::End => Seq::empty(),
    }
}

/// What a statement gives whose outputs are the next new variables.
pub open spec fn block_result(c: CtxModel, info: EndInfoModel) -> CallBlockResultModel {
    match info {
        EndInfoModel::Callsite { push_tys, maybe_output_ty } => CallBlockResultModel::Callsite {
            maybe_output: match maybe_output_ty {
                Some(_) => Some(VariableId((c.variables.len() + push_tys.len()) as usize)),
                None => None,
            },
            pushes: fresh_vars(c, push_tys.len()),
        },
        EndInfoModel::End => CallBlockResultModel::End,
    }
}

/// The call of a block.
pub open spec fn add_call_block(
    b: &LoweringContextBuilder,
    c: CtxModel,
    s: ScopeModel,
    block: BlockId,
    info: EndInfoModel,
) -> Step<CallBlockResultModel> {
    let tys = output_tys(info);
    Step {
        c: new_vars(b, c, tys),
        s: push_statement(
            s,
            StatementModel::CallBlock { block, outputs: fresh_vars(c, tys.len()) },
        ),
        r: block_result(c, info),
    }
}

/// A match on the variants of an enum.
pub open spec fn add_match_enum(
    b: &LoweringContextBuilder,
    c: CtxModel,
    s: ScopeModel,
    concrete_enum_id: ConcreteEnumId,
    input: VariableId,
    arms: Seq<(ConcreteVariant, BlockId)>,
    info: EndInfoModel,
) -> Step<CallBlockResultModel> {
    let tys = output_tys(info);
    Step {
        c: new_vars(b, c, tys),
        s: push_statement(
            s,
            StatementModel::MatchEnum {
                concrete_enum_id,
                input,
                arms,
                outputs: fresh_vars(c, tys.len()),
            },
        ),
        r: block_result(c, info),
    }
}

/// A match on the branches of an external function.
pub open spec fn add_match_extern(
    b: &LoweringContextBuilder,
    c: CtxModel,
    s: ScopeModel,
    function: FunctionId,
    inputs: Seq<VariableId>,
    arms: Seq<(ConcreteVariant, BlockId)>,
    info: EndInfoModel,
) -> Step<CallBlockResultModel> {
    let tys = output_tys(info);
    Step {
        c: new_vars(b, c, tys),
        s: push_statement(
            s,
            StatementModel::MatchExtern {
                function,
                inputs,
                arms,
                outputs: fresh_vars(c, tys.len()),
            },
        ),
        r: block_result(c, info),
    }
}

// === Blocks that come together ===

/// A block that comes back to the statement that ran it: what it left behind.
#[verifier::ext_equal]
pub struct ArmModel {
    pub implicits: Seq<(TypeId, VariableId)>,
    pub changed: Seq<TypeId>,
    pub vars: Seq<(VarId, SemanticVariableEntry)>,
    pub output: Option<VariableId>,
}

/// The blocks of one statement: the state that each of them starts with, and what those that came
/// back left behind.
#[verifier::ext_equal]
pub struct MergerModel {
    pub implicits: Seq<(TypeId, VariableId)>,
    pub vars: Seq<(VarId, SemanticVariableEntry)>,
    pub arms: Seq<ArmModel>,
}

/// A block whose statements are all there, but not its outputs.
#[verifier::ext_equal]
pub struct SealedModel {
    pub inputs: Seq<VariableId>,
    pub initial_refs: Seq<(TypeId, VariableId)>,
    pub statements: Seq<StructuredStatementModel>,
    pub implicits: Seq<(TypeId, VariableId)>,
    pub vars: Seq<(VarId, SemanticVariableEntry)>,
    pub end: ScopeEndModel,
}

/// What comes out of the blocks of one statement.
#[verifier::ext_equal]
pub struct FinalizedModel {
    pub info: EndInfoModel,
    pub implicit_pushes: Seq<TypeId>,
    pub unchanged: Seq<(TypeId, VariableId)>,
    pub var_pushes: Seq<VarId>,
    pub bring_back: Seq<(VarId, VariableId)>,
}

/// The variables of the source that are known, with those of `extra` from the place `i` on.
pub open spec fn with_extra(
    vars: Seq<(VarId, SemanticVariableEntry)>,
    extra: Seq<VarId>,
    i: int,
) -> Seq<(VarId, SemanticVariableEntry)>
    decreases extra.len() - i,
{
    if i < 0 || i >= extra.len() {
        vars
    } else if has_key(vars, extra[i]) {
        with_extra(vars, extra, i + 1)
    } else {
        with_extra(vars.push((extra[i], SemanticVariableEntry::Moved)), extra, i + 1)
    }
}

/// The start of the blocks of a statement in the scope `s`.
pub open spec fn merger_of(s: ScopeModel, extra: Seq<VarId>) -> MergerModel {
    MergerModel {
        implicits: s.implicits,
        vars: with_extra(s.vars, extra, 0),
        arms: Seq::empty(),
    }
}

/// The scope while the blocks of a statement have what it had.
pub open spec fn emptied(s: ScopeModel) -> ScopeModel {
    ScopeModel {
        implicits: Seq::empty(),
        vars: s.vars.map_values(
            |p: (VarId, SemanticVariableEntry)| (p.0, SemanticVariableEntry::Moved),
        ),
        ..s
    }
}

/// The start of a function.
pub open spec fn root_merger() -> MergerModel {
    MergerModel { implicits: Seq::empty(), vars: Seq::empty(), arms: Seq::empty() }
}

/// A new block. Its inputs are the next new variables.
pub open spec fn subscope_of(c: CtxModel, m: MergerModel, input_tys: Seq<TypeId>) -> ScopeModel {
    ScopeModel {
        inputs: fresh_vars(c, input_tys.len()),
        initial_refs: Seq::empty(),
        statements: Seq::empty(),
        implicits: m.implicits,
        changed: Seq::empty(),
        vars: m.vars,
    }
}

/// The block when its end is known.
pub open spec fn sealed_of(s: ScopeModel, end: ScopeEndModel) -> SealedModel {
    SealedModel {
        inputs: s.inputs,
        initial_refs: s.initial_refs,
        statements: s.statements,
        implicits: s.implicits,
        vars: s.vars,
        end,
    }
}

/// What a block leaves behind.
pub open spec fn arm_of(s: ScopeModel, output: Option<VariableId>) -> ArmModel {
    ArmModel { implicits: s.implicits, changed: s.changed, vars: s.vars, output }
}

/// The blocks with one more that has ended.
pub open spec fn merger_with(m: MergerModel, s: ScopeModel, end: ScopeEndModel) -> MergerModel {
    match end {
        ScopeEndModel::Callsite(output) => MergerModel {
            arms: m.arms.push(arm_of(s, output)),
            ..m
        },
        _ => m,
    }
}

/// Whether every arm still has the implicit.
pub open spec fn implicit_everywhere(arms: Seq<ArmModel>, ty: TypeId) -> bool {
    forall|i: int| 0 <= i < arms.len() ==> has_key((#[trigger] arms[i]).implicits, ty)
}

/// Whether some arm changed the implicit.
pub open spec fn implicit_changed(arms: Seq<ArmModel>, ty: TypeId) -> bool {
    exists|i: int| 0 <= i < arms.len() && (#[trigger] arms[i]).changed.contains(ty)
}

/// Whether the variable of the source is alive in every arm.
pub open spec fn alive_everywhere(arms: Seq<ArmModel>, id: VarId) -> bool {
    forall|i: int| 0 <= i < arms.len() ==> alive_in((#[trigger] arms[i]).vars, id) is Some
}

/// Whether the variable of the source has kept its value in every arm.
pub open spec fn untouched_everywhere(arms: Seq<ArmModel>, id: VarId, var: VariableId) -> bool {
    forall|i: int| 0 <= i < arms.len() ==> alive_in((#[trigger] arms[i]).vars, id) == Some(var)
}

/// Whether every arm has an output.
pub open spec fn output_everywhere(arms: Seq<ArmModel>) -> bool {
    forall|i: int| 0 <= i < arms.len() ==> (#[trigger] arms[i]).output is Some
}

/// Whether an implicit comes out of the blocks with a new value.
pub open spec fn is_implicit_push(arms: Seq<ArmModel>, p: (TypeId, VariableId)) -> bool {
    implicit_everywhere(arms, p.0) && implicit_changed(arms, p.0)
}

/// Whether an implicit comes out of the blocks as it was.
pub open spec fn is_unchanged(arms: Seq<ArmModel>, p: (TypeId, VariableId)) -> bool {
    implicit_everywhere(arms, p.0) && !implicit_changed(arms, p.0)
}

/// Whether a variable of the source comes out of the blocks as it was.
pub open spec fn is_bring_back(arms: Seq<ArmModel>, p: (VarId, SemanticVariableEntry)) -> bool {
    match p.1 {
        SemanticVariableEntry::Alive(var) => untouched_everywhere(arms, p.0, var),
        SemanticVariableEntry::Moved => false,
    }
}

/// Whether a variable of the source comes out of the blocks with a new value.
pub open spec fn is_var_push(arms: Seq<ArmModel>, p: (VarId, SemanticVariableEntry)) -> bool {
    alive_everywhere(arms, p.0) && !is_bring_back(arms, p)
}

/// The test [is_implicit_push].
pub open spec fn implicit_push_test(arms: Seq<ArmModel>) -> spec_fn((TypeId, VariableId)) -> bool {
    |p: (TypeId, VariableId)| is_implicit_push(arms, p)
}

/// The test [is_unchanged].
pub open spec fn unchanged_test(arms: Seq<ArmModel>) -> spec_fn((TypeId, VariableId)) -> bool {
    |p: (TypeId, VariableId)| is_unchanged(arms, p)
}

/// The test [is_var_push].
pub open spec fn var_push_test(arms: Seq<ArmModel>) -> spec_fn(
    (VarId, SemanticVariableEntry),
) -> bool {
    |p: (VarId, SemanticVariableEntry)| is_var_push(arms, p)
}

/// The test [is_bring_back].
pub open spec fn bring_back_test(arms: Seq<ArmModel>) -> spec_fn(
    (VarId, SemanticVariableEntry),
) -> bool {
    |p: (VarId, SemanticVariableEntry)| is_bring_back(arms, p)
}

/// The pairs with their variables.
pub open spec fn alive_pairs(s: Seq<(VarId, SemanticVariableEntry)>) -> Seq<(VarId, VariableId)> {
    s.map_values(|p: (VarId, SemanticVariableEntry)| (p.0, p.1->Alive_0))
}

/// The variable of a variable of the source that is alive.
pub open spec fn alive_var(vars: Seq<(VarId, SemanticVariableEntry)>, id: VarId) -> VariableId {
    alive_in(vars, id)->0
}

/// The variables of the implicits.
pub open spec fn implicit_outputs(
    implicits: Seq<(TypeId, VariableId)>,
    pushes: Seq<TypeId>,
) -> Seq<VariableId> {
    pushes.map_values(|ty: TypeId| lookup(implicits, ty)->0)
}

/// The variables of the variables of the source.
pub open spec fn var_outputs(
    vars: Seq<(VarId, SemanticVariableEntry)>,
    pushes: Seq<VarId>,
) -> Seq<VariableId> {
    pushes.map_values(|id: VarId| alive_var(vars, id))
}

/// The implicits that come out of the blocks with a new value.
pub open spec fn implicit_pushes_of(m: MergerModel) -> Seq<TypeId> {
    keys(m.implicits.filter(implicit_push_test(m.arms)))
}

/// The variables of the source that come out of the blocks with a new value.
pub open spec fn var_pushes_of(m: MergerModel) -> Seq<VarId> {
    keys(m.vars.filter(var_push_test(m.arms)))
}

/// What comes out of the blocks: of each implicit and each variable of the source that the
/// statement had, whether every block that comes back still has it, and whether one changed it.
pub open spec fn finalized(c: CtxModel, m: MergerModel) -> FinalizedModel {
    if m.arms.len() == 0 {
        FinalizedModel {
            info: EndInfoModel::End,
            implicit_pushes: Seq::empty(),
            unchanged: Seq::empty(),
            var_pushes: Seq::empty(),
            bring_back: Seq::empty(),
        }
    } else {
        FinalizedModel {
            info: EndInfoModel::Callsite {
                push_tys: implicit_pushes_of(m) + types_of_vars(
                    c,
                    var_outputs(m.arms[0].vars, var_pushes_of(m)),
                ),
                maybe_output_ty: if output_everywhere(m.arms) {
                    Some(c.variables[(m.arms[0].output->0).0 as int].ty)
                } else {
                    None
                },
            },
            implicit_pushes: implicit_pushes_of(m),
            unchanged: m.implicits.filter(unchanged_test(m.arms)),
            var_pushes: var_pushes_of(m),
            bring_back: alive_pairs(m.vars.filter(bring_back_test(m.arms))),
        }
    }
}

/// Whether the blocks of a statement have an output.
pub open spec fn has_output(f: FinalizedModel) -> bool {
    match f.info {
        EndInfoModel::Callsite { maybe_output_ty, .. } => maybe_output_ty is Some,
        EndInfoModel::End => false,
    }
}

/// The end of a block, with its outputs.
pub open spec fn block_end(f: FinalizedModel, sealed: SealedModel) -> BlockEndModel {
    match sealed.end {
        ScopeEndModel::Callsite(output) => BlockEndModel::Callsite(
            implicit_outputs(sealed.implicits, f.implicit_pushes) + var_outputs(
                sealed.vars,
                f.var_pushes,
            ) + if has_output(f) {
                seq![output->0]
            } else {
                Seq::empty()
            },
        ),
        ScopeEndModel::Return { refs, returned } => BlockEndModel::Return { refs, returned },
        ScopeEndModel::Panic { refs, data } => BlockEndModel::Panic { refs, data },
        ScopeEndModel::Unreachable => BlockEndModel::Unreachable,
    }
}

/// The identifier of the next new block.
pub open spec fn next_block(c: CtxModel) -> BlockId {
    BlockId(c.blocks.len() as usize)
}

/// The state with the block.
pub open spec fn with_block(c: CtxModel, f: FinalizedModel, sealed: SealedModel) -> CtxModel {
    CtxModel {
        blocks: c.blocks.push(
            BlockModel {
                inputs: sealed.inputs,
                initial_refs: sealed.initial_refs,
                statements: sealed.statements,
                end: block_end(f, sealed),
            },
        ),
        ..c
    }
}

// === What every step keeps ===

/// Whether the variable exists.
pub open spec fn var_ok(c: CtxModel, v: VariableId) -> bool {
    v.0 < c.variables.len()
}

/// Whether the variables exist.
pub open spec fn vars_ok(c: CtxModel, vars: Seq<VariableId>) -> bool {
    forall|i: int| 0 <= i < vars.len() ==> var_ok(c, #[trigger] vars[i])
}

/// Whether the variables of the implicits exist.
pub open spec fn refs_ok(c: CtxModel, refs: Seq<(TypeId, VariableId)>) -> bool {
    forall|i: int| 0 <= i < refs.len() ==> var_ok(c, (#[trigger] refs[i]).1)
}

/// Whether the variables of the variables of the source exist.
pub open spec fn entries_ok(c: CtxModel, vars: Seq<(VarId, SemanticVariableEntry)>) -> bool {
    forall|i: int|
        0 <= i < vars.len() ==> match (#[trigger] vars[i]).1 {
            SemanticVariableEntry::Alive(v) => var_ok(c, v),
            SemanticVariableEntry::Moved => true,
        }
}

/// Whether the block is one of the first `n`, and comes back, if it does, with that many outputs.
pub open spec fn callee_ok(c: CtxModel, n: nat, block: BlockId, outputs: nat) -> bool {
    &&& block.0 < n
    &&& n <= c.blocks.len()
    &&& match c.blocks[block.0 as int].end {
        BlockEndModel::Callsite(o) => o.len() == outputs,
        _ => true,
    }
}

/// Whether the blocks of the arms are as [callee_ok] says.
pub open spec fn arms_ok(
    c: CtxModel,
    n: nat,
    arms: Seq<(ConcreteVariant, BlockId)>,
    outputs: nat,
) -> bool {
    forall|i: int| 0 <= i < arms.len() ==> callee_ok(c, n, (#[trigger] arms[i]).1, outputs)
}

/// Whether a statement speaks of variables that exist and of blocks that are among the first `n`.
pub open spec fn statement_ok(c: CtxModel, n: nat, s: StatementModel) -> bool {
    match s {
        StatementModel::Literal { output, .. } => var_ok(c, output),
        StatementModel::Call { inputs, outputs, .. } => vars_ok(c, inputs) && vars_ok(c, outputs),
        StatementModel::CallBlock { block, outputs } => vars_ok(c, outputs) && callee_ok(
            c,
            n,
            block,
            outputs.len(),
        ),
        StatementModel::MatchExtern { inputs, arms, outputs, .. } => vars_ok(c, inputs) && vars_ok(
            c,
            outputs,
        ) && arms_ok(c, n, arms, outputs.len()),
        StatementModel::StructConstruct { inputs, output } => vars_ok(c, inputs) && var_ok(
            c,
            output,
        ),
        StatementModel::StructDestructure { input, outputs } => var_ok(c, input) && vars_ok(
            c,
            outputs,
        ),
        StatementModel::EnumConstruct { input, output, .. } => var_ok(c, input) && var_ok(
            c,
            output,
        ),
        StatementModel::MatchEnum { input, arms, outputs, .. } => var_ok(c, input) && vars_ok(
            c,
            outputs,
        ) && arms_ok(c, n, arms, outputs.len()),
    }
}

/// Whether the statements are as [statement_ok] says.
pub open spec fn statements_ok(
    c: CtxModel,
    n: nat,
    statements: Seq<StructuredStatementModel>,
) -> bool {
    forall|i: int|
        0 <= i < statements.len() ==> statement_ok(c, n, (#[trigger] statements[i]).statement)
            && refs_ok(c, statements[i].refs)
}

/// Whether the variables with which the function is left exist: one for each implicit and each
/// reference parameter, and one for the value, if there is one.
pub open spec fn return_ok(c: CtxModel, refs: Seq<VariableId>, value: Seq<VariableId>) -> bool {
    &&& vars_ok(c, refs)
    &&& vars_ok(c, value)
    &&& refs.len() == c.given_back
    &&& value.len() <= 1
}

/// Whether the variables of the end of a block exist.
pub open spec fn block_end_ok(c: CtxModel, end: BlockEndModel) -> bool {
    match end {
        BlockEndModel::Callsite(outputs) => vars_ok(c, outputs),
        BlockEndModel::Return { refs, returned } => return_ok(c, refs, returned),
        BlockEndModel::Panic { refs, data } => return_ok(c, refs, seq![data]),
        BlockEndModel::Unreachable => true,
    }
}

/// Whether a block speaks of variables that exist and of blocks among the first `n`.
pub open spec fn block_ok(c: CtxModel, n: nat, block: BlockModel) -> bool {
    &&& vars_ok(c, block.inputs)
    &&& refs_ok(c, block.initial_refs)
    &&& statements_ok(c, n, block.statements)
    &&& block_end_ok(c, block.end)
}

/// Whether every block speaks of variables that exist and of earlier blocks.
#[verifier::opaque]
pub open spec fn ctx_ok(c: CtxModel) -> bool {
    forall|i: int| 0 <= i < c.blocks.len() ==> block_ok(c, i as nat, #[trigger] c.blocks[i])
}

/// Whether a scope speaks of variables and blocks that exist, and knows each implicit and each
/// variable of the source once.
#[verifier::opaque]
pub open spec fn scope_ok(c: CtxModel, s: ScopeModel) -> bool {
    &&& vars_ok(c, s.inputs)
    &&& refs_ok(c, s.initial_refs)
    &&& statements_ok(c, c.blocks.len(), s.statements)
    &&& refs_ok(c, s.implicits)
    &&& entries_ok(c, s.vars)
    &&& unique_keys(s.implicits)
    &&& unique_keys(s.vars)
}

/// Whether a lowered expression speaks of variables that exist.
#[verifier::opaque]
pub open spec fn expr_ok(c: CtxModel, e: LoweredExprModel) -> bool
    decreases e,
{
    match e {
        LoweredExprModel::AtVariable(v) => var_ok(c, v),
        LoweredExprModel::Tuple(es) => forall|i: int|
            0 <= i < es.len() ==> expr_ok(c, #[trigger] es[i]),
        LoweredExprModel::ExternEnum(x) => vars_ok(c, x.inputs),
    }
}

/// Whether the lowered expressions speak of variables that exist.
pub open spec fn exprs_ok(c: CtxModel, es: Seq<LoweredExprModel>) -> bool {
    forall|i: int| 0 <= i < es.len() ==> expr_ok(c, #[trigger] es[i])
}

/// Whether the end of the flow speaks of variables that exist.
pub open spec fn flow_ok(c: CtxModel, f: FlowModel) -> bool {
    match f {
        FlowModel::Return { refs, returned } => return_ok(c, refs, returned),
        FlowModel::Panic { refs, data } => return_ok(c, refs, seq![data]),
        _ => true,
    }
}

/// Whether the end of a scope speaks of variables that exist.
pub open spec fn end_ok(c: CtxModel, e: ScopeEndModel) -> bool {
    match e {
        ScopeEndModel::Callsite(Some(v)) => var_ok(c, v),
        ScopeEndModel::Callsite(None) => true,
        ScopeEndModel::Return { refs, returned } => return_ok(c, refs, returned),
        ScopeEndModel::Panic { refs, data } => return_ok(c, refs, seq![data]),
        ScopeEndModel::Unreachable => true,
    }
}

/// Whether what a block leaves behind speaks of variables that exist.
pub open spec fn arm_ok(c: CtxModel, a: ArmModel) -> bool {
    &&& refs_ok(c, a.implicits)
    &&& entries_ok(c, a.vars)
    &&& match a.output {
        Some(v) => var_ok(c, v),
        None => true,
    }
}

/// Whether the blocks of a statement speak of variables that exist, and know each implicit and each
/// variable of the source once.
#[verifier::opaque]
pub open spec fn merger_ok(c: CtxModel, m: MergerModel) -> bool {
    &&& refs_ok(c, m.implicits)
    &&& entries_ok(c, m.vars)
    &&& unique_keys(m.implicits)
    &&& unique_keys(m.vars)
    &&& forall|i: int| 0 <= i < m.arms.len() ==> arm_ok(c, #[trigger] m.arms[i])
}

/// Whether a sealed block speaks of variables and blocks that exist.
#[verifier::opaque]
pub open spec fn sealed_ok(c: CtxModel, s: SealedModel) -> bool {
    &&& vars_ok(c, s.inputs)
    &&& refs_ok(c, s.initial_refs)
    &&& statements_ok(c, c.blocks.len(), s.statements)
    &&& refs_ok(c, s.implicits)
    &&& entries_ok(c, s.vars)
    &&& end_ok(c, s.end)
}

/// Whether the sealed block is one of those that the merger knows of.
pub open spec fn known(m: MergerModel, s: SealedModel) -> bool {
    match s.end {
        ScopeEndModel::Callsite(output) => exists|i: int|
            0 <= i < m.arms.len() && (#[trigger] m.arms[i]).implicits == s.implicits
                && m.arms[i].vars == s.vars && m.arms[i].output == output,
        _ => true,
    }
}

/// Whether the sealed block has everything that comes out of the blocks of its statement.
pub open spec fn fits(f: FinalizedModel, s: SealedModel) -> bool {
    match s.end {
        ScopeEndModel::Callsite(output) => {
            &&& f.info is Callsite
            &&& forall|i: int|
                0 <= i < f.implicit_pushes.len() ==> has_key(
                    s.implicits,
                    #[trigger] f.implicit_pushes[i],
                )
            &&& forall|i: int|
                0 <= i < f.var_pushes.len() ==> alive_in(
                    s.vars,
                    #[trigger] f.var_pushes[i],
                ) is Some
            &&& has_output(f) ==> output is Some
        },
        _ => true,
    }
}

/// Whether what comes out of the blocks speaks of variables that exist, and of as many outputs as
/// there are.
pub open spec fn finalized_ok(c: CtxModel, f: FinalizedModel) -> bool {
    &&& refs_ok(c, f.unchanged)
    &&& forall|i: int| 0 <= i < f.bring_back.len() ==> var_ok(c, (#[trigger] f.bring_back[i]).1)
    &&& match f.info {
        EndInfoModel::Callsite { push_tys, .. } => push_tys.len() == f.implicit_pushes.len()
            + f.var_pushes.len(),
        EndInfoModel::End => true,
    }
}

/// Whether `c1` has everything that `c0` has, in the same places.
#[verifier::opaque]
pub open spec fn extends(c0: CtxModel, c1: CtxModel) -> bool {
    &&& begins(c0.types, c1.types)
    &&& begins(c0.variables, c1.variables)
    &&& begins(c0.blocks, c1.blocks)
    &&& begins(c0.diagnostics, c1.diagnostics)
    &&& c0.given_back == c1.given_back
}

} // verus!

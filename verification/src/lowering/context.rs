//! The state of the lowering of one function.
use crate::collections::{lookup, OrderedMap};
use crate::diagnostics::{DiagnosticAdded, Maybe};
use crate::ids::{ConcreteEnumId, FunctionId, SyntaxStablePtrId, TypeId, VarId, VariableId};
use crate::interner::{interned, interning_is_stable};
use crate::lowering::keeps::{lemma_ctx_ok_later, lemma_extends_refl, lemma_extends_trans};
use crate::lowering::model::{
    ctx_ok, define, extends, fresh_vars, id_of_type, new_var, new_vars, next_var, report, var_ok,
    variable_of, vars_ok, with_type, CtxModel, ExternEnumModel, Failure, FlowModel,
    LoweredExprModel, ScopeEndModel,
};
use crate::lowering::objects::{
    LoweringDiagnostic, LoweringDiagnosticKind, StructuredBlock, Variable,
};
use crate::semantic::db::{find_type_info, LoweringDb};
use crate::semantic::expr::FunctionBody;
use crate::semantic::imp::ImplLookupContext;
use crate::semantic::types::{type_of, Signature, TypeInterner, TypeLongId};
use vstd::prelude::*;

verus! {

/// A variable that holds a value.
pub type LivingVar = VariableId;

/// What stays the same while a function is lowered.
#[derive(Debug)]
pub struct LoweringContextBuilder<'a> {
    pub db: &'a LoweringDb<'a>,
    pub function_def: &'a FunctionBody<'a>,
    pub signature: &'a Signature,
    /// The implicits of the function.
    pub implicits: &'a Vec<TypeId>,
    /// The parameters that the function takes by reference.
    pub ref_params: Vec<VarId>,
    /// Where the impls of traits are looked for.
    pub lookup_context: ImplLookupContext,
}

/// The state of the lowering of a function.
#[derive(Debug)]
pub struct LoweringContext<'a> {
    pub builder: &'a LoweringContextBuilder<'a>,
    pub types: TypeInterner,
    pub variables: Vec<Variable>,
    pub blocks: Vec<StructuredBlock>,
    pub diagnostics: Vec<LoweringDiagnostic>,
    /// The types of the variables of the source that were defined so far.
    pub semantic_defs: OrderedMap<VarId, TypeId>,
}

impl<'a> View for LoweringContext<'a> {
    type V = CtxModel;

    open spec fn view(&self) -> CtxModel {
        CtxModel {
            types: self.types@,
            variables: self.variables@,
            blocks: self.blocks@.map_values(|b: StructuredBlock| b@),
            diagnostics: self.diagnostics@,
            semantic_defs: self.semantic_defs@,
            given_back: self.builder.implicits@.len() + self.builder.ref_params@.len(),
        }
    }
}

/// A lowered expression.
#[derive(Debug)]
pub enum LoweredExpr {
    /// The value lies in a variable.
    AtVariable(LivingVar),
    /// The value is a tuple.
    Tuple(Vec<LoweredExpr>),
    /// The value is the result of a call of an external function that is not performed yet.
    ExternEnum(LoweredExprExternEnum),
}

/// The result of a call of an external function that is not performed yet.
#[derive(Debug)]
pub struct LoweredExprExternEnum {
    pub function: FunctionId,
    pub concrete_enum_id: ConcreteEnumId,
    pub inputs: Vec<LivingVar>,
    pub ref_args: Vec<VarId>,
    /// The implicits of the function.
    pub implicits: Vec<TypeId>,
    pub stable_ptr: SyntaxStablePtrId,
}

impl View for LoweredExprExternEnum {
    type V = ExternEnumModel;

    open spec fn view(&self) -> ExternEnumModel {
        ExternEnumModel {
            function: self.function,
            concrete_enum_id: self.concrete_enum_id,
            inputs: self.inputs@,
            ref_args: self.ref_args@,
            implicits: self.implicits@,
            stable_ptr: self.stable_ptr,
        }
    }
}

impl LoweredExpr {
    /// The mathematical counterpart of the expression.
    pub open spec fn model(self) -> LoweredExprModel
        decreases self,
    {
        match self {
            LoweredExpr::AtVariable(v) => LoweredExprModel::AtVariable(v),
            LoweredExpr::Tuple(es) => LoweredExprModel::Tuple(
                Seq::new(
                    es@.len(),
                    |i: int|
                        if 0 <= i < es@.len() {
                            es@[i].model()
                        } else {
                            arbitrary()
                        },
                ),
            ),
            LoweredExpr::ExternEnum(x) => LoweredExprModel::ExternEnum(x@),
        }
    }
}

impl View for LoweredExpr {
    type V = LoweredExprModel;

    open spec fn view(&self) -> LoweredExprModel {
        self.model()
    }
}

/// Why the flow does not go on.
#[derive(Debug)]
pub enum LoweringFlowError {
    /// The lowering failed.
    Failed(DiagnosticAdded),
    /// The function panics.
    Panic { refs: Vec<LivingVar>, data: LivingVar },
    /// The function returns.
    Return { refs: Vec<LivingVar>, returned: Vec<LivingVar> },
    /// The flow ended inside an expression.
    Unreachable,
}

impl View for LoweringFlowError {
    type V = FlowModel;

    open spec fn view(&self) -> FlowModel {
        match self {
            LoweringFlowError::Failed(_) => FlowModel::Failed(Failure::Diagnosed),
            LoweringFlowError::Panic { refs, data } => FlowModel::Panic { refs: refs@, data: *data },
            LoweringFlowError::Return { refs, returned } => FlowModel::Return {
                refs: refs@,
                returned: returned@,
            },
            LoweringFlowError::Unreachable => FlowModel::Unreachable,
        }
    }
}

/// How a scope ends.
#[derive(Debug)]
pub enum BlockScopeEnd {
    /// The statement that ran the block goes on, with the value that the block gives.
    Callsite(Option<LivingVar>),
    /// The function returns.
    Return { refs: Vec<LivingVar>, returned: Vec<LivingVar> },
    /// The function panics.
    Panic { refs: Vec<LivingVar>, data: LivingVar },
    /// The flow ended inside the block.
    Unreachable,
}

impl View for BlockScopeEnd {
    type V = ScopeEndModel;

    open spec fn view(&self) -> ScopeEndModel {
        match self {
            BlockScopeEnd::Callsite(v) => ScopeEndModel::Callsite(*v),
            BlockScopeEnd::Return { refs, returned } => ScopeEndModel::Return {
                refs: refs@,
                returned: returned@,
            },
            BlockScopeEnd::Panic { refs, data } => ScopeEndModel::Panic { refs: refs@, data: *data },
            BlockScopeEnd::Unreachable => ScopeEndModel::Unreachable,
        }
    }
}

/// The counterpart of a lowered expression or the end of the flow.
pub open spec fn expr_result(r: Result<LoweredExpr, LoweringFlowError>) -> Result<
    LoweredExprModel,
    FlowModel,
> {
    match r {
        Ok(e) => Ok(e@),
        Err(f) => Err(f@),
    }
}

/// The counterpart of a value or the end of the flow.
pub open spec fn flow_result<T>(r: Result<T, LoweringFlowError>) -> Result<T, FlowModel> {
    match r {
        Ok(v) => Ok(v),
        Err(f) => Err(f@),
    }
}

/// The counterpart of variables or the end of the flow.
pub open spec fn vars_result(r: Result<Vec<LivingVar>, LoweringFlowError>) -> Result<
    Seq<VariableId>,
    FlowModel,
> {
    match r {
        Ok(v) => Ok(v@),
        Err(f) => Err(f@),
    }
}

/// The counterpart of the end of a scope or a failure.
pub open spec fn end_result(r: Maybe<BlockScopeEnd>) -> Result<ScopeEndModel, Failure> {
    match r {
        Ok(e) => Ok(e@),
        Err(_) => Err(Failure::Diagnosed),
    }
}

/// The end of a scope in which the flow does not go on.
pub open spec fn flow_end(f: FlowModel) -> Result<ScopeEndModel, Failure> {
    match f {
        FlowModel::Failed(failure) => Err(failure),
        FlowModel::Panic { refs, data } => Ok(ScopeEndModel::Panic { refs, data }),
        FlowModel::Return { refs, returned } => Ok(ScopeEndModel::Return { refs, returned }),
        FlowModel::Unreachable => Ok(ScopeEndModel::Unreachable),
    }
}

/// Converts the end of the flow into the end of a scope.
pub fn lowering_flow_error_to_block_scope_end(err: LoweringFlowError) -> (r: Maybe<BlockScopeEnd>)
    ensures
        end_result(r) == flow_end(err@),
{
    match err {
        LoweringFlowError::Failed(diag_added) => Err(diag_added),
        LoweringFlowError::Panic { refs, data } => Ok(BlockScopeEnd::Panic { refs, data }),
        LoweringFlowError::Return { refs, returned } => Ok(BlockScopeEnd::Return { refs, returned }),
        LoweringFlowError::Unreachable => Ok(BlockScopeEnd::Unreachable),
    }
}

/// Whether the lowering went from `c0` to `c1` and lost nothing.
pub open spec fn grew(c0: LoweringContext, c1: LoweringContext) -> bool {
    &&& c1.builder == c0.builder
    &&& extends(c0@, c1@)
    &&& ctx_ok(c0@) ==> ctx_ok(c1@)
}

impl<'a> LoweringContext<'a> {
    /// Makes a new variable of the type.
    pub fn new_var(&mut self, ty: TypeId) -> (r: VariableId)
        ensures
            r == next_var(old(self)@),
            final(self)@ == new_var(old(self).builder, old(self)@, ty),
            grew(*old(self), *final(self)),
            var_ok(final(self)@, r),
    {
        let b = self.builder;
        let info = find_type_info(&b.db.type_infos, &b.lookup_context, ty);
        let variable = match info {
            Ok(info) => Variable { ty, duplicatable: info.duplicatable, droppable: info.droppable },
            Err(_) => Variable { ty, duplicatable: false, droppable: false },
        };
        let r = VariableId(self.variables.len());
        self.variables.push(variable);
        proof {
            assert(extends(old(self)@, self@)) by {
                reveal(extends);
            }
            if ctx_ok(old(self)@) {
                lemma_ctx_ok_later(old(self)@, self@);
            }
        }
        r
    }

    /// Makes a new variable of each of the types.
    pub fn new_vars(&mut self, tys: &Vec<TypeId>) -> (r: Vec<VariableId>)
        ensures
            r@ == fresh_vars(old(self)@, tys@.len()),
            final(self)@ == new_vars(old(self).builder, old(self)@, tys@),
            grew(*old(self), *final(self)),
            vars_ok(final(self)@, r@),
    {
        let ghost c0 = self@;
        let mut r: Vec<VariableId> = Vec::new();
        let mut i: usize = 0;
        proof {
            lemma_extends_refl(c0);
            assert(c0.variables + tys@.take(0).map_values(
                |ty: TypeId| variable_of(self.builder, ty),
            ) =~= c0.variables);
            assert(r@ =~= fresh_vars(c0, 0));
        }
        while i < tys.len()
            invariant
                i <= tys@.len(),
                c0 == old(self)@,
                self.builder == old(self).builder,
                extends(c0, self@),
                ctx_ok(c0) ==> ctx_ok(self@),
                r@ == fresh_vars(c0, i as nat),
                self@ == new_vars(self.builder, c0, tys@.take(i as int)),
            decreases tys@.len() - i,
        {
            let ghost c1 = self@;
            let v = self.new_var(tys[i]);
            r.push(v);
            i += 1;
            proof {
                lemma_extends_trans(c0, c1, self@);
                assert(r@ =~= fresh_vars(c0, i as nat));
                assert(self@.variables =~= c0.variables + tys@.take(i as int).map_values(
                    |ty: TypeId| variable_of(self.builder, ty),
                ));
            }
        }
        assert(tys@.take(i as int) =~= tys@);
        r
    }

    /// Puts the type into the table.
    pub fn intern_type(&mut self, t: TypeLongId) -> (r: TypeId)
        ensures
            r == id_of_type(old(self)@, t@),
            final(self)@ == with_type(old(self)@, t@),
            grew(*old(self), *final(self)),
    {
        let ghost t0 = t@;
        let r = TypeId(self.types.intern(t));
        proof {
            interning_is_stable(old(self)@.types, t0);
            assert(extends(old(self)@, self@)) by {
                reveal(extends);
                let s = old(self)@.types;
                assert forall|i: int| 0 <= i < s.len() implies #[trigger] self@.types[i] == s[i] by {
                    assert(interned(s, t0).take(s.len() as int)[i] == s[i]);
                }
            }
            if ctx_ok(old(self)@) {
                lemma_ctx_ok_later(old(self)@, self@);
            }
        }
        r
    }

    /// The type behind the identifier.
    pub fn lookup_intern_type(&self, ty: TypeId) -> (r: Option<&TypeLongId>)
        ensures
            match r {
                Some(t) => type_of(self@.types, ty) == Some(t@),
                None => type_of(self@.types, ty) is None,
            },
    {
        self.types.lookup(ty.0)
    }

    /// Reports a diagnostic.
    pub fn report(&mut self, stable_ptr: SyntaxStablePtrId, kind: LoweringDiagnosticKind) -> (r:
        DiagnosticAdded)
        ensures
            final(self)@ == report(old(self)@, stable_ptr, kind),
            grew(*old(self), *final(self)),
    {
        self.diagnostics.push(LoweringDiagnostic { stable_ptr, kind });
        proof {
            assert(extends(old(self)@, self@)) by {
                reveal(extends);
            }
            if ctx_ok(old(self)@) {
                lemma_ctx_ok_later(old(self)@, self@);
            }
        }
        DiagnosticAdded
    }

    /// Defines a variable of the source.
    pub fn define(&mut self, var: VarId, ty: TypeId)
        ensures
            final(self)@ == define(old(self)@, var, ty),
            grew(*old(self), *final(self)),
    {
        self.semantic_defs.put(var, ty);
        proof {
            assert(extends(old(self)@, self@)) by {
                reveal(extends);
            }
            if ctx_ok(old(self)@) {
                lemma_ctx_ok_later(old(self)@, self@);
            }
        }
    }
}

} // verus!

//! The statements that are added to a scope.
use crate::collections::{copy_vec, extend_copies};
use crate::ids::{BlockId, ConcreteEnumId, FunctionId, TypeId};
use crate::lowering::context::{grew, LivingVar, LoweringContext};
use crate::lowering::keeps::{lemma_extends_trans, lemma_later};
use crate::lowering::model::{
    add_call, add_call_block, add_enum_construct, add_literal, add_match_enum, add_match_extern,
    add_struct_construct, add_struct_destructure, arms_ok, block_result, callee_ok, fresh_vars,
    new_vars, output_tys, scope_ok, var_ok, vars_ok, CallBlockResultModel, CallResultModel,
    CtxModel, EndInfoModel, Step,
};
use crate::lowering::objects::Statement;
use crate::lowering::scope::BlockScope;
use crate::semantic::types::{ConcreteTypeId, ConcreteVariant, TypeLongId};
use vstd::prelude::*;

verus! {

/// Whether the lowering went from `c0` to `c1`, lost nothing, and left a good scope.
pub open spec fn went_on(c0: LoweringContext, c1: LoweringContext, scope: BlockScope) -> bool {
    grew(c0, c1) && scope_ok(c1@, scope@)
}

/// A literal.
pub struct Literal {
    pub value: Vec<u8>,
    pub ty: TypeId,
}

impl Literal {
    /// Adds the statement.
    pub fn add(self, ctx: &mut LoweringContext<'_>, scope: &mut BlockScope) -> (r: LivingVar)
        requires
            scope_ok(old(ctx)@, old(scope)@),
        ensures
            add_literal(old(ctx).builder, old(ctx)@, old(scope)@, self.value@, self.ty) == (Step {
                c: final(ctx)@,
                s: final(scope)@,
                r,
            }),
            went_on(*old(ctx), *final(ctx), *final(scope)),
            var_ok(final(ctx)@, r),
    {
        let output = ctx.new_var(self.ty);
        proof {
            lemma_later(old(ctx)@, ctx@);
        }
        scope.push_statement(Statement::Literal { ty: self.ty, value: self.value, output });
        output
    }
}

/// The packing of a struct or tuple.
pub struct StructConstruct {
    pub inputs: Vec<LivingVar>,
    pub ty: TypeId,
}

impl StructConstruct {
    /// Adds the statement.
    pub fn add(self, ctx: &mut LoweringContext<'_>, scope: &mut BlockScope) -> (r: LivingVar)
        requires
            scope_ok(old(ctx)@, old(scope)@),
            vars_ok(old(ctx)@, self.inputs@),
        ensures
            add_struct_construct(old(ctx).builder, old(ctx)@, old(scope)@, self.inputs@, self.ty)
                == (Step { c: final(ctx)@, s: final(scope)@, r }),
            went_on(*old(ctx), *final(ctx), *final(scope)),
            var_ok(final(ctx)@, r),
    {
        let output = ctx.new_var(self.ty);
        proof {
            lemma_later(old(ctx)@, ctx@);
        }
        scope.push_statement(Statement::StructConstruct { inputs: self.inputs, output });
        output
    }
}

/// The unpacking of a struct or tuple.
pub struct StructDestructure {
    pub input: LivingVar,
    pub tys: Vec<TypeId>,
}

impl StructDestructure {
    /// Adds the statement.
    pub fn add(self, ctx: &mut LoweringContext<'_>, scope: &mut BlockScope) -> (r: Vec<LivingVar>)
        requires
            scope_ok(old(ctx)@, old(scope)@),
            var_ok(old(ctx)@, self.input),
        ensures
            add_struct_destructure(old(ctx).builder, old(ctx)@, old(scope)@, self.input, self.tys@)
                == (Step { c: final(ctx)@, s: final(scope)@, r: r@ }),
            r@.len() == self.tys@.len(),
            went_on(*old(ctx), *final(ctx), *final(scope)),
            vars_ok(final(ctx)@, r@),
    {
        let outputs = ctx.new_vars(&self.tys);
        proof {
            lemma_later(old(ctx)@, ctx@);
        }
        scope.push_statement(
            Statement::StructDestructure { input: self.input, outputs: copy_vec(&outputs) },
        );
        outputs
    }
}

/// The reading of one member of a struct.
pub struct StructMemberAccess {
    pub input: LivingVar,
    pub member_tys: Vec<TypeId>,
    pub member_idx: usize,
}

impl StructMemberAccess {
    /// Adds the statement that unpacks the struct, and picks the member.
    pub fn add(self, ctx: &mut LoweringContext<'_>, scope: &mut BlockScope) -> (r: LivingVar)
        requires
            scope_ok(old(ctx)@, old(scope)@),
            var_ok(old(ctx)@, self.input),
            self.member_idx < self.member_tys@.len(),
        ensures
            ({
                let step = add_struct_destructure(
                    old(ctx).builder,
                    old(ctx)@,
                    old(scope)@,
                    self.input,
                    self.member_tys@,
                );
                &&& final(ctx)@ == step.c
                &&& final(scope)@ == step.s
                &&& r == step.r[self.member_idx as int]
            }),
            went_on(*old(ctx), *final(ctx), *final(scope)),
            var_ok(final(ctx)@, r),
    {
        let outputs = StructDestructure { input: self.input, tys: self.member_tys }.add(ctx, scope);
        outputs[self.member_idx]
    }
}

/// The making of a value of an enum.
pub struct EnumConstruct {
    pub input: LivingVar,
    pub variant: ConcreteVariant,
}

impl EnumConstruct {
    /// Adds the statement.
    pub fn add(self, ctx: &mut LoweringContext<'_>, scope: &mut BlockScope) -> (r: LivingVar)
        requires
            scope_ok(old(ctx)@, old(scope)@),
            var_ok(old(ctx)@, self.input),
        ensures
            add_enum_construct(old(ctx).builder, old(ctx)@, old(scope)@, self.input, self.variant)
                == (Step { c: final(ctx)@, s: final(scope)@, r }),
            went_on(*old(ctx), *final(ctx), *final(scope)),
            var_ok(final(ctx)@, r),
    {
        let ty = ctx.intern_type(
            TypeLongId::Concrete(ConcreteTypeId::Enum(self.variant.concrete_enum_id)),
        );
        let ghost c1 = ctx@;
        let output = ctx.new_var(ty);
        proof {
            lemma_extends_trans(old(ctx)@, c1, ctx@);
            lemma_later(old(ctx)@, ctx@);
        }
        scope.push_statement(
            Statement::EnumConstruct { variant: self.variant, input: self.input, output },
        );
        output
    }
}

/// What a call gives.
pub struct CallResult {
    pub implicit_outputs: Vec<LivingVar>,
    pub ref_outputs: Vec<LivingVar>,
    pub returned: Vec<LivingVar>,
}

impl View for CallResult {
    type V = CallResultModel;

    open spec fn view(&self) -> CallResultModel {
        CallResultModel {
            implicit_outputs: self.implicit_outputs@,
            ref_outputs: self.ref_outputs@,
            returned: self.returned@,
        }
    }
}

/// A call of a function.
pub struct Call {
    pub function: FunctionId,
    pub inputs: Vec<LivingVar>,
    /// The implicits of the function.
    pub implicit_tys: Vec<TypeId>,
    pub ref_tys: Vec<TypeId>,
    pub ret_tys: Vec<TypeId>,
}

impl Call {
    /// Adds the statement.
    pub fn add(self, ctx: &mut LoweringContext<'_>, scope: &mut BlockScope) -> (r: CallResult)
        requires
            scope_ok(old(ctx)@, old(scope)@),
            vars_ok(old(ctx)@, self.inputs@),
        ensures
            add_call(
                old(ctx).builder,
                old(ctx)@,
                old(scope)@,
                self.function,
                self.inputs@,
                self.implicit_tys@,
                self.ref_tys@,
                self.ret_tys@,
            ) == (Step { c: final(ctx)@, s: final(scope)@, r: r@ }),
            r.implicit_outputs@.len() == self.implicit_tys@.len(),
            r.ref_outputs@.len() == self.ref_tys@.len(),
            r.returned@.len() == self.ret_tys@.len(),
            went_on(*old(ctx), *final(ctx), *final(scope)),
            vars_ok(final(ctx)@, r.implicit_outputs@),
            vars_ok(final(ctx)@, r.ref_outputs@),
            vars_ok(final(ctx)@, r.returned@),
    {
        let implicit_outputs = ctx.new_vars(&self.implicit_tys);
        let ghost c1 = ctx@;
        let ref_outputs = ctx.new_vars(&self.ref_tys);
        let ghost c2 = ctx@;
        let returned = ctx.new_vars(&self.ret_tys);
        proof {
            lemma_extends_trans(old(ctx)@, c1, c2);
            lemma_extends_trans(old(ctx)@, c2, ctx@);
            lemma_extends_trans(c1, c2, ctx@);
            lemma_later(old(ctx)@, ctx@);
            lemma_later(c1, ctx@);
            lemma_later(c2, ctx@);
        }
        let mut outputs = copy_vec(&implicit_outputs);
        extend_copies(&mut outputs, &ref_outputs);
        extend_copies(&mut outputs, &returned);
        assert(vars_ok(ctx@, outputs@));
        scope.push_statement(
            Statement::Call { function: self.function, inputs: self.inputs, outputs },
        );
        CallResult { implicit_outputs, ref_outputs, returned }
    }
}

/// How the blocks of a statement come back to it.
#[derive(Debug)]
pub enum BlockEndInfo {
    /// Some block comes back, with outputs of these types.
    Callsite { push_tys: Vec<TypeId>, maybe_output_ty: Option<TypeId> },
    /// No block comes back.
    End,
}

impl View for BlockEndInfo {
    type V = EndInfoModel;

    open spec fn view(&self) -> EndInfoModel {
        match self {
            BlockEndInfo::Callsite { push_tys, maybe_output_ty } => EndInfoModel::Callsite {
                push_tys: push_tys@,
                maybe_output_ty: *maybe_output_ty,
            },
            BlockEndInfo::End => EndInfoModel::End,
        }
    }
}

/// What a statement with blocks gives.
#[derive(Debug)]
pub enum CallBlockResult {
    /// Some block comes back.
    Callsite { maybe_output: Option<LivingVar>, pushes: Vec<LivingVar> },
    /// No block comes back.
    End,
}

impl View for CallBlockResult {
    type V = CallBlockResultModel;

    open spec fn view(&self) -> CallBlockResultModel {
        match self {
            CallBlockResult::Callsite { maybe_output, pushes } => CallBlockResultModel::Callsite {
                maybe_output: *maybe_output,
                pushes: pushes@,
            },
            CallBlockResult::End => CallBlockResultModel::End,
        }
    }
}

/// Whether the variables that a statement with blocks gives exist, and are as many as `info` says.
pub open spec fn result_ok(
    c: CtxModel,
    info: EndInfoModel,
    r: CallBlockResultModel,
) -> bool {
    match (info, r) {
        (
            EndInfoModel::Callsite { push_tys, maybe_output_ty },
            CallBlockResultModel::Callsite { maybe_output, pushes },
        ) => {
            &&& pushes.len() == push_tys.len()
            &&& vars_ok(c, pushes)
            &&& maybe_output is Some <==> maybe_output_ty is Some
            &&& match maybe_output {
                Some(v) => var_ok(c, v),
                None => true,
            }
        },
        (EndInfoModel::End, CallBlockResultModel::End) => true,
        _ => false,
    }
}

/// Makes the outputs of a statement with blocks.
fn make_outputs(ctx: &mut LoweringContext<'_>, info: &BlockEndInfo) -> (r: (
    Vec<LivingVar>,
    CallBlockResult,
))
    ensures
        final(ctx)@ == new_vars(
            old(ctx).builder,
            old(ctx)@,
            output_tys(info@),
        ),
        r.0@ == fresh_vars(old(ctx)@, output_tys(info@).len()),
        r.1@ == block_result(old(ctx)@, info@),
        result_ok(final(ctx)@, info@, r.1@),
        grew(*old(ctx), *final(ctx)),
        vars_ok(final(ctx)@, r.0@),
{
    match info {
        BlockEndInfo::Callsite { push_tys, maybe_output_ty } => {
            let mut tys = copy_vec(push_tys);
            match maybe_output_ty {
                Some(ty) => {
                    tys.push(*ty);
                },
                None => {},
            }
            let outputs = ctx.new_vars(&tys);
            let mut pushes: Vec<LivingVar> = Vec::new();
            let mut i: usize = 0;
            while i < push_tys.len()
                invariant
                    i <= push_tys@.len() <= outputs@.len(),
                    pushes@ == outputs@.take(i as int),
                decreases push_tys@.len() - i,
            {
                pushes.push(outputs[i]);
                i += 1;
                assert(pushes@ =~= outputs@.take(i as int));
            }
            assert(pushes@ =~= fresh_vars(old(ctx)@, push_tys@.len()));
            let maybe_output = match maybe_output_ty {
                Some(_) => Some(outputs[push_tys.len()]),
                None => None,
            };
            (outputs, CallBlockResult::Callsite { maybe_output, pushes })
        },
        BlockEndInfo::End => {
            let outputs = ctx.new_vars(&Vec::new());
            (outputs, CallBlockResult::End)
        },
    }
}

/// The call of a block.
pub struct CallBlock<'e> {
    pub block: BlockId,
    pub end_info: &'e BlockEndInfo,
}

impl<'e> CallBlock<'e> {
    /// Adds the statement.
    pub fn add(self, ctx: &mut LoweringContext<'_>, scope: &mut BlockScope) -> (r: CallBlockResult)
        requires
            scope_ok(old(ctx)@, old(scope)@),
            callee_ok(
                old(ctx)@,
                old(ctx)@.blocks.len(),
                self.block,
                output_tys(self.end_info@).len(),
            ),
        ensures
            add_call_block(
                old(ctx).builder,
                old(ctx)@,
                old(scope)@,
                self.block,
                self.end_info@,
            ) == (Step { c: final(ctx)@, s: final(scope)@, r: r@ }),
            went_on(*old(ctx), *final(ctx), *final(scope)),
            result_ok(final(ctx)@, self.end_info@, r@),
    {
        let (outputs, r) = make_outputs(ctx, self.end_info);
        proof {
            lemma_later(old(ctx)@, ctx@);
        }
        scope.push_statement(Statement::CallBlock { block: self.block, outputs });
        r
    }
}

/// A match on the variants of an enum.
pub struct MatchEnum<'e> {
    pub input: LivingVar,
    pub concrete_enum_id: ConcreteEnumId,
    pub arms: Vec<(ConcreteVariant, BlockId)>,
    pub end_info: &'e BlockEndInfo,
}

impl<'e> MatchEnum<'e> {
    /// Adds the statement.
    pub fn add(self, ctx: &mut LoweringContext<'_>, scope: &mut BlockScope) -> (r: CallBlockResult)
        requires
            scope_ok(old(ctx)@, old(scope)@),
            var_ok(old(ctx)@, self.input),
            arms_ok(
                old(ctx)@,
                old(ctx)@.blocks.len(),
                self.arms@,
                output_tys(self.end_info@).len(),
            ),
        ensures
            add_match_enum(
                old(ctx).builder,
                old(ctx)@,
                old(scope)@,
                self.concrete_enum_id,
                self.input,
                self.arms@,
                self.end_info@,
            ) == (Step { c: final(ctx)@, s: final(scope)@, r: r@ }),
            went_on(*old(ctx), *final(ctx), *final(scope)),
            result_ok(final(ctx)@, self.end_info@, r@),
    {
        let (outputs, r) = make_outputs(ctx, self.end_info);
        proof {
            lemma_later(old(ctx)@, ctx@);
        }
        scope.push_statement(
            Statement::MatchEnum {
                concrete_enum_id: self.concrete_enum_id,
                input: self.input,
                arms: self.arms,
                outputs,
            },
        );
        r
    }
}

/// A match on the branches of an external function.
pub struct MatchExtern<'e> {
    pub function: FunctionId,
    pub inputs: Vec<LivingVar>,
    pub arms: Vec<(ConcreteVariant, BlockId)>,
    pub end_info: &'e BlockEndInfo,
}

impl<'e> MatchExtern<'e> {
    /// Adds the statement.
    pub fn add(self, ctx: &mut LoweringContext<'_>, scope: &mut BlockScope) -> (r: CallBlockResult)
        requires
            scope_ok(old(ctx)@, old(scope)@),
            vars_ok(old(ctx)@, self.inputs@),
            arms_ok(
                old(ctx)@,
                old(ctx)@.blocks.len(),
                self.arms@,
                output_tys(self.end_info@).len(),
            ),
        ensures
            add_match_extern(
                old(ctx).builder,
                old(ctx)@,
                old(scope)@,
                self.function,
                self.inputs@,
                self.arms@,
                self.end_info@,
            ) == (Step { c: final(ctx)@, s: final(scope)@, r: r@ }),
            went_on(*old(ctx), *final(ctx), *final(scope)),
            result_ok(final(ctx)@, self.end_info@, r@),
    {
        let (outputs, r) = make_outputs(ctx, self.end_info);
        proof {
            lemma_later(old(ctx)@, ctx@);
        }
        scope.push_statement(
            Statement::MatchExtern {
                function: self.function,
                inputs: self.inputs,
                arms: self.arms,
                outputs,
            },
        );
        r
    }
}

} // verus!

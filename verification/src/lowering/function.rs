//! The lowering of whole functions.
use crate::collections::{begins, copy_vec, extend_copies, OrderedMap};
use crate::diagnostics::{DiagnosticAdded, Maybe};
use crate::ids::{BlockId, FunctionWithBodyId, TypeId, VarId};
use crate::lowering::arms::drain_front;
use crate::lowering::bind::{put_implicits, put_variables};
use crate::lowering::context::{LoweringContext, LoweringContextBuilder};
use crate::lowering::keeps::{lemma_extends_refl, lemma_extends_trans};
use crate::lowering::lower::lower_block;
use crate::lowering::merge::BlockFlowMerger;
use crate::lowering::model::{
    bind_refs, ctx_ok, define, end_defined, extends, finalized, merger_with, new_vars, next_block,
    root_merger, sealed_of, subscope_of, with_block, CtxModel, Failure, ScopeModel,
};
use crate::lowering::objects::{
    BlockModel, LoweringDiagnostic, StructuredBlock, StructuredLowered, Variable,
};
use crate::lowering::steps;
use crate::lowering::steps::earlier;
use crate::semantic::db::{FunctionWithBodyEntry, LoweringDb};
use crate::semantic::expr::Expr;
use crate::semantic::imp::{ImplLookupContext, LookupModel};
use crate::semantic::types::{Mutability, Parameter, Signature, TypeInterner, TypeModel};
use vstd::pervasive::unreached;
use vstd::prelude::*;

verus! {

/// The mathematical counterpart of [StructuredLowered].
#[verifier::ext_equal]
pub struct LoweredModel {
    pub diagnostics: Seq<LoweringDiagnostic>,
    pub root: Maybe<BlockId>,
    pub variables: Seq<Variable>,
    pub blocks: Seq<BlockModel>,
}

impl View for StructuredLowered {
    type V = LoweredModel;

    open spec fn view(&self) -> LoweredModel {
        LoweredModel {
            diagnostics: self.diagnostics@,
            root: self.root,
            variables: self.variables@,
            blocks: self.blocks@.map_values(|b: StructuredBlock| b@),
        }
    }
}

/// The variables of the parameters.
pub open spec fn param_vars(params: Seq<Parameter>) -> Seq<VarId> {
    params.map_values(|p: Parameter| VarId::Param(p.id))
}

/// The types of the parameters.
pub open spec fn param_tys(params: Seq<Parameter>) -> Seq<TypeId> {
    params.map_values(|p: Parameter| p.ty)
}

/// The variables of the first `n` parameters that are passed by reference.
pub open spec fn ref_params_of(params: Seq<Parameter>, n: int) -> Seq<VarId>
    decreases n,
{
    if n <= 0 || n > params.len() {
        Seq::empty()
    } else if params[n - 1].mutability == Mutability::Reference {
        ref_params_of(params, n - 1).push(VarId::Param(params[n - 1].id))
    } else {
        ref_params_of(params, n - 1)
    }
}

/// Whether everything that the lowering of the function needs is known.
pub open spec fn is_known(entry: FunctionWithBodyEntry) -> bool {
    &&& entry.signature is Ok
    &&& entry.body is Ok
    &&& entry.implicits is Ok
    &&& entry.generic_params is Ok
}

/// Whether no diagnostics were reported for the function.
pub open spec fn is_clean(entry: FunctionWithBodyEntry) -> bool {
    entry.declaration_diagnostics@.len() == 0 && entry.body_diagnostics@.len() == 0
}

/// Whether the builder is that of the function.
pub open spec fn builds(
    b: LoweringContextBuilder,
    db: LoweringDb,
    entry: FunctionWithBodyEntry,
) -> bool {
    &&& is_known(entry)
    &&& *b.db == db
    &&& *b.function_def == entry.body->Ok_0
    &&& *b.signature == entry.signature->Ok_0
    &&& *b.implicits == entry.implicits->Ok_0
    &&& b.ref_params@ == ref_params_of(b.signature.params@, b.signature.params@.len() as int)
    &&& b.lookup_context@ == (LookupModel {
        module_id: entry.module_id,
        extra_modules: Seq::empty(),
        generic_params: (entry.generic_params->Ok_0)@,
    })
}

/// The definitions of the parameters from the place `i` on.
pub open spec fn define_params(c: CtxModel, params: Seq<Parameter>, i: int) -> CtxModel
    decreases params.len() - i,
{
    if i < 0 || i >= params.len() {
        c
    } else {
        define_params(define(c, VarId::Param(params[i].id), params[i].ty), params, i + 1)
    }
}

/// The state at the start of the lowering of a function.
pub open spec fn first_state(b: &LoweringContextBuilder, types: Seq<TypeModel>) -> CtxModel {
    define_params(
        CtxModel {
            types,
            variables: Seq::empty(),
            blocks: Seq::empty(),
            diagnostics: Seq::empty(),
            semantic_defs: Seq::empty(),
            given_back: b.implicits@.len() + b.ref_params@.len(),
        },
        b.signature.params@,
        0,
    )
}

/// The types of the inputs of the root block: the implicits, then the parameters.
pub open spec fn root_tys(b: &LoweringContextBuilder) -> Seq<TypeId> {
    b.implicits@ + param_tys(b.signature.params@)
}

/// The scope at the start of the root block.
pub open spec fn root_scope(b: &LoweringContextBuilder, c: CtxModel) -> ScopeModel {
    let start = subscope_of(c, root_merger(), root_tys(b));
    let n = b.implicits@.len() as int;
    bind_refs(
        steps::put_variables(
            steps::put_implicits(start, b.implicits@, start.inputs.take(n), 0),
            param_vars(b.signature.params@),
            start.inputs.skip(n),
            0,
        ),
    )
}

/// The state after the lowering of a function, and its root block. Of a function with diagnostics
/// the body is not lowered.
pub open spec fn lower_function(
    b: &LoweringContextBuilder,
    types: Seq<TypeModel>,
    clean: bool,
) -> (CtxModel, Result<BlockId, Failure>) {
    let c0 = first_state(b, types);
    let id = b.function_def.body_expr.0;
    if !clean {
        (c0, Err(Failure::Diagnosed))
    } else if id >= b.function_def.exprs@.len() {
        (c0, Err(Failure::Stuck))
    } else {
        match *b.function_def.exprs@[id as int] {
            Expr::Block(block) => {
                let step = steps::lower_block(
                    b,
                    new_vars(b, c0, root_tys(b)),
                    root_scope(b, c0),
                    earlier(b, id as nat),
                    block,
                    true,
                    0,
                );
                match step.r {
                    Err(failure) => (step.c, Err(failure)),
                    Ok(end) => {
                        let f = finalized(step.c, merger_with(root_merger(), step.s, end));
                        (
                            with_block(step.c, f, sealed_of(step.s, end)),
                            Ok(next_block(step.c)),
                        )
                    },
                }
            },
            _ => (c0, Err(Failure::Stuck)),
        }
    }
}

/// Whether the function has a lowering: what is known of it is the body of a function that type
/// checks.
pub open spec fn has_lowering(
    db: LoweringDb,
    entry: FunctionWithBodyEntry,
    types: Seq<TypeModel>,
) -> bool {
    forall|b: LoweringContextBuilder| #[trigger]
        builds(b, db, entry) ==> end_defined(lower_function(&b, types, is_clean(entry)).1)
}

/// Whether the state and the root block make up the lowered function.
pub open spec fn lowered_from(
    l: LoweredModel,
    types: Seq<TypeModel>,
    c: CtxModel,
    root: Result<BlockId, Failure>,
) -> bool {
    &&& types == c.types
    &&& l.diagnostics == c.diagnostics
    &&& l.variables == c.variables
    &&& l.blocks == c.blocks
    &&& match root {
        Ok(block) => l.root == Ok::<BlockId, DiagnosticAdded>(block),
        Err(_) => l.root is Err,
    }
}

/// How many implicits and reference parameters the function gives back when it is left.
pub open spec fn given_back_of(entry: FunctionWithBodyEntry) -> nat {
    let params = entry.signature->Ok_0.params@;
    (entry.implicits->Ok_0)@.len() + ref_params_of(params, params.len() as int).len()
}

/// Whether every block speaks of variables that exist and of earlier blocks, and gives back every
/// implicit and every reference parameter where it leaves the function, and the root block ends the
/// function.
pub open spec fn lowered_ok(
    l: LoweredModel,
    types: Seq<TypeModel>,
    entry: FunctionWithBodyEntry,
) -> bool {
    &&& ctx_ok(
        CtxModel {
            types,
            variables: l.variables,
            blocks: l.blocks,
            diagnostics: l.diagnostics,
            semantic_defs: Seq::empty(),
            given_back: given_back_of(entry),
        },
    )
    &&& l.root is Ok ==> l.root->Ok_0.0 < l.blocks.len()
    &&& l.root is Ok ==> l.blocks[l.root->Ok_0.0 as int].end !is Callsite
}

impl<'a> LoweringContextBuilder<'a> {
    /// What the lowering of the function needs.
    pub fn new(db: &'a LoweringDb<'a>, function_id: FunctionWithBodyId) -> (r: Maybe<
        LoweringContextBuilder<'a>,
    >)
        requires
            function_id.0 < db.functions_with_body@.len(),
        ensures
            r is Ok <==> is_known(db.functions_with_body@[function_id.0 as int]),
            r is Ok ==> builds(
                r->Ok_0,
                *db,
                db.functions_with_body@[function_id.0 as int],
            ),
    {
        let entry: &'a FunctionWithBodyEntry<'a> = &db.functions_with_body[function_id.0];
        let signature = match &entry.signature {
            Ok(signature) => signature,
            Err(diag_added) => {
                return Err(*diag_added);
            },
        };
        let function_def = match &entry.body {
            Ok(function_def) => function_def,
            Err(diag_added) => {
                return Err(*diag_added);
            },
        };
        let implicits = match &entry.implicits {
            Ok(implicits) => implicits,
            Err(diag_added) => {
                return Err(*diag_added);
            },
        };
        let generic_params = match &entry.generic_params {
            Ok(generic_params) => copy_vec(generic_params),
            Err(diag_added) => {
                return Err(*diag_added);
            },
        };
        let mut ref_params: Vec<VarId> = Vec::new();
        let mut i: usize = 0;
        assert(ref_params@ =~= Seq::empty());
        while i < signature.params.len()
            invariant
                i <= signature.params@.len(),
                ref_params@ == ref_params_of(signature.params@, i as int),
            decreases signature.params@.len() - i,
        {
            let param = &signature.params[i];
            if param.mutability == Mutability::Reference {
                ref_params.push(VarId::Param(param.id));
            }
            i += 1;
        }
        let extra_modules = Vec::new();
        assert(extra_modules@ =~= Seq::empty());
        Ok(
            LoweringContextBuilder {
                db,
                function_def,
                signature,
                implicits,
                ref_params,
                lookup_context: ImplLookupContext {
                    module_id: entry.module_id,
                    extra_modules,
                    generic_params,
                },
            },
        )
    }

    /// The state at the start of the lowering, with its parameters defined.
    pub fn ctx(&'a self, types: TypeInterner) -> (r: LoweringContext<'a>)
        ensures
            r.builder == self,
            r@ == first_state(self, types@),
            ctx_ok(r@),
            r@.types == types@,
    {
        let ghost types0 = types@;
        let mut ctx = LoweringContext {
            builder: self,
            types,
            variables: Vec::new(),
            blocks: Vec::new(),
            diagnostics: Vec::new(),
            semantic_defs: OrderedMap::new(),
        };
        let params = &self.signature.params;
        let mut i: usize = 0;
        proof {
            reveal(ctx_ok);
            assert(ctx@.variables =~= Seq::empty());
            assert(ctx@.blocks =~= Seq::empty());
            assert(ctx@.diagnostics =~= Seq::empty());
        }
        let ghost c0 = ctx@;
        while i < params.len()
            invariant
                i <= params@.len(),
                params@ == self.signature.params@,
                ctx.builder == self,
                ctx@.types == types0,
                ctx_ok(ctx@),
                define_params(c0, params@, 0) == define_params(ctx@, params@, i as int),
            decreases params@.len() - i,
        {
            ctx.define(VarId::Param(params[i].id), params[i].ty);
            i += 1;
        }
        ctx
    }
}

/// The variables and the types of the parameters.
fn params_of(signature: &Signature) -> (r: (Vec<VarId>, Vec<TypeId>))
    ensures
        r.0@ == param_vars(signature.params@),
        r.1@ == param_tys(signature.params@),
{
    let mut vars: Vec<VarId> = Vec::new();
    let mut tys: Vec<TypeId> = Vec::new();
    let mut i: usize = 0;
    while i < signature.params.len()
        invariant
            i <= signature.params@.len(),
            vars@ == param_vars(signature.params@.take(i as int)),
            tys@ == param_tys(signature.params@.take(i as int)),
        decreases signature.params@.len() - i,
    {
        vars.push(VarId::Param(signature.params[i].id));
        tys.push(signature.params[i].ty);
        i += 1;
        assert(vars@ =~= param_vars(signature.params@.take(i as int)));
        assert(tys@ =~= param_tys(signature.params@.take(i as int)));
    }
    assert(signature.params@.take(i as int) =~= signature.params@);
    (vars, tys)
}

/// Lowers the body of the function.
fn lower_root(ctx: &mut LoweringContext<'_>) -> (r: Maybe<BlockId>)
    requires
        ctx_ok(old(ctx)@),
        old(ctx)@ == first_state(old(ctx).builder, old(ctx)@.types),
        end_defined(lower_function(old(ctx).builder, old(ctx)@.types, true).1),
    ensures
        ({
            let (c, root) = lower_function(old(ctx).builder, old(ctx)@.types, true);
            &&& c == final(ctx)@
            &&& match r {
                Ok(block) => root == Ok::<BlockId, Failure>(block),
                Err(_) => root is Err,
            }
        }),
        extends(old(ctx)@, final(ctx)@),
        ctx_ok(final(ctx)@),
        r is Ok ==> r->Ok_0.0 < final(ctx)@.blocks.len(),
        r is Ok ==> final(ctx)@.blocks[r->Ok_0.0 as int].end !is Callsite,
{
    let b = ctx.builder;
    let ghost c0 = ctx@;
    let (input_semantic_var_ids, param_tys) = params_of(b.signature);
    let mut input_var_tys = copy_vec(b.implicits);
    extend_copies(&mut input_var_tys, &param_tys);
    // Fetch body block expr.
    let body_expr = b.function_def.body_expr;
    let semantic_block = match b.function_def.exprs[body_expr.0] {
        Expr::Block(semantic_block) => semantic_block,
        _ => unreached(),
    };
    // Lower block to a BlockSealed.
    let mut merger = BlockFlowMerger::with_root();
    let mut scope = merger.start_subscope(ctx, &input_var_tys);
    let ghost c1 = ctx@;
    let mut variables = copy_vec(&scope.inputs);
    let ghost inputs = variables@;
    let implicit_vars = drain_front(&mut variables, b.implicits.len());
    // Initialize implicits and params.
    put_implicits(&mut scope, copy_vec(b.implicits), implicit_vars);
    put_variables(&mut scope, input_semantic_var_ids, variables);
    scope.bind_refs();
    let end = lower_block(ctx, &mut scope, semantic_block, true, body_expr.0);
    let ghost c2 = ctx@;
    proof {
        lemma_extends_trans(c0, c1, c2);
    }
    let end = match end {
        Ok(end) => end,
        Err(diag_added) => {
            return Err(diag_added);
        },
    };
    let ghost end0 = end@;
    let block_sealed = merger.seal(scope, end);
    let merger_finalized = merger.finalize(ctx);
    assert(ctx.blocks.len() == c2.blocks.len());
    let root = merger_finalized.finalize_block(ctx, block_sealed);
    proof {
        lemma_extends_trans(c0, c2, ctx@);
    }
    Ok(root)
}

/// Lowers a semantic free function.
pub fn lower<'a>(
    db: &'a LoweringDb<'a>,
    types: &mut TypeInterner,
    function_id: FunctionWithBodyId,
) -> (r: Maybe<StructuredLowered>)
    requires
        function_id.0 < db.functions_with_body@.len(),
        has_lowering(*db, db.functions_with_body@[function_id.0 as int], old(types)@),
    ensures
        r is Ok <==> is_known(db.functions_with_body@[function_id.0 as int]),
        r is Err ==> final(types)@ == old(types)@,
        r is Ok ==> exists|b: LoweringContextBuilder| #[trigger]
            builds(b, *db, db.functions_with_body@[function_id.0 as int]) && ({
                let (c, root) = lower_function(
                    &b,
                    old(types)@,
                    is_clean(db.functions_with_body@[function_id.0 as int]),
                );
                lowered_from(r->Ok_0@, final(types)@, c, root)
            }),
        r is Ok ==> lowered_ok(
            r->Ok_0@,
            final(types)@,
            db.functions_with_body@[function_id.0 as int],
        ),
        begins(old(types)@, final(types)@),
{
    let entry = &db.functions_with_body[function_id.0];
    let is_empty_semantic_diagnostics = entry.declaration_diagnostics.len() == 0
        && entry.body_diagnostics.len() == 0;
    let lowering_builder = match LoweringContextBuilder::new(db, function_id) {
        Ok(lowering_builder) => lowering_builder,
        Err(diag_added) => {
            return Err(diag_added);
        },
    };
    let ghost types0 = types@;
    let mut own_types = TypeInterner::new();
    std::mem::swap(types, &mut own_types);
    let mut ctx = lowering_builder.ctx(own_types);
    let ghost c0 = ctx@;
    proof {
        lemma_extends_refl(c0);
        assert(builds(lowering_builder, *db, *entry));
    }
    let root = if is_empty_semantic_diagnostics {
        lower_root(&mut ctx)
    } else {
        Err(DiagnosticAdded)
    };
    proof {
        reveal(extends);
        reveal(ctx_ok);
    }
    let ghost c1 = ctx@;
    std::mem::swap(types, &mut ctx.types);
    let lowered = StructuredLowered {
        diagnostics: ctx.diagnostics,
        root,
        variables: ctx.variables,
        blocks: ctx.blocks,
    };
    proof {
        let (c, root) = lower_function(&lowering_builder, types0, is_clean(*entry));
        assert(c == c1);
        assert(lowered@.blocks =~= c1.blocks);
        assert(lowered_from(lowered@, types@, c, root));
    }
    Ok(lowered)
}

} // verus!

//! What the lowering of a whole function is.
use crate::collections::{lemma_lookup_assign, lookup};
use crate::ids::{TypeId, VarId, VariableId};
use crate::lowering::context::LoweringContextBuilder;
use crate::lowering::expressions::{is_new_of, makes_variables};
use crate::lowering::function::{
    define_params, first_state, lower_function, param_vars, root_scope, root_tys,
};
use crate::lowering::model::{
    define, new_vars, put_implicit, put_semantic_variable, root_merger, subscope_of, CtxModel,
    ScopeEndModel, ScopeModel,
};
use crate::lowering::objects::{BlockEndModel, BlockModel};
use crate::lowering::steps::{earlier, lower_block, put_implicits, put_variables, EndStep};
use crate::semantic::types::{Parameter, TypeModel};
use vstd::prelude::*;

verus! {

proof fn lemma_params_defined(c: CtxModel, params: Seq<Parameter>, i: int, k: int)
    requires
        0 <= i <= params.len(),
        0 <= k < params.len(),
        forall|j: int| k < j < params.len() ==> (#[trigger] params[j]).id != params[k].id,
        k < i ==> lookup(c.semantic_defs, VarId::Param(params[k].id)) == Some(params[k].ty),
    ensures
        ({
            let last = define_params(c, params, i);
            &&& lookup(last.semantic_defs, VarId::Param(params[k].id)) == Some(params[k].ty)
            &&& last.types == c.types
            &&& last.variables == c.variables
            &&& last.blocks == c.blocks
            &&& last.diagnostics == c.diagnostics
        }),
    decreases params.len() - i,
{
    if i < params.len() {
        let id = VarId::Param(params[i].id);
        lemma_lookup_assign(c.semantic_defs, id, params[i].ty);
        lemma_params_defined(define(c, id, params[i].ty), params, i + 1, k);
    }
}

/// A function starts with its parameters defined, each with the type that it is declared with.
pub proof fn parameters_are_defined_with_their_types(
    b: &LoweringContextBuilder,
    types: Seq<TypeModel>,
    k: int,
)
    requires
        0 <= k < b.signature.params@.len(),
        forall|j: int|
            k < j < b.signature.params@.len() ==> (#[trigger] b.signature.params@[j]).id
                != b.signature.params@[k].id,
    ensures
        lookup(
            first_state(b, types).semantic_defs,
            VarId::Param(b.signature.params@[k].id),
        ) == Some(b.signature.params@[k].ty),
{
    let c = CtxModel {
        types,
        variables: Seq::empty(),
        blocks: Seq::empty(),
        diagnostics: Seq::empty(),
        semantic_defs: Seq::empty(),
        given_back: b.implicits@.len() + b.ref_params@.len(),
    };
    lemma_params_defined(c, b.signature.params@, 0, k);
}

/// Whether the block holds the statements of the scope and ends so.
pub open spec fn is_block_that_ends(block: BlockModel, s: ScopeModel, end: ScopeEndModel) -> bool {
    &&& block.inputs == s.inputs
    &&& block.initial_refs == s.initial_refs
    &&& block.statements == s.statements
    &&& match end {
        ScopeEndModel::Return { refs, returned } => block.end == (BlockEndModel::Return {
            refs,
            returned,
        }),
        ScopeEndModel::Panic { refs, data } => block.end == (BlockEndModel::Panic { refs, data }),
        ScopeEndModel::Unreachable => block.end is Unreachable,
        ScopeEndModel::Callsite(_) => block.end is Callsite,
    }
}

/// The types of the inputs of a function: of each implicit, and then of each parameter.
pub open spec fn input_tys(b: &LoweringContextBuilder) -> Seq<TypeId> {
    let n = b.implicits@.len();
    Seq::new(
        n + b.signature.params@.len(),
        |k: int|
            if k < n {
                b.implicits@[k]
            } else {
                b.signature.params@[k - n].ty
            },
    )
}

proof fn lemma_put_frame(
    s: ScopeModel,
    tys: Seq<TypeId>,
    ids: Seq<VarId>,
    vars: Seq<VariableId>,
    i: int,
)
    ensures
        put_implicits(s, tys, vars, i).inputs == s.inputs,
        put_implicits(s, tys, vars, i).statements == s.statements,
        put_implicits(s, tys, vars, i).changed == s.changed,
        put_variables(s, ids, vars, i).inputs == s.inputs,
        put_variables(s, ids, vars, i).statements == s.statements,
        put_variables(s, ids, vars, i).changed == s.changed,
    decreases tys.len() + ids.len() - i,
{
    if 0 <= i < tys.len() + ids.len() {
        lemma_put_frame(
            put_implicit(s, tys[i], vars[i]),
            tys,
            ids,
            vars,
            i + 1,
        );
        lemma_put_frame(
            put_semantic_variable(s, ids[i], vars[i]),
            tys,
            ids,
            vars,
            i + 1,
        );
    }
}

/// The body of a function is the block of its definition. It starts with a new variable for each
/// implicit and each parameter and with no statements, and what its lowering ends with is the last
/// block of the function, which is the root. If it fails, so does the function.
pub proof fn a_function_lowers_its_body(b: &LoweringContextBuilder, types: Seq<TypeModel>) -> (r: (
    CtxModel,
    ScopeModel,
    EndStep,
))
    requires
        b.function_def.body_expr.0 < b.function_def.exprs@.len(),
        b.function_def.exprs@[b.function_def.body_expr.0 as int] is Block,
    ensures
        ({
            let (c1, s1, step) = r;
            let (c, root) = lower_function(b, types, true);
            let id = b.function_def.body_expr.0;
            let block = b.function_def.exprs@[id as int]->Block_0;
            let start = first_state(b, types);
            &&& start.variables.len() == 0
            &&& start.blocks.len() == 0
            &&& start.diagnostics.len() == 0
            &&& start.types == types
            &&& makes_variables(b, start, c1, input_tys(b), s1.inputs)
            &&& c1.types == types
            &&& s1.statements.len() == 0
            &&& s1.changed.len() == 0
            &&& s1.initial_refs == s1.implicits
            &&& step == lower_block(b, c1, s1, earlier(b, id as nat), block, true, 0)
            &&& match step.r {
                Err(_) => root is Err && c == step.c,
                Ok(end) => {
                    &&& root is Ok
                    &&& root->Ok_0.0 == step.c.blocks.len() as usize
                    &&& c.blocks.len() == step.c.blocks.len() + 1
                    &&& forall|i: int|
                        0 <= i < step.c.blocks.len() ==> #[trigger] c.blocks[i]
                            == step.c.blocks[i]
                    &&& is_block_that_ends(c.blocks.last(), step.s, end)
                    &&& c.variables == step.c.variables
                    &&& c.diagnostics == step.c.diagnostics
                    &&& c.types == step.c.types
                },
            }
        }),
{
    let c0 = first_state(b, types);
    let id = b.function_def.body_expr.0;
    let block = b.function_def.exprs@[id as int]->Block_0;
    let tys = root_tys(b);
    let c1 = new_vars(b, c0, tys);
    let s1 = root_scope(b, c0);
    lemma_first(b, types);
    assert(tys =~= input_tys(b));
    let start = subscope_of(c0, root_merger(), tys);
    let n = b.implicits@.len() as int;
    let ids = param_vars(b.signature.params@);
    let with_implicits = put_implicits(start, b.implicits@, start.inputs.take(n), 0);
    lemma_put_frame(start, b.implicits@, ids, start.inputs.take(n), 0);
    lemma_put_frame(with_implicits, b.implicits@, ids, start.inputs.skip(n), 0);
    assert forall|k: int| 0 <= k < tys.len() implies is_new_of(
        b,
        c1.variables[c0.variables.len() + k],
        #[trigger] tys[k],
    ) by {}
    (c1, s1, lower_block(b, c1, s1, earlier(b, id as nat), block, true, 0))
}

proof fn lemma_first(b: &LoweringContextBuilder, types: Seq<TypeModel>)
    ensures
        first_state(b, types).variables.len() == 0,
        first_state(b, types).blocks.len() == 0,
        first_state(b, types).diagnostics.len() == 0,
        first_state(b, types).types == types,
{
    let c = CtxModel {
        types,
        variables: Seq::empty(),
        blocks: Seq::empty(),
        diagnostics: Seq::empty(),
        semantic_defs: Seq::empty(),
        given_back: b.implicits@.len() + b.ref_params@.len(),
    };
    lemma_define_frame(c, b.signature.params@, 0);
}

proof fn lemma_define_frame(c: CtxModel, params: Seq<Parameter>, i: int)
    ensures
        ({
            let last = define_params(c, params, i);
            &&& last.types == c.types
            &&& last.variables == c.variables
            &&& last.blocks == c.blocks
            &&& last.diagnostics == c.diagnostics
        }),
    decreases params.len() - i,
{
    if 0 <= i < params.len() {
        lemma_define_frame(define(c, VarId::Param(params[i].id), params[i].ty), params, i + 1);
    }
}

} // verus!

//! What exists in a state exists in every later state.
use crate::ids::{TypeId, VarId, VariableId};
use crate::lowering::model::{
    arm_ok, block_ok, callee_ok, ctx_ok, end_ok, entries_ok, expr_ok, exprs_ok, extends, flow_ok,
    merger_ok, refs_ok, scope_ok, sealed_ok, statement_ok, statements_ok, var_ok, vars_ok, CtxModel,
    FlowModel, LoweredExprModel, MergerModel, ScopeEndModel, ScopeModel, SealedModel,
    SemanticVariableEntry,
};
use crate::lowering::objects::{StatementModel, StructuredStatementModel};
use vstd::prelude::*;

verus! {

/// A state extends itself.
pub proof fn lemma_extends_refl(c: CtxModel)
    ensures
        extends(c, c),
{
    reveal(extends);
}

/// What extends an extension extends the start.
pub proof fn lemma_extends_trans(c0: CtxModel, c1: CtxModel, c2: CtxModel)
    requires
        extends(c0, c1),
        extends(c1, c2),
    ensures
        extends(c0, c2),
{
    reveal(extends);
}

proof fn lemma_statement_later(c0: CtxModel, c1: CtxModel, n0: nat, n1: nat, s: StatementModel)
    requires
        extends(c0, c1),
        n0 <= n1 <= c1.blocks.len(),
        statement_ok(c0, n0, s),
    ensures
        statement_ok(c1, n1, s),
{
    reveal(extends);
    match s {
        StatementModel::CallBlock { block, outputs } => {
            assert(c1.blocks[block.0 as int] == c0.blocks[block.0 as int]);
        },
        StatementModel::MatchExtern { arms, outputs, .. } => {
            assert forall|i: int| 0 <= i < arms.len() implies callee_ok(
                c1,
                n1,
                (#[trigger] arms[i]).1,
                outputs.len(),
            ) by {
                assert(c1.blocks[arms[i].1.0 as int] == c0.blocks[arms[i].1.0 as int]);
            }
        },
        StatementModel::MatchEnum { arms, outputs, .. } => {
            assert forall|i: int| 0 <= i < arms.len() implies callee_ok(
                c1,
                n1,
                (#[trigger] arms[i]).1,
                outputs.len(),
            ) by {
                assert(c1.blocks[arms[i].1.0 as int] == c0.blocks[arms[i].1.0 as int]);
            }
        },
        _ => {},
    }
}

proof fn lemma_statements_later(
    c0: CtxModel,
    c1: CtxModel,
    n0: nat,
    n1: nat,
    s: Seq<StructuredStatementModel>,
)
    requires
        extends(c0, c1),
        n0 <= n1 <= c1.blocks.len(),
        statements_ok(c0, n0, s),
    ensures
        statements_ok(c1, n1, s),
{
    assert forall|i: int| 0 <= i < s.len() implies statement_ok(c1, n1, (#[trigger] s[i]).statement)
        && refs_ok(c1, s[i].refs) by {
        lemma_statement_later(c0, c1, n0, n1, s[i].statement);
        assert(refs_ok(c0, s[i].refs));
        reveal(extends);
    }
}

proof fn lemma_expr_later(c0: CtxModel, c1: CtxModel, e: LoweredExprModel)
    requires
        extends(c0, c1),
        expr_ok(c0, e),
    ensures
        expr_ok(c1, e),
    decreases e,
{
    reveal(extends);
    reveal_with_fuel(expr_ok, 2);
    match e {
        LoweredExprModel::Tuple(es) => {
            assert forall|i: int| 0 <= i < es.len() implies expr_ok(c1, #[trigger] es[i]) by {
                lemma_expr_later(c0, c1, es[i]);
            }
        },
        _ => {},
    }
}

/// What exists stays.
pub proof fn lemma_later(c0: CtxModel, c1: CtxModel)
    requires
        extends(c0, c1),
    ensures
        forall|v: VariableId| var_ok(c0, v) ==> #[trigger] var_ok(c1, v),
        forall|v: Seq<VariableId>| vars_ok(c0, v) ==> #[trigger] vars_ok(c1, v),
        forall|v: Seq<(TypeId, VariableId)>| refs_ok(c0, v) ==> #[trigger] refs_ok(c1, v),
        forall|v: Seq<(VarId, SemanticVariableEntry)>|
            entries_ok(c0, v) ==> #[trigger] entries_ok(c1, v),
        forall|e: LoweredExprModel| expr_ok(c0, e) ==> #[trigger] expr_ok(c1, e),
        forall|e: Seq<LoweredExprModel>| exprs_ok(c0, e) ==> #[trigger] exprs_ok(c1, e),
        forall|e: FlowModel| flow_ok(c0, e) ==> #[trigger] flow_ok(c1, e),
        forall|e: ScopeEndModel| end_ok(c0, e) ==> #[trigger] end_ok(c1, e),
        forall|s: ScopeModel| scope_ok(c0, s) ==> #[trigger] scope_ok(c1, s),
        forall|m: MergerModel| merger_ok(c0, m) ==> #[trigger] merger_ok(c1, m),
        forall|s: SealedModel| sealed_ok(c0, s) ==> #[trigger] sealed_ok(c1, s),
{
    assert(c0.variables.len() <= c1.variables.len() && c0.blocks.len() <= c1.blocks.len()
        && c0.given_back == c1.given_back) by {
        reveal(extends);
    }
    assert forall|e: LoweredExprModel| expr_ok(c0, e) implies #[trigger] expr_ok(c1, e) by {
        lemma_expr_later(c0, c1, e);
    }
    assert forall|s: ScopeModel| scope_ok(c0, s) implies #[trigger] scope_ok(c1, s) by {
        reveal(scope_ok);
        lemma_statements_later(c0, c1, c0.blocks.len(), c1.blocks.len(), s.statements);
    }
    assert forall|m: MergerModel| merger_ok(c0, m) implies #[trigger] merger_ok(c1, m) by {
        reveal(merger_ok);
        assert forall|i: int| 0 <= i < m.arms.len() implies arm_ok(c1, #[trigger] m.arms[i]) by {
            assert(arm_ok(c0, m.arms[i]));
        }
    }
    assert forall|s: SealedModel| sealed_ok(c0, s) implies #[trigger] sealed_ok(c1, s) by {
        reveal(sealed_ok);
        lemma_statements_later(c0, c1, c0.blocks.len(), c1.blocks.len(), s.statements);
    }
}

/// A state that extends a good one by no block is good.
pub proof fn lemma_ctx_ok_later(c0: CtxModel, c1: CtxModel)
    requires
        extends(c0, c1),
        ctx_ok(c0),
        c1.blocks == c0.blocks,
    ensures
        ctx_ok(c1),
{
    reveal(ctx_ok);
    lemma_later(c0, c1);
    assert(c0.given_back == c1.given_back) by {
        reveal(extends);
    }
    assert forall|i: int| 0 <= i < c1.blocks.len() implies block_ok(
        c1,
        i as nat,
        #[trigger] c1.blocks[i],
    ) by {
        assert(block_ok(c0, i as nat, c0.blocks[i]));
        lemma_statements_later(c0, c1, i as nat, i as nat, c0.blocks[i].statements);
    }
}

/// A good state with one more good block is good.
pub proof fn lemma_ctx_ok_push(c0: CtxModel, c1: CtxModel)
    requires
        extends(c0, c1),
        ctx_ok(c0),
        c1.variables == c0.variables,
        c1.blocks.len() == c0.blocks.len() + 1,
        block_ok(c0, c0.blocks.len(), c1.blocks.last()),
    ensures
        ctx_ok(c1),
{
    reveal(ctx_ok);
    lemma_later(c0, c1);
    assert(c0.given_back == c1.given_back) by {
        reveal(extends);
    }
    assert forall|i: int| 0 <= i < c1.blocks.len() implies block_ok(
        c1,
        i as nat,
        #[trigger] c1.blocks[i],
    ) by {
        if i < c0.blocks.len() {
            assert(c1.blocks[i] == c0.blocks[i]) by {
                reveal(extends);
            }
            assert(block_ok(c0, i as nat, c0.blocks[i]));
            lemma_statements_later(c0, c1, i as nat, i as nat, c0.blocks[i].statements);
        } else {
            lemma_statements_later(c0, c1, i as nat, i as nat, c1.blocks[i].statements);
        }
    }
}

} // verus!

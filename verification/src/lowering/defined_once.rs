//! Every variable of a lowered function is defined once: as an input of one block, or as an output
//! of one statement.
use crate::collections::begins;
use crate::ids::{BlockId, TypeId, VariableId};
use crate::lowering::context::LoweringContextBuilder;
use crate::lowering::model::{
    finalize_statement, fresh_vars, new_vars, next_block, push_statement, sealed_of, with_block,
    CtxModel, FinalizedModel, ScopeEndModel, ScopeModel, SealedModel,
};
use crate::lowering::objects::{BlockModel, StatementModel, StructuredStatementModel};
use crate::lowering::steps::finalize_blocks;
use vstd::prelude::*;

verus! {

/// The variables that a statement defines.
pub open spec fn outputs_of(s: StatementModel) -> Seq<VariableId> {
    match s {
        StatementModel::Literal { output, .. } => seq![output],
        StatementModel::Call { outputs, .. } => outputs,
        StatementModel::CallBlock { outputs, .. } => outputs,
        StatementModel::MatchExtern { outputs, .. } => outputs,
        StatementModel::StructConstruct { output, .. } => seq![output],
        StatementModel::StructDestructure { outputs, .. } => outputs,
        StatementModel::EnumConstruct { output, .. } => seq![output],
        StatementModel::MatchEnum { outputs, .. } => outputs,
    }
}

/// The variables that are defined by the inputs and the statements of a block, in order.
pub open spec fn defs(
    inputs: Seq<VariableId>,
    statements: Seq<StructuredStatementModel>,
) -> Seq<VariableId>
    decreases statements.len(),
{
    if statements.len() == 0 {
        inputs
    } else {
        defs(inputs, statements.drop_last()) + outputs_of(statements.last().statement)
    }
}

/// The variables that a block defines, in order.
pub open spec fn block_defs(b: BlockModel) -> Seq<VariableId> {
    defs(b.inputs, b.statements)
}

/// The variables that the block under construction defines, in order.
pub open spec fn scope_defs(s: ScopeModel) -> Seq<VariableId> {
    defs(s.inputs, s.statements)
}

/// The variables that the sealed block defines, in order.
pub open spec fn sealed_defs(s: SealedModel) -> Seq<VariableId> {
    defs(s.inputs, s.statements)
}

/// Whether the variables are in order, from `lo` on and before `hi`.
pub open spec fn within(d: Seq<VariableId>, lo: nat, hi: nat) -> bool {
    &&& forall|i: int| 0 <= i < d.len() ==> lo <= (#[trigger] d[i]).0 < hi
    &&& forall|i: int, j: int| 0 <= i < j < d.len() ==> (#[trigger] d[i]).0 < (#[trigger] d[j]).0
}

/// Whether no variable is in both.
pub open spec fn apart(d: Seq<VariableId>, e: Seq<VariableId>) -> bool {
    forall|i: int, j: int| 0 <= i < d.len() && 0 <= j < e.len() ==> #[trigger] d[i] != #[trigger] e[j]
}

/// Whether the lists of variables lie from `lo` on and before `hi`, and no variable occurs twice in
/// them.
pub open spec fn pool_ok(pool: Seq<Seq<VariableId>>, lo: nat, hi: nat) -> bool {
    &&& forall|i: int| 0 <= i < pool.len() ==> within(#[trigger] pool[i], lo, hi)
    &&& forall|i: int, j: int|
        0 <= i < j < pool.len() ==> apart(#[trigger] pool[i], #[trigger] pool[j])
}

/// What the blocks define that `c1` has and `c0` has not.
pub open spec fn new_defs(c0: CtxModel, c1: CtxModel) -> Seq<Seq<VariableId>> {
    Seq::new(
        (c1.blocks.len() - c0.blocks.len()) as nat,
        |i: int| block_defs(c1.blocks[c0.blocks.len() + i]),
    )
}

/// What `s1` defines behind what `s0` defines.
pub open spec fn added(s0: ScopeModel, s1: ScopeModel) -> Seq<VariableId> {
    scope_defs(s1).skip(scope_defs(s0).len() as int)
}

/// Whether the step keeps the variables, the blocks and the inputs of the block, and defines new
/// variables only, and each of them once, as far as there are identifiers for all variables.
#[verifier::opaque]
pub open spec fn steps_on(c0: CtxModel, s0: ScopeModel, c1: CtxModel, s1: ScopeModel) -> bool {
    &&& begins(c0.variables, c1.variables)
    &&& begins(c0.blocks, c1.blocks)
    &&& s1.inputs == s0.inputs
    &&& begins(scope_defs(s0), scope_defs(s1))
    &&& c1.variables.len() <= usize::MAX ==> pool_ok(
        new_defs(c0, c1).push(added(s0, s1)),
        c0.variables.len(),
        c1.variables.len(),
    )
}

/// Whether the lowering of blocks that are not added yet kept the variables and the blocks, and
/// defined new variables only, and each of them once.
#[verifier::opaque]
pub open spec fn arms_on(c0: CtxModel, c1: CtxModel, sealed: Seq<SealedModel>) -> bool {
    &&& begins(c0.variables, c1.variables)
    &&& begins(c0.blocks, c1.blocks)
    &&& c1.variables.len() <= usize::MAX ==> pool_ok(
        new_defs(c0, c1) + sealed.map_values(|s: SealedModel| sealed_defs(s)),
        c0.variables.len(),
        c1.variables.len(),
    )
}

// === Pools ===

proof fn lemma_wider(d: Seq<VariableId>, lo0: nat, hi0: nat, lo: nat, hi: nat)
    requires
        within(d, lo0, hi0),
        lo <= lo0,
        hi0 <= hi,
    ensures
        within(d, lo, hi),
{
}

proof fn lemma_apart(d: Seq<VariableId>, e: Seq<VariableId>, lo: nat, mid: nat, hi: nat)
    requires
        within(d, lo, mid),
        within(e, mid, hi),
    ensures
        apart(d, e),
        apart(e, d),
{
    assert forall|i: int, j: int| 0 <= i < d.len() && 0 <= j < e.len() implies #[trigger] d[i]
        != #[trigger] e[j] by {
        assert(d[i].0 < mid);
        assert(mid <= e[j].0);
    }
}

proof fn lemma_join(p: Seq<Seq<VariableId>>, q: Seq<Seq<VariableId>>, lo: nat, mid: nat, hi: nat)
    requires
        pool_ok(p, lo, mid),
        pool_ok(q, mid, hi),
        lo <= mid <= hi,
    ensures
        pool_ok(p + q, lo, hi),
{
    let r = p + q;
    assert forall|i: int| 0 <= i < r.len() implies within(#[trigger] r[i], lo, hi) by {
        if i < p.len() {
            lemma_wider(p[i], lo, mid, lo, hi);
        } else {
            lemma_wider(q[i - p.len()], mid, hi, lo, hi);
        }
    }
    assert forall|i: int, j: int| 0 <= i < j < r.len() implies apart(
        #[trigger] r[i],
        #[trigger] r[j],
    ) by {
        if j < p.len() {
            assert(apart(p[i], p[j]));
        } else if i >= p.len() {
            assert(apart(q[i - p.len()], q[j - p.len()]));
        } else {
            lemma_apart(p[i], q[j - p.len()], lo, mid, hi);
        }
    }
}

/// Two pools come together, and so do their last lists.
proof fn lemma_join_last(
    p: Seq<Seq<VariableId>>,
    d: Seq<VariableId>,
    q: Seq<Seq<VariableId>>,
    e: Seq<VariableId>,
    lo: nat,
    mid: nat,
    hi: nat,
)
    requires
        pool_ok(p.push(d), lo, mid),
        pool_ok(q.push(e), mid, hi),
        lo <= mid <= hi,
    ensures
        pool_ok((p + q).push(d + e), lo, hi),
{
    let (p1, q1) = (p.push(d), q.push(e));
    assert(pool_ok(p, lo, mid)) by {
        assert forall|i: int| 0 <= i < p.len() implies within(#[trigger] p[i], lo, mid) by {
            assert(p1[i] == p[i]);
        }
        assert forall|i: int, j: int| 0 <= i < j < p.len() implies apart(
            #[trigger] p[i],
            #[trigger] p[j],
        ) by {
            assert(p1[i] == p[i] && p1[j] == p[j]);
        }
    }
    assert(pool_ok(q, mid, hi)) by {
        assert forall|i: int| 0 <= i < q.len() implies within(#[trigger] q[i], mid, hi) by {
            assert(q1[i] == q[i]);
        }
        assert forall|i: int, j: int| 0 <= i < j < q.len() implies apart(
            #[trigger] q[i],
            #[trigger] q[j],
        ) by {
            assert(q1[i] == q[i] && q1[j] == q[j]);
        }
    }
    lemma_join(p, q, lo, mid, hi);
    assert(p1[p.len() as int] == d && q1[q.len() as int] == e);
    let de = d + e;
    assert(within(de, lo, hi)) by {
        assert(within(d, lo, mid) && within(e, mid, hi));
        assert forall|i: int, j: int| 0 <= i < j < de.len() implies (#[trigger] de[i]).0 < (
        #[trigger] de[j]).0 by {
            if i < d.len() && j >= d.len() {
                assert(d[i].0 < mid <= e[j - d.len()].0);
            }
        }
    }
    let r = (p + q).push(de);
    assert forall|i: int| 0 <= i < r.len() implies within(#[trigger] r[i], lo, hi) by {
        if i < p.len() + q.len() {
            assert(r[i] == (p + q)[i]);
        }
    }
    assert forall|i: int, j: int| 0 <= i < j < r.len() implies apart(
        #[trigger] r[i],
        #[trigger] r[j],
    ) by {
        if j < p.len() + q.len() {
            assert(r[i] == (p + q)[i] && r[j] == (p + q)[j]);
        } else if i < p.len() {
            assert(p1[i] == p[i]);
            assert(apart(p1[i], p1[p.len() as int]));
            lemma_apart(p[i], e, lo, mid, hi);
            assert forall|k: int, m: int| 0 <= k < p[i].len() && 0 <= m < de.len() implies
                #[trigger] p[i][k] != #[trigger] de[m] by {
                if m < d.len() {
                    assert(p[i][k] != d[m]);
                } else {
                    assert(p[i][k] != e[m - d.len()]);
                }
            }
        } else {
            let qi = q[i - p.len()];
            assert(q1[i - p.len()] == qi);
            assert(apart(q1[i - p.len()], q1[q.len() as int]));
            lemma_apart(d, qi, lo, mid, hi);
            assert forall|k: int, m: int| 0 <= k < qi.len() && 0 <= m < de.len() implies
                #[trigger] qi[k] != #[trigger] de[m] by {
                if m < d.len() {
                    assert(d[m] != qi[k]);
                } else {
                    assert(qi[k] != e[m - d.len()]);
                }
            }
        }
    }
}

// === Steps ===

/// Two steps on end are a step.
pub proof fn lemma_steps_trans(
    c0: CtxModel,
    s0: ScopeModel,
    c1: CtxModel,
    s1: ScopeModel,
    c2: CtxModel,
    s2: ScopeModel,
)
    requires
        steps_on(c0, s0, c1, s1),
        steps_on(c1, s1, c2, s2),
    ensures
        steps_on(c0, s0, c2, s2),
{
    reveal(steps_on);
    if c2.variables.len() <= usize::MAX {
        lemma_join_last(
            new_defs(c0, c1),
            added(s0, s1),
            new_defs(c1, c2),
            added(s1, s2),
            c0.variables.len(),
            c1.variables.len(),
            c2.variables.len(),
        );
        assert(new_defs(c0, c2) =~= new_defs(c0, c1) + new_defs(c1, c2));
        assert(added(s0, s2) =~= added(s0, s1) + added(s1, s2));
    }
}

/// A step that defines nothing.
pub proof fn lemma_quiet(c0: CtxModel, s0: ScopeModel, c1: CtxModel, s1: ScopeModel)
    requires
        c1.variables == c0.variables,
        c1.blocks == c0.blocks,
        s1.inputs == s0.inputs,
        scope_defs(s1) == scope_defs(s0),
    ensures
        steps_on(c0, s0, c1, s1),
{
    reveal(steps_on);
    assert(added(s0, s1) =~= Seq::empty());
    assert(new_defs(c0, c1) =~= Seq::empty());
}

/// A step that adds a statement whose outputs are the next new variables.
pub proof fn lemma_add(
    c0: CtxModel,
    s0: ScopeModel,
    c1: CtxModel,
    s1: ScopeModel,
    statement: StatementModel,
    n: nat,
)
    requires
        c1.blocks == c0.blocks,
        begins(c0.variables, c1.variables),
        c1.variables.len() == c0.variables.len() + n,
        s1 == push_statement(s0, statement),
        c1.variables.len() <= usize::MAX ==> outputs_of(statement) == fresh_vars(c0, n),
    ensures
        steps_on(c0, s0, c1, s1),
{
    reveal(steps_on);
    assert(s1.statements.drop_last() =~= s0.statements);
    assert(scope_defs(s1) == scope_defs(s0) + outputs_of(statement));
    assert(added(s0, s1) =~= outputs_of(statement));
    assert(new_defs(c0, c1) =~= Seq::empty());
    if c1.variables.len() <= usize::MAX {
        let pool = new_defs(c0, c1).push(added(s0, s1));
        assert(pool.len() == 1);
        assert(within(pool[0], c0.variables.len(), c1.variables.len()));
    }
}

/// What a block defines does not depend on where its implicits are.
proof fn lemma_defs_refs(
    inputs: Seq<VariableId>,
    a: Seq<StructuredStatementModel>,
    b: Seq<StructuredStatementModel>,
)
    requires
        a.len() == b.len(),
        forall|i: int| 0 <= i < a.len() ==> (#[trigger] a[i]).statement == b[i].statement,
    ensures
        defs(inputs, a) == defs(inputs, b),
    decreases a.len(),
{
    if a.len() > 0 {
        let (a1, b1) = (a.drop_last(), b.drop_last());
        assert forall|i: int| 0 <= i < a1.len() implies (#[trigger] a1[i]).statement
            == b1[i].statement by {
            assert(a[i].statement == b[i].statement);
        }
        lemma_defs_refs(inputs, a1, b1);
        assert(a[a.len() - 1].statement == b[b.len() - 1].statement);
    }
}

/// The record of the implicits after a statement defines nothing.
pub proof fn lemma_finalize_statement(s: ScopeModel)
    ensures
        finalize_statement(s).inputs == s.inputs,
        scope_defs(finalize_statement(s)) == scope_defs(s),
{
    let t = finalize_statement(s);
    assert forall|i: int| 0 <= i < s.statements.len() implies (#[trigger] s.statements[i]).statement
        == t.statements[i].statement by {}
    lemma_defs_refs(s.inputs, s.statements, t.statements);
}

// === Blocks ===

/// No blocks yet.
pub proof fn lemma_arms_start(c: CtxModel)
    ensures
        arms_on(c, c, Seq::empty()),
{
    reveal(arms_on);
    let none = Seq::<SealedModel>::empty();
    assert(new_defs(c, c) + none.map_values(|s: SealedModel| sealed_defs(s)) =~= Seq::empty());
}

/// The lowering of one more block, from its start at `c1` on.
pub proof fn lemma_arms_push(
    b: &LoweringContextBuilder,
    c0: CtxModel,
    c1: CtxModel,
    tys: Seq<TypeId>,
    start: ScopeModel,
    c2: CtxModel,
    s2: ScopeModel,
    sealed: Seq<SealedModel>,
    end: ScopeEndModel,
)
    requires
        arms_on(c0, c1, sealed),
        start.inputs == fresh_vars(c1, tys.len()),
        start.statements.len() == 0,
        steps_on(new_vars(b, c1, tys), start, c2, s2),
    ensures
        arms_on(c0, c2, sealed.push(sealed_of(s2, end))),
        arms_on(c0, c2, sealed),
{
    reveal(arms_on);
    reveal(steps_on);
    let c3 = new_vars(b, c1, tys);
    let of_sealed = sealed.map_values(|s: SealedModel| sealed_defs(s));
    let last = sealed_of(s2, end);
    let all = sealed.push(last).map_values(|s: SealedModel| sealed_defs(s));
    if c2.variables.len() <= usize::MAX {
        let (lo, mid, hi) = (c0.variables.len(), c1.variables.len(), c2.variables.len());
        let p = new_defs(c0, c1) + of_sealed;
        let q = new_defs(c3, c2);
        let d = added(start, s2);
        assert(scope_defs(start) == start.inputs);
        assert(sealed_defs(last) == scope_defs(s2));
        assert(scope_defs(s2) =~= start.inputs + d);
        // The inputs come before everything that the block defines.
        assert(pool_ok(Seq::<Seq<VariableId>>::empty().push(start.inputs), mid, c3.variables.len()));
        lemma_join_last(
            Seq::empty(),
            start.inputs,
            q,
            d,
            mid,
            c3.variables.len(),
            hi,
        );
        assert((Seq::<Seq<VariableId>>::empty() + q).push(start.inputs + d) =~= q.push(
            scope_defs(s2),
        ));
        lemma_join(p, q.push(scope_defs(s2)), lo, mid, hi);
        let r = p + q.push(scope_defs(s2));
        // The same lists in another order.
        let n = new_defs(c0, c1);
        let pool = new_defs(c0, c2) + all;
        assert(new_defs(c0, c2) =~= n + q);
        assert(pool =~= n + q + of_sealed + seq![scope_defs(s2)]);
        assert forall|i: int| 0 <= i < pool.len() implies within(#[trigger] pool[i], lo, hi) by {
            let k = lemma_place(n, q, of_sealed, scope_defs(s2), i);
            assert(r[k] == pool[i]);
        }
        assert forall|i: int, j: int| 0 <= i < j < pool.len() implies apart(
            #[trigger] pool[i],
            #[trigger] pool[j],
        ) by {
            let k = lemma_place(n, q, of_sealed, scope_defs(s2), i);
            let m = lemma_place(n, q, of_sealed, scope_defs(s2), j);
            assert(r[k] == pool[i] && r[m] == pool[j]);
            if k < m {
                assert(apart(r[k], r[m]));
            } else {
                assert(apart(r[m], r[k]));
            }
        }
        let fewer = new_defs(c0, c2) + of_sealed;
        assert forall|i: int| 0 <= i < fewer.len() implies within(#[trigger] fewer[i], lo, hi) by {
            assert(fewer[i] == pool[i]);
        }
        assert forall|i: int, j: int| 0 <= i < j < fewer.len() implies apart(
            #[trigger] fewer[i],
            #[trigger] fewer[j],
        ) by {
            assert(fewer[i] == pool[i] && fewer[j] == pool[j]);
        }
    }
}

/// The place in `n + s + q + [x]` of what is at the place `i` in `n + q + s + [x]`.
proof fn lemma_place(
    n: Seq<Seq<VariableId>>,
    q: Seq<Seq<VariableId>>,
    s: Seq<Seq<VariableId>>,
    x: Seq<VariableId>,
    i: int,
) -> (k: int)
    requires
        0 <= i < n.len() + q.len() + s.len() + 1,
    ensures
        0 <= k < n.len() + q.len() + s.len() + 1,
        ((n + s) + q.push(x))[k] == (n + q + s + seq![x])[i],
        i < n.len() ==> k == i,
        n.len() <= i < n.len() + q.len() ==> k == i + s.len(),
        n.len() + q.len() <= i < n.len() + q.len() + s.len() ==> k == i - q.len(),
        i == n.len() + q.len() + s.len() ==> k == i,
{
    if i < n.len() {
        i
    } else if i < n.len() + q.len() {
        i + s.len()
    } else if i < n.len() + q.len() + s.len() {
        i - q.len()
    } else {
        i
    }
}

/// The first of the blocks is added.
pub proof fn lemma_arms_finalize(
    c0: CtxModel,
    c: CtxModel,
    f: FinalizedModel,
    x: SealedModel,
    rest: Seq<SealedModel>,
)
    requires
        arms_on(c0, c, seq![x] + rest),
    ensures
        arms_on(c0, with_block(c, f, x), rest),
{
    reveal(arms_on);
    let c1 = with_block(c, f, x);
    let of_rest = rest.map_values(|s: SealedModel| sealed_defs(s));
    let of_all = (seq![x] + rest).map_values(|s: SealedModel| sealed_defs(s));
    assert(block_defs(c1.blocks[c.blocks.len() as int]) == sealed_defs(x));
    assert(new_defs(c0, c1) =~= new_defs(c0, c).push(sealed_defs(x)));
    assert(new_defs(c0, c1) + of_rest =~= new_defs(c0, c) + of_all);
}

/// All blocks from the place `i` on are added.
pub proof fn lemma_arms_finalize_all(
    c0: CtxModel,
    c: CtxModel,
    f: FinalizedModel,
    sealed: Seq<SealedModel>,
    i: int,
    ids: Seq<BlockId>,
)
    requires
        0 <= i <= sealed.len(),
        arms_on(c0, c, sealed.skip(i)),
    ensures
        arms_on(c0, finalize_blocks(c, f, sealed, i, ids).0, Seq::empty()),
        finalize_blocks(c, f, sealed, i, ids).0.diagnostics == c.diagnostics,
    decreases sealed.len() - i,
{
    if i < sealed.len() {
        assert(sealed.skip(i) =~= seq![sealed[i]] + sealed.skip(i + 1));
        lemma_arms_finalize(c0, c, f, sealed[i], sealed.skip(i + 1));
        lemma_arms_finalize_all(
            c0,
            with_block(c, f, sealed[i]),
            f,
            sealed,
            i + 1,
            ids.push(next_block(c)),
        );
    } else {
        assert(sealed.skip(i) =~= Seq::empty());
    }
}

/// When the blocks are added, or given up, that was a step of the scope around them.
pub proof fn lemma_arms_close(
    c0: CtxModel,
    s0: ScopeModel,
    c1: CtxModel,
    s1: ScopeModel,
    sealed: Seq<SealedModel>,
)
    requires
        arms_on(c0, c1, sealed),
        s1.inputs == s0.inputs,
        scope_defs(s1) == scope_defs(s0),
    ensures
        steps_on(c0, s0, c1, s1),
{
    reveal(arms_on);
    reveal(steps_on);
    assert(added(s0, s1) =~= Seq::empty());
    if c1.variables.len() <= usize::MAX {
        let of_sealed = sealed.map_values(|s: SealedModel| sealed_defs(s));
        let all = new_defs(c0, c1) + of_sealed;
        let pool = new_defs(c0, c1).push(added(s0, s1));
        assert forall|i: int| 0 <= i < pool.len() implies within(
            #[trigger] pool[i],
            c0.variables.len(),
            c1.variables.len(),
        ) by {
            if i < new_defs(c0, c1).len() {
                assert(pool[i] == all[i]);
            }
        }
        assert forall|i: int, j: int| 0 <= i < j < pool.len() implies apart(
            #[trigger] pool[i],
            #[trigger] pool[j],
        ) by {
            if j < new_defs(c0, c1).len() {
                assert(pool[i] == all[i] && pool[j] == all[j]);
            }
        }
    }
}

} // verus!

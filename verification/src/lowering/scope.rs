//! Blocks that are being filled.
use crate::collections::{
    assign, contains_key, copy_vec, has_key, is_first, key_index, lemma_unique_keys, lookup,
    unique_keys, without, OrderedMap,
};
use crate::ids::{TypeId, VarId, VariableId};
use crate::lowering::context::{LivingVar, LoweringContext};
use crate::lowering::model::{
    alive_in, bind_refs, ensure_semantic_variable, entries_ok, entry_of, finalize_statement,
    mark_implicit_changed, push_statement, put_implicit, put_semantic_variable, refs_ok, scope_ok,
    statement_ok, statements_ok, take_implicit, take_semantic_variable, use_semantic_variable,
    var_ok, CtxModel, ScopeModel, SemanticVariableEntry,
};
use crate::lowering::objects::{Statement, StructuredStatement, StructuredStatementModel};
use vstd::prelude::*;

verus! {

/// A block that is being filled.
#[derive(Debug)]
pub struct BlockScope {
    pub inputs: Vec<VariableId>,
    /// Where the implicits are at the start of the block.
    pub initial_refs: Vec<(TypeId, VariableId)>,
    pub statements: Vec<StructuredStatement>,
    /// Where the implicits are.
    pub implicits: OrderedMap<TypeId, LivingVar>,
    /// The implicits that were changed since the start of the block.
    pub changed_implicits: Vec<TypeId>,
    /// Where the variables of the source are.
    pub semantic_variables: OrderedMap<VarId, SemanticVariableEntry>,
}

/// The counterparts of statements.
pub open spec fn statement_models(statements: Seq<StructuredStatement>) -> Seq<
    StructuredStatementModel,
> {
    statements.map_values(|s: StructuredStatement| s@)
}

impl View for BlockScope {
    type V = ScopeModel;

    open spec fn view(&self) -> ScopeModel {
        ScopeModel {
            inputs: self.inputs@,
            initial_refs: self.initial_refs@,
            statements: statement_models(self.statements@),
            implicits: self.implicits@,
            changed: self.changed_implicits@,
            vars: self.semantic_variables@,
        }
    }
}

impl SemanticVariableEntry {
    /// The variable that holds the value, if it was not moved.
    pub fn take_var(self) -> (r: Option<LivingVar>)
        ensures
            r == (match self {
                SemanticVariableEntry::Alive(var) => Some(var),
                SemanticVariableEntry::Moved => None,
            }),
    {
        match self {
            SemanticVariableEntry::Alive(var) => Some(var),
            SemanticVariableEntry::Moved => None,
        }
    }
}

proof fn lemma_assign_refs(c: CtxModel, s: Seq<(TypeId, VariableId)>, k: TypeId, v: VariableId)
    requires
        refs_ok(c, s),
        unique_keys(s),
        var_ok(c, v),
    ensures
        refs_ok(c, assign(s, k, v)),
        unique_keys(assign(s, k, v)),
{
    lemma_unique_keys(s, k, v);
    if has_key(s, k) {
        assert(is_first(s, k, key_index(s, k)));
    }
}

proof fn lemma_assign_entries(
    c: CtxModel,
    s: Seq<(VarId, SemanticVariableEntry)>,
    k: VarId,
    e: SemanticVariableEntry,
)
    requires
        entries_ok(c, s),
        unique_keys(s),
        e matches SemanticVariableEntry::Alive(v) ==> var_ok(c, v),
    ensures
        entries_ok(c, assign(s, k, e)),
        unique_keys(assign(s, k, e)),
{
    lemma_unique_keys(s, k, e);
    if has_key(s, k) {
        assert(is_first(s, k, key_index(s, k)));
    }
}

/// A variable that a good scope knows exists.
pub proof fn lemma_alive_ok(c: CtxModel, vars: Seq<(VarId, SemanticVariableEntry)>, id: VarId)
    requires
        entries_ok(c, vars),
        alive_in(vars, id) is Some,
    ensures
        var_ok(c, alive_in(vars, id)->0),
{
    assert(is_first(vars, id, key_index(vars, id)));
}

/// A variable of an implicit that a good scope knows exists.
pub proof fn lemma_implicit_ok(c: CtxModel, implicits: Seq<(TypeId, VariableId)>, ty: TypeId)
    requires
        refs_ok(c, implicits),
        has_key(implicits, ty),
    ensures
        var_ok(c, lookup(implicits, ty)->0),
{
    assert(is_first(implicits, ty, key_index(implicits, ty)));
}

impl BlockScope {
    /// Gives an implicit its variable.
    pub fn put_implicit(&mut self, ty: TypeId, var: LivingVar)
        ensures
            final(self)@ == put_implicit(old(self)@, ty, var),
            forall|c: CtxModel|
                scope_ok(c, old(self)@) && var_ok(c, var) ==> #[trigger] scope_ok(c, final(self)@),
    {
        self.implicits.put(ty, var);
        proof {
            assert forall|c: CtxModel| scope_ok(c, old(self)@) && var_ok(c, var) implies
                #[trigger] scope_ok(c, self@) by {
                reveal(scope_ok);
                lemma_assign_refs(c, old(self)@.implicits, ty, var);
            }
        }
    }

    /// Marks an implicit as changed.
    pub fn mark_implicit_changed(&mut self, ty: TypeId)
        ensures
            final(self)@ == mark_implicit_changed(old(self)@, ty),
            forall|c: CtxModel| scope_ok(c, old(self)@) ==> #[trigger] scope_ok(c, final(self)@),
    {
        if !contains_key(&self.changed_implicits, ty) {
            self.changed_implicits.push(ty);
        }
        proof {
            reveal(scope_ok);
        }
    }

    /// Takes an implicit out of the scope, and marks it as changed.
    pub fn take_implicit(&mut self, ty: TypeId) -> (r: Option<LivingVar>)
        ensures
            r == lookup(old(self)@.implicits, ty),
            final(self)@ == take_implicit(old(self)@, ty),
            forall|c: CtxModel| scope_ok(c, old(self)@) ==> #[trigger] scope_ok(c, final(self)@),
            forall|c: CtxModel|
                scope_ok(c, old(self)@) && r is Some ==> #[trigger] var_ok(c, r->0),
    {
        let r = self.implicits.remove(ty);
        if r.is_some() {
            self.mark_implicit_changed(ty);
        }
        proof {
            reveal(scope_ok);
            let s = old(self)@.implicits;
            if has_key(s, ty) {
                assert(is_first(s, ty, key_index(s, ty)));
                assert forall|c: CtxModel| scope_ok(c, old(self)@) implies #[trigger] scope_ok(
                    c,
                    self@,
                ) by {
                    assert(refs_ok(c, without(s, ty)));
                    lemma_unique_keys(s, ty, s[0].1);
                }
                assert forall|c: CtxModel| scope_ok(c, old(self)@) implies #[trigger] var_ok(
                    c,
                    r->0,
                ) by {
                    lemma_implicit_ok(c, s, ty);
                }
            }
        }
        r
    }

    /// Gives a variable of the source its value.
    pub fn put_semantic_variable(&mut self, id: VarId, var: LivingVar)
        ensures
            final(self)@ == put_semantic_variable(old(self)@, id, var),
            forall|c: CtxModel|
                scope_ok(c, old(self)@) && var_ok(c, var) ==> #[trigger] scope_ok(c, final(self)@),
    {
        self.semantic_variables.put(id, SemanticVariableEntry::Alive(var));
        proof {
            assert forall|c: CtxModel| scope_ok(c, old(self)@) && var_ok(c, var) implies
                #[trigger] scope_ok(c, self@) by {
                reveal(scope_ok);
                lemma_assign_entries(
                    c,
                    old(self)@.vars,
                    id,
                    SemanticVariableEntry::Alive(var),
                );
            }
        }
    }

    /// The value of a variable of the source. It is moved.
    pub fn take_semantic_variable(&mut self, id: VarId) -> (r: SemanticVariableEntry)
        ensures
            r == entry_of(old(self)@, id),
            final(self)@ == take_semantic_variable(old(self)@, id),
            forall|c: CtxModel| scope_ok(c, old(self)@) ==> #[trigger] scope_ok(c, final(self)@),
            forall|c: CtxModel|
                scope_ok(c, old(self)@) && r is Alive ==> #[trigger] var_ok(c, r->Alive_0),
    {
        let entry = self.semantic_variables.get(id);
        match entry {
            Some(SemanticVariableEntry::Alive(var)) => {
                self.semantic_variables.put(id, SemanticVariableEntry::Moved);
                proof {
                    assert forall|c: CtxModel| scope_ok(c, old(self)@) implies #[trigger] scope_ok(
                        c,
                        self@,
                    ) by {
                        reveal(scope_ok);
                        lemma_assign_entries(
                            c,
                            old(self)@.vars,
                            id,
                            SemanticVariableEntry::Moved,
                        );
                    }
                    assert forall|c: CtxModel| scope_ok(c, old(self)@) implies #[trigger] var_ok(
                        c,
                        var,
                    ) by {
                        reveal(scope_ok);
                        lemma_alive_ok(c, old(self)@.vars, id);
                    }
                }
                SemanticVariableEntry::Alive(var)
            },
            _ => SemanticVariableEntry::Moved,
        }
    }

    /// The value of a variable of the source. It is moved, unless it can be duplicated.
    pub fn use_semantic_variable(&mut self, ctx: &LoweringContext<'_>, id: VarId) -> (r:
        SemanticVariableEntry)
        requires
            scope_ok(ctx@, old(self)@),
        ensures
            r == entry_of(old(self)@, id),
            final(self)@ == use_semantic_variable(ctx@, old(self)@, id),
            scope_ok(ctx@, final(self)@),
            r is Alive ==> var_ok(ctx@, r->Alive_0),
    {
        let entry = self.semantic_variables.get(id);
        match entry {
            Some(SemanticVariableEntry::Alive(var)) => {
                proof {
                    reveal(scope_ok);
                    lemma_alive_ok(ctx@, self@.vars, id);
                }
                if ctx.variables[var.0].duplicatable {
                    SemanticVariableEntry::Alive(var)
                } else {
                    self.take_semantic_variable(id)
                }
            },
            _ => SemanticVariableEntry::Moved,
        }
    }

    /// Makes sure that the scope knows a variable of the source.
    pub fn try_ensure_semantic_variable(&mut self, id: VarId)
        ensures
            final(self)@ == ensure_semantic_variable(old(self)@, id),
            forall|c: CtxModel| scope_ok(c, old(self)@) ==> #[trigger] scope_ok(c, final(self)@),
    {
        let entry = self.semantic_variables.get(id);
        if entry.is_none() {
            self.semantic_variables.put(id, SemanticVariableEntry::Moved);
            proof {
                assert forall|c: CtxModel| scope_ok(c, old(self)@) implies #[trigger] scope_ok(
                    c,
                    self@,
                ) by {
                    reveal(scope_ok);
                    lemma_assign_entries(c, old(self)@.vars, id, SemanticVariableEntry::Moved);
                }
            }
        }
    }

    /// Records where the implicits are at the start of the block.
    pub fn bind_refs(&mut self)
        ensures
            final(self)@ == bind_refs(old(self)@),
            forall|c: CtxModel| scope_ok(c, old(self)@) ==> #[trigger] scope_ok(c, final(self)@),
    {
        self.initial_refs = copy_vec(&self.implicits.entries);
        proof {
            reveal(scope_ok);
        }
    }

    /// Records where the implicits are after the last statement.
    pub fn finalize_statement(&mut self)
        ensures
            final(self)@ == finalize_statement(old(self)@),
            forall|c: CtxModel| scope_ok(c, old(self)@) ==> #[trigger] scope_ok(c, final(self)@),
    {
        let last = self.statements.pop();
        match last {
            Some(s) => {
                let refs = copy_vec(&self.implicits.entries);
                self.statements.push(StructuredStatement { statement: s.statement, refs });
                proof {
                    let s0 = old(self)@;
                    assert(s@ == s0.statements.last());
                    assert(self@.statements =~= finalize_statement(s0).statements);
                    assert forall|c: CtxModel| scope_ok(c, s0) implies #[trigger] scope_ok(
                        c,
                        self@,
                    ) by {
                        reveal(scope_ok);
                        assert(statements_ok(c, c.blocks.len(), s0.statements));
                        assert(statement_ok(c, c.blocks.len(), s0.statements.last().statement));
                        assert forall|i: int| 0 <= i < self@.statements.len() implies statement_ok(
                            c,
                            c.blocks.len(),
                            (#[trigger] self@.statements[i]).statement,
                        ) && refs_ok(c, self@.statements[i].refs) by {
                            if i + 1 < self@.statements.len() {
                                assert(self@.statements[i] == s0.statements[i]);
                            }
                        }
                    }
                }
            },
            None => {
                assert(self@.statements =~= old(self)@.statements);
                assert(self@ =~= old(self)@);
            },
        }
    }

    /// Adds a statement.
    pub fn push_statement(&mut self, statement: Statement)
        ensures
            final(self)@ == push_statement(old(self)@, statement@),
            forall|c: CtxModel|
                scope_ok(c, old(self)@) && statement_ok(c, c.blocks.len(), statement@)
                    ==> #[trigger] scope_ok(c, final(self)@),
    {
        let refs = copy_vec(&self.implicits.entries);
        let ghost st = statement@;
        self.statements.push(StructuredStatement { statement, refs });
        proof {
            let s0 = old(self)@;
            assert(self@.statements =~= push_statement(s0, st).statements);
            assert forall|c: CtxModel|
                scope_ok(c, s0) && statement_ok(c, c.blocks.len(), st) implies #[trigger] scope_ok(
                c,
                self@,
            ) by {
                reveal(scope_ok);
                assert forall|i: int| 0 <= i < self@.statements.len() implies statement_ok(
                    c,
                    c.blocks.len(),
                    (#[trigger] self@.statements[i]).statement,
                ) && refs_ok(c, self@.statements[i].refs) by {
                    if i + 1 < self@.statements.len() {
                        assert(self@.statements[i] == s0.statements[i]);
                    }
                }
            }
        }
    }
}

} // verus!

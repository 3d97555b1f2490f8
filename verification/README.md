# cairo_lang

Two stages of the Cairo compiler, written in Verus: the semantic model of `impl` items, and the
lowering of function bodies to blocks of simple statements.

## Layout

- `collections`, `interner`, `ids`, `diagnostics`: small maps and tables, identifiers, and results
  that carry the evidence of a reported failure.
- `semantic`: types, expressions, syntax nodes with what name resolution and type checking found at
  them, and the tables of facts about a program (`db` for the lowering, `program` for impls).
  - `imp`: declarations and definitions of impls, and the lookup of the impls of a trait.
  - `impl_function`: declarations and bodies of the functions of impls, and the comparison of a
    signature with that of the trait.
- `lowering`: the lowering itself.
  - `model` and `steps`: what each step of the lowering does, as mathematics on the state of the
    function (`CtxModel`) and of the block that is being filled (`ScopeModel`).
  - `context`, `scope`, `generators`, `merge`: the executable state, the statements that are added
    to a block, and the blocks of a statement that come together again.
  - `bind`, `external`, `lowered_expr`, `leave`, `pattern`, `calls`, `arms`, `propagate`, `lower`,
    `function`: the executable steps, each with a contract that equates it with its counterpart in
    `steps`.
  - `keeps`, `laws`, `defined_once`, `every_step`: what every step keeps, and what holds of the
    lowering as a whole.
- `outside`: the functions of other crates that are called, and what is taken to hold of them.

## Bodies that have no lowering

The lowering is defined for bodies that type check. A body in which, for example, an expression
comes before one inside it, or a pattern has the wrong number of parts, has no lowering: the model
says `Stuck`, and the contracts leave such a body out. `has_lowering` in `lowering::function` is the
condition on a whole function.

use cairo_lang::collections::OrderedMap;
use cairo_lang::diagnostics::{DiagnosticAdded, Maybe};
use cairo_lang::ids::{
    BlockId, ConcreteEnumId, ConcreteStructId, CrateId, EnumId, ExprId, ExternFunctionId,
    ExternTypeId, FunctionId, FunctionWithBodyId, LocalVarId, MemberId, ModuleFileId, FileIndex,
    ModuleId, ParamId, StatementId, StructId, SyntaxStablePtrId, TypeId, VarId, VariableId,
    VariantId,
};
use cairo_lang::interner::Interner;
use cairo_lang::lowering::function::lower;
use cairo_lang::lowering::objects::{
    LoweringDiagnosticKind, Statement as Lowered, StructuredBlockEnd, StructuredLowered,
};
use cairo_lang::semantic::db::{
    ConcreteEnumEntry, ConcreteVariantEntry, CoreItems, FunctionEntry, FunctionWithBodyEntry,
    LoweringDb, TypeInfoEntry, VariantEntry,
};
use cairo_lang::semantic::diagnostic::{SemanticDiagnostic, SemanticDiagnosticKind};
use cairo_lang::semantic::expr::{
    Expr, ExprAssignment, ExprBlock, ExprEnumVariantCtor, ExprFunctionCall, ExprIf, ExprLiteral,
    ExprMatch, ExprMemberAccess, ExprMissing, ExprPropagateError, ExprStructCtor, ExprTuple,
    ExprVar, FunctionBody, LocalVariable, MatchArm, Pattern, PatternEnumVariant, PatternLiteral,
    PatternOtherwise, PatternStruct, PatternTuple, PatternVariable, Statement, StatementExpr,
    StatementLet, StatementReturn,
};
use cairo_lang::semantic::imp::ImplLookupContext;
use cairo_lang::semantic::types::{
    ConcreteTypeId, ConcreteVariant, Member, Mutability, Parameter, Signature, TypeInfo,
    TypeInterner, TypeLongId, Variant,
};

const UNIT: TypeId = TypeId(0);
const FELT: TypeId = TypeId(1);
const NONZERO: TypeId = TypeId(2);
const BOOL: TypeId = TypeId(3);
const RESULT: TypeId = TypeId(4);
const PAIR: TypeId = TypeId(5);
const STRUCT: TypeId = TypeId(6);
const GAS: TypeId = TypeId(7);

const PANIC: FunctionId = FunctionId(0);
const JUMP_NZ: FunctionId = FunctionId(1);
const PLAIN: FunctionId = FunctionId(2);
const EXTERN_RESULT: FunctionId = FunctionId(3);
const EXTERN_RESULT_REF: FunctionId = FunctionId(4);
const EXTERN_PAIR: FunctionId = FunctionId(5);

fn ptr(n: usize) -> SyntaxStablePtrId {
    SyntaxStablePtrId(n)
}

fn root_module() -> ModuleId {
    ModuleId::CrateRoot(CrateId(0))
}

fn variant(concrete_enum: usize, idx: usize, ty: TypeId) -> ConcreteVariant {
    ConcreteVariant {
        concrete_enum_id: ConcreteEnumId(concrete_enum),
        id: VariantId(10 * concrete_enum + idx),
        ty,
        idx,
    }
}

fn ok_variant() -> ConcreteVariant {
    variant(1, 0, FELT)
}

fn err_variant() -> ConcreteVariant {
    variant(1, 1, PAIR)
}

fn types() -> TypeInterner {
    let mut types = Interner::new();
    types.intern(TypeLongId::Tuple(vec![]));
    types.intern(TypeLongId::Concrete(ConcreteTypeId::Extern(ExternTypeId(0))));
    types.intern(TypeLongId::Concrete(ConcreteTypeId::Extern(ExternTypeId(1))));
    types.intern(TypeLongId::Concrete(ConcreteTypeId::Enum(ConcreteEnumId(0))));
    types.intern(TypeLongId::Concrete(ConcreteTypeId::Enum(ConcreteEnumId(1))));
    types.intern(TypeLongId::Tuple(vec![FELT, FELT]));
    types.intern(TypeLongId::Concrete(ConcreteTypeId::Struct(ConcreteStructId(0))));
    types.intern(TypeLongId::Concrete(ConcreteTypeId::Extern(ExternTypeId(2))));
    types
}

/// What a test says of its function.
struct Facts {
    params: Vec<Parameter>,
    implicits: Vec<TypeId>,
    diagnostics: Vec<SemanticDiagnostic>,
}

fn facts() -> Facts {
    Facts { params: vec![], implicits: vec![], diagnostics: vec![] }
}

fn param(id: usize, ty: TypeId, mutability: Mutability) -> Parameter {
    Parameter { id: ParamId(id), name: format!("p{id}"), ty, mutability }
}

fn info(ty: TypeId, duplicatable: bool) -> TypeInfoEntry {
    TypeInfoEntry {
        context: ImplLookupContext {
            module_id: root_module(),
            extra_modules: vec![],
            generic_params: vec![],
        },
        ty,
        info: Ok(TypeInfo { droppable: true, duplicatable }),
    }
}

fn plain(implicits: Vec<TypeId>) -> FunctionEntry {
    FunctionEntry { implicits: Ok(implicits), extern_function: None }
}

fn external(id: usize) -> FunctionEntry {
    FunctionEntry { implicits: Ok(vec![]), extern_function: Some(ExternFunctionId(id)) }
}

fn database<'a>(entry: FunctionWithBodyEntry<'a>) -> LoweringDb<'a> {
    let mut variable_ptrs = OrderedMap::new();
    for i in 0..4 {
        variable_ptrs.put(VarId::Param(ParamId(i)), ptr(500 + i));
    }
    let of_result = |idx: usize, ty: TypeId| Variant {
        enum_id: EnumId(1),
        id: VariantId(10 + idx),
        ty,
        idx,
    };
    LoweringDb {
        core: CoreItems {
            felt_ty: FELT,
            unit_ty: UNIT,
            nonzero_felt_ty: NONZERO,
            jump_nz_func: JUMP_NZ,
            jump_nz_zero_variant: variant(2, 0, UNIT),
            jump_nz_nonzero_variant: variant(2, 1, NONZERO),
            panic_func: PANIC,
            bool_enum: ConcreteEnumId(0),
            false_variant: variant(0, 0, UNIT),
            true_variant: variant(0, 1, UNIT),
        },
        type_infos: vec![info(FELT, true), info(UNIT, true), info(STRUCT, false)],
        structs: vec![Ok(vec![
            Member { id: MemberId(0), ty: FELT },
            Member { id: MemberId(1), ty: STRUCT },
        ])],
        enums: vec![Err(DiagnosticAdded), Ok(vec![VariantId(10), VariantId(11)])],
        variants: vec![
            VariantEntry {
                enum_id: EnumId(1),
                variant_id: VariantId(10),
                semantic: Ok(of_result(0, FELT)),
            },
            VariantEntry {
                enum_id: EnumId(1),
                variant_id: VariantId(11),
                semantic: Ok(of_result(1, PAIR)),
            },
        ],
        concrete_enums: vec![
            ConcreteEnumEntry { enum_id: EnumId(0), variants: Err(DiagnosticAdded) },
            ConcreteEnumEntry {
                enum_id: EnumId(1),
                variants: Ok(vec![ok_variant(), err_variant()]),
            },
        ],
        concrete_variants: vec![
            ConcreteVariantEntry {
                concrete_enum_id: ConcreteEnumId(1),
                variant: of_result(0, FELT),
                concrete: Ok(ok_variant()),
            },
            ConcreteVariantEntry {
                concrete_enum_id: ConcreteEnumId(1),
                variant: of_result(1, PAIR),
                concrete: Ok(err_variant()),
            },
        ],
        functions: vec![
            plain(vec![]),
            external(9),
            plain(vec![GAS]),
            external(0),
            external(1),
            external(2),
        ],
        extern_functions: vec![Ok(vec![]), Ok(vec![ParamId(0)]), Ok(vec![])],
        functions_with_body: vec![entry],
        variable_ptrs,
    }
}

/// Lowers a function whose body is the last of the expressions.
fn lowered(exprs: &Vec<Expr>, statements: &Vec<Statement>, facts: Facts) -> StructuredLowered {
    let body = FunctionBody {
        exprs: exprs.iter().collect(),
        statements,
        body_expr: ExprId(exprs.len() - 1),
        direct_callees: vec![],
    };
    let db = database(FunctionWithBodyEntry {
        module_id: root_module(),
        declaration_diagnostics: vec![],
        body_diagnostics: facts.diagnostics,
        signature: Ok(Signature {
            params: facts.params,
            return_type: FELT,
            implicits: vec![],
            panicable: true,
        }),
        body: Ok(body),
        implicits: Ok(facts.implicits),
        generic_params: Ok(vec![]),
    });
    let result = lower(&db, &mut types(), FunctionWithBodyId(0)).unwrap();
    if let Ok(root) = result.root {
        assert!(!matches!(result.blocks[root.0].end, StructuredBlockEnd::Callsite(_)));
        assert_eq!(root.0 + 1, result.blocks.len());
    }
    check(&result);
    result
}

/// Every variable is defined in one place, and every block runs earlier ones.
fn check(l: &StructuredLowered) {
    let mut defined = vec![false; l.variables.len()];
    for (i, block) in l.blocks.iter().enumerate() {
        let mut defs = block.inputs.clone();
        for statement in &block.statements {
            let (outputs, callees) = match &statement.statement {
                Lowered::Literal { output, .. } => (vec![*output], vec![]),
                Lowered::Call { outputs, .. } => (outputs.clone(), vec![]),
                Lowered::CallBlock { block, outputs } => (outputs.clone(), vec![*block]),
                Lowered::MatchExtern { arms, outputs, .. } => {
                    (outputs.clone(), arms.iter().map(|(_, b)| *b).collect())
                }
                Lowered::StructConstruct { output, .. } => (vec![*output], vec![]),
                Lowered::StructDestructure { outputs, .. } => (outputs.clone(), vec![]),
                Lowered::EnumConstruct { output, .. } => (vec![*output], vec![]),
                Lowered::MatchEnum { arms, outputs, .. } => {
                    (outputs.clone(), arms.iter().map(|(_, b)| *b).collect())
                }
            };
            for callee in callees {
                assert!(callee.0 < i);
                if let StructuredBlockEnd::Callsite(given) = &l.blocks[callee.0].end {
                    assert_eq!(given.len(), outputs.len());
                }
            }
            defs.extend(outputs);
        }
        for def in defs {
            assert!(!defined[def.0]);
            defined[def.0] = true;
        }
    }
}

fn id(n: usize) -> ExprId {
    ExprId(n)
}

fn literal(value: u8, at: usize) -> Expr {
    Expr::Literal(ExprLiteral { value: vec![value], ty: FELT, stable_ptr: ptr(at) })
}

fn var(v: VarId, ty: TypeId, at: usize) -> Expr {
    Expr::Var(ExprVar { var: v, ty, stable_ptr: ptr(at) })
}

fn p(n: usize) -> VarId {
    VarId::Param(ParamId(n))
}

fn local(n: usize) -> VarId {
    VarId::Local(LocalVarId(n))
}

fn block(statements: Vec<usize>, tail: Option<usize>) -> Expr {
    Expr::Block(ExprBlock {
        statements: statements.into_iter().map(StatementId).collect(),
        tail: tail.map(ExprId),
        ty: FELT,
        stable_ptr: ptr(999),
    })
}

fn bind(n: usize, ty: TypeId) -> Pattern {
    Pattern::Variable(PatternVariable {
        name: format!("l{n}"),
        var: LocalVariable { id: LocalVarId(n), ty },
    })
}

fn otherwise() -> Pattern {
    Pattern::Otherwise(PatternOtherwise { ty: FELT })
}

fn let_stmt(pattern: Pattern, expr: usize, at: usize) -> Statement {
    Statement::Let(StatementLet { pattern, expr: ExprId(expr), stable_ptr: ptr(at) })
}

fn expr_stmt(expr: usize, at: usize) -> Statement {
    Statement::Expr(StatementExpr { expr: ExprId(expr), stable_ptr: ptr(at) })
}

fn return_stmt(expr: usize, at: usize) -> Statement {
    Statement::Return(StatementReturn { expr: ExprId(expr), stable_ptr: ptr(at) })
}

fn call(function: FunctionId, ref_args: Vec<VarId>, args: Vec<usize>, ty: TypeId) -> Expr {
    Expr::FunctionCall(ExprFunctionCall {
        function,
        ref_args,
        args: args.into_iter().map(ExprId).collect(),
        ty,
        stable_ptr: ptr(700),
    })
}

fn match_on(matched: usize, arms: Vec<MatchArm>) -> Expr {
    Expr::Match(ExprMatch { matched_expr: ExprId(matched), arms, ty: FELT, stable_ptr: ptr(800) })
}

fn arm(pattern: Pattern, expression: usize) -> MatchArm {
    MatchArm { pattern, expression: ExprId(expression) }
}

fn enum_pattern(variant: ConcreteVariant, inner: Pattern) -> Pattern {
    Pattern::EnumVariant(PatternEnumVariant { variant, inner_pattern: Box::new(inner), ty: RESULT })
}

fn literal_pattern(value: u8, at: usize) -> Pattern {
    Pattern::Literal(PatternLiteral {
        literal: ExprLiteral { value: vec![value], ty: FELT, stable_ptr: ptr(at) },
        ty: FELT,
    })
}

fn reported(l: &StructuredLowered) -> Vec<(usize, LoweringDiagnosticKind)> {
    l.diagnostics.iter().map(|d| (d.stable_ptr.0, d.kind)).collect()
}

fn v(n: usize) -> VariableId {
    VariableId(n)
}

/// The statements of the block, in short.
fn statements(l: &StructuredLowered, block: usize) -> Vec<String> {
    let vars = |vs: &Vec<VariableId>| vs.iter().map(|v| v.0).collect::<Vec<usize>>();
    l.blocks[block]
        .statements
        .iter()
        .map(|s| match &s.statement {
            Lowered::Literal { value, output, .. } => format!("{} = literal {value:?}", output.0),
            Lowered::Call { function, inputs, outputs } => {
                format!("{:?} = call {}{:?}", vars(outputs), function.0, vars(inputs))
            }
            Lowered::CallBlock { block, outputs } => {
                format!("{:?} = block {}", vars(outputs), block.0)
            }
            Lowered::MatchExtern { function, inputs, arms, outputs } => format!(
                "{:?} = match call {}{:?} {:?}",
                vars(outputs),
                function.0,
                vars(inputs),
                arms.iter().map(|(v, b)| (v.idx, b.0)).collect::<Vec<_>>()
            ),
            Lowered::StructConstruct { inputs, output } => {
                format!("{} = pack {:?}", output.0, vars(inputs))
            }
            Lowered::StructDestructure { input, outputs } => {
                format!("{:?} = unpack {}", vars(outputs), input.0)
            }
            Lowered::EnumConstruct { variant, input, output } => {
                format!("{} = variant {}({})", output.0, variant.idx, input.0)
            }
            Lowered::MatchEnum { concrete_enum_id, input, arms, outputs } => format!(
                "{:?} = match enum {} {} {:?}",
                vars(outputs),
                concrete_enum_id.0,
                input.0,
                arms.iter().map(|(v, b)| (v.idx, b.0)).collect::<Vec<_>>()
            ),
        })
        .collect()
}

/// The end of the block, in short.
fn end(l: &StructuredLowered, block: usize) -> String {
    let vars = |vs: &Vec<VariableId>| vs.iter().map(|v| v.0).collect::<Vec<usize>>();
    match &l.blocks[block].end {
        StructuredBlockEnd::Callsite(outputs) => format!("callsite {:?}", vars(outputs)),
        StructuredBlockEnd::Return { refs, returned } => {
            format!("return {:?} {:?}", vars(refs), vars(returned))
        }
        StructuredBlockEnd::Panic { refs, data } => format!("panic {:?} {}", vars(refs), data.0),
        StructuredBlockEnd::Unreachable => "unreachable".to_string(),
    }
}

fn inputs(l: &StructuredLowered, block: usize) -> Vec<usize> {
    l.blocks[block].inputs.iter().map(|v| v.0).collect()
}

#[test]
fn a_literal_is_returned() {
    let l = lowered(&vec![literal(7, 1), block(vec![], Some(0))], &vec![], facts());
    assert_eq!(l.root, Ok(BlockId(0)));
    assert_eq!(statements(&l, 0), vec!["0 = literal [7]"]);
    assert_eq!(end(&l, 0), "return [] [0]");
    assert_eq!(l.variables.len(), 1);
    assert_eq!(l.variables[0].ty, FELT);
    assert!(l.variables[0].duplicatable);
}

#[test]
fn a_body_without_a_value_returns_the_unit() {
    let l = lowered(&vec![block(vec![], None)], &vec![], facts());
    assert_eq!(statements(&l, 0), vec!["0 = pack []"]);
    assert_eq!(end(&l, 0), "return [] [0]");
    assert_eq!(l.variables[0].ty, UNIT);
}

#[test]
fn implicits_and_references_are_returned() {
    let mut f = facts();
    f.implicits = vec![GAS];
    f.params = vec![
        param(0, FELT, Mutability::Immutable),
        param(1, STRUCT, Mutability::Reference),
    ];
    let l = lowered(&vec![var(p(0), FELT, 1), block(vec![], Some(0))], &vec![], f);
    assert_eq!(inputs(&l, 0), vec![0, 1, 2]);
    assert_eq!(end(&l, 0), "return [0, 2] [1]");
    assert_eq!(l.blocks[0].initial_refs, vec![(GAS, v(0))]);
    let tys: Vec<TypeId> = l.variables.iter().map(|v| v.ty).collect();
    assert_eq!(tys, vec![GAS, FELT, STRUCT]);
}

#[test]
fn a_moved_variable_is_refused() {
    let mut f = facts();
    f.params = vec![param(0, STRUCT, Mutability::Immutable)];
    let exprs = vec![var(p(0), STRUCT, 1), var(p(0), STRUCT, 2), block(vec![0], Some(1))];
    let l = lowered(&exprs, &vec![let_stmt(bind(0, STRUCT), 0, 10)], f);
    assert_eq!(l.root, Err(DiagnosticAdded));
    assert_eq!(reported(&l), vec![(2, LoweringDiagnosticKind::VariableMoved)]);
    assert!(l.blocks.is_empty());
}

#[test]
fn what_can_be_duplicated_is_not_moved() {
    let mut f = facts();
    f.params = vec![param(0, FELT, Mutability::Immutable)];
    let exprs = vec![var(p(0), FELT, 1), var(p(0), FELT, 2), block(vec![0], Some(1))];
    let l = lowered(&exprs, &vec![let_stmt(bind(0, FELT), 0, 10)], f);
    assert!(l.diagnostics.is_empty());
    assert_eq!(end(&l, 0), "return [] [0]");
}

#[test]
fn a_moved_reference_parameter_is_refused() {
    let mut f = facts();
    f.params = vec![param(1, STRUCT, Mutability::Reference)];
    let exprs = vec![var(p(1), STRUCT, 1), block(vec![], Some(0))];
    let l = lowered(&exprs, &vec![], f);
    assert_eq!(l.root, Err(DiagnosticAdded));
    assert_eq!(reported(&l), vec![(501, LoweringDiagnosticKind::VariableMoved)]);
}

#[test]
fn statements_after_a_return_are_unreachable() {
    let exprs = vec![literal(1, 1), literal(2, 2), literal(3, 3), block(vec![0, 1, 2], None)];
    let stmts = vec![return_stmt(0, 11), expr_stmt(1, 12), expr_stmt(2, 13)];
    let l = lowered(&exprs, &stmts, facts());
    assert_eq!(
        reported(&l),
        vec![(12, LoweringDiagnosticKind::Unreachable { last_statement_ptr: ptr(13) })]
    );
    assert_eq!(statements(&l, 0), vec!["0 = literal [1]"]);
    assert_eq!(end(&l, 0), "return [] [0]");
}

#[test]
fn a_missing_expression_fails() {
    let missing =
        Expr::Missing(ExprMissing { ty: FELT, stable_ptr: ptr(1), diag_added: DiagnosticAdded });
    let l = lowered(&vec![missing, block(vec![], Some(0))], &vec![], facts());
    assert_eq!(l.root, Err(DiagnosticAdded));
    assert!(l.diagnostics.is_empty());
}

#[test]
fn a_block_has_its_own_statement() {
    // The block assigns to a parameter, which comes out of it, and leaves another one alone.
    let mut f = facts();
    f.params =
        vec![param(0, FELT, Mutability::Immutable), param(1, STRUCT, Mutability::Reference)];
    let assign = Expr::Assignment(ExprAssignment {
        var: p(0),
        rhs: id(0),
        ty: UNIT,
        stable_ptr: ptr(2),
    });
    let exprs = vec![
        literal(5, 1),
        assign,
        block(vec![0], None),
        var(p(0), FELT, 4),
        block(vec![1], Some(3)),
    ];
    let stmts = vec![expr_stmt(1, 11), expr_stmt(2, 12)];
    let l = lowered(&exprs, &stmts, f);
    assert_eq!(l.root, Ok(BlockId(1)));
    assert_eq!(statements(&l, 0), vec!["2 = literal [5]"]);
    assert_eq!(end(&l, 0), "callsite [2]");
    assert_eq!(statements(&l, 1), vec!["[3] = block 0"]);
    assert_eq!(end(&l, 1), "return [1] [3]");
}

#[test]
fn a_block_that_returns_ends_the_flow() {
    let exprs = vec![literal(1, 1), block(vec![0], None), literal(2, 2), block(vec![1, 2], None)];
    let stmts = vec![return_stmt(0, 11), expr_stmt(1, 12), expr_stmt(2, 13)];
    let l = lowered(&exprs, &stmts, facts());
    assert_eq!(
        reported(&l),
        vec![(13, LoweringDiagnosticKind::Unreachable { last_statement_ptr: ptr(13) })]
    );
    assert_eq!(end(&l, 0), "return [] [0]");
    assert_eq!(statements(&l, 1), vec!["[] = block 0"]);
    assert_eq!(end(&l, 1), "unreachable");
}

#[test]
fn a_tuple_is_packed_when_it_is_needed() {
    let tuple = || {
        Expr::Tuple(ExprTuple { items: vec![id(0), id(1)], ty: PAIR, stable_ptr: ptr(3) })
    };
    // A tuple that is taken apart at once is never made.
    let exprs = vec![literal(1, 1), literal(2, 2), tuple(), var(local(1), FELT, 4), block(vec![0], Some(3))];
    let pattern = || {
        Pattern::Tuple(PatternTuple { field_patterns: vec![otherwise(), bind(1, FELT)], ty: PAIR })
    };
    let l = lowered(&exprs, &vec![let_stmt(pattern(), 2, 10)], facts());
    assert_eq!(statements(&l, 0), vec!["0 = literal [1]", "1 = literal [2]"]);
    assert_eq!(end(&l, 0), "return [] [1]");
    // One that is returned is.
    let exprs = vec![literal(1, 1), literal(2, 2), tuple(), block(vec![], Some(2))];
    let l = lowered(&exprs, &vec![], facts());
    assert_eq!(statements(&l, 0), vec!["0 = literal [1]", "1 = literal [2]", "2 = pack [0, 1]"]);
    assert_eq!(end(&l, 0), "return [] [2]");
    assert_eq!(l.variables[2].ty, PAIR);
    // One that lies in a variable is unpacked.
    let mut f = facts();
    f.params = vec![param(0, PAIR, Mutability::Immutable)];
    let exprs = vec![var(p(0), PAIR, 1), var(local(1), FELT, 4), block(vec![0], Some(1))];
    let l = lowered(&exprs, &vec![let_stmt(pattern(), 0, 10)], f);
    assert_eq!(statements(&l, 0), vec!["[1, 2] = unpack 0"]);
    assert_eq!(end(&l, 0), "return [] [2]");
}

#[test]
fn structs_are_made_and_taken_apart() {
    let mut f = facts();
    f.params = vec![param(0, STRUCT, Mutability::Immutable)];
    // The members are lowered in the order of the struct.
    let make = Expr::StructCtor(ExprStructCtor {
        struct_id: StructId(0),
        members: vec![(MemberId(1), id(0)), (MemberId(0), id(1))],
        ty: STRUCT,
        stable_ptr: ptr(3),
    });
    let access = Expr::MemberAccess(ExprMemberAccess {
        expr: id(2),
        struct_id: StructId(0),
        member: MemberId(0),
        ty: FELT,
        stable_ptr: ptr(4),
    });
    let exprs = vec![var(p(0), STRUCT, 1), literal(9, 2), make, access, block(vec![], Some(3))];
    let l = lowered(&exprs, &vec![], f);
    assert_eq!(
        statements(&l, 0),
        vec!["1 = literal [9]", "2 = pack [1, 0]", "[3, 4] = unpack 2"]
    );
    assert_eq!(end(&l, 0), "return [] [3]");

    let mut f = facts();
    f.params = vec![param(0, STRUCT, Mutability::Immutable)];
    let member = |n: usize, ty: TypeId| Member { id: MemberId(n), ty };
    let pattern = Pattern::Struct(PatternStruct {
        id: StructId(0),
        // Of two patterns for one member it is the last.
        field_patterns: vec![
            (member(1, STRUCT), bind(2, STRUCT)),
            (member(0, FELT), bind(3, FELT)),
            (member(1, STRUCT), bind(4, STRUCT)),
        ],
        ty: STRUCT,
    });
    let exprs = vec![var(p(0), STRUCT, 1), var(local(4), STRUCT, 2), block(vec![0], Some(1))];
    let l = lowered(&exprs, &vec![let_stmt(pattern, 0, 10)], f);
    assert_eq!(statements(&l, 0), vec!["[1, 2] = unpack 0"]);
    assert_eq!(end(&l, 0), "return [] [2]");
}

#[test]
fn members_are_written_in_any_order() {
    let lower_with = |members: Vec<(MemberId, ExprId)>| {
        let mut f = facts();
        f.params = vec![param(0, STRUCT, Mutability::Immutable)];
        let make = Expr::StructCtor(ExprStructCtor {
            struct_id: StructId(0),
            members,
            ty: STRUCT,
            stable_ptr: ptr(3),
        });
        let exprs = vec![var(p(0), STRUCT, 1), literal(9, 2), make, block(vec![], Some(2))];
        let l = lowered(&exprs, &vec![], f);
        (statements(&l, 0), end(&l, 0), l.root)
    };
    let first = lower_with(vec![(MemberId(0), id(1)), (MemberId(1), id(0))]);
    let second = lower_with(vec![(MemberId(1), id(0)), (MemberId(0), id(1))]);
    assert_eq!(first, second);
    assert_eq!(first.0, vec!["1 = literal [9]", "2 = pack [1, 0]"]);
    assert_eq!(first.1, "return [] [2]");
}

#[test]
fn fields_are_taken_in_any_order() {
    let member = |n: usize, ty: TypeId| Member { id: MemberId(n), ty };
    let fields = vec![(member(0, FELT), bind(3, FELT)), (member(1, STRUCT), bind(4, STRUCT))];
    let lower_with = |field_patterns: Vec<(Member, Pattern)>| {
        let mut f = facts();
        f.params = vec![param(0, STRUCT, Mutability::Immutable)];
        let pattern =
            Pattern::Struct(PatternStruct { id: StructId(0), field_patterns, ty: STRUCT });
        let exprs = vec![var(p(0), STRUCT, 1), var(local(4), STRUCT, 2), block(vec![0], Some(1))];
        let l = lowered(&exprs, &vec![let_stmt(pattern, 0, 10)], f);
        (statements(&l, 0), end(&l, 0), l.root)
    };
    let first = lower_with(fields.clone());
    let second = lower_with(fields.iter().rev().cloned().collect());
    assert_eq!(first, second);
    // An earlier pattern of a member does not count.
    let mut longer = vec![(member(1, STRUCT), bind(2, STRUCT))];
    longer.extend(fields);
    assert_eq!(lower_with(longer), first);
    assert_eq!(first.0, vec!["[1, 2] = unpack 0"]);
    assert_eq!(first.1, "return [] [2]");
}

#[test]
fn patterns_are_copied_and_compared() {
    let inner = Pattern::Tuple(PatternTuple {
        field_patterns: vec![bind(0, FELT), otherwise()],
        ty: PAIR,
    });
    let variant_pattern = Pattern::EnumVariant(PatternEnumVariant {
        variant: ok_variant(),
        inner_pattern: Box::new(inner.clone()),
        ty: FELT,
    });
    let literal_pattern = Pattern::Literal(PatternLiteral {
        literal: ExprLiteral { value: vec![1, 2], ty: FELT, stable_ptr: ptr(7) },
        ty: FELT,
    });
    let pattern = Pattern::Struct(PatternStruct {
        id: StructId(0),
        field_patterns: vec![
            (Member { id: MemberId(0), ty: FELT }, variant_pattern.clone()),
            (Member { id: MemberId(1), ty: FELT }, literal_pattern.clone()),
        ],
        ty: STRUCT,
    });
    for p in [&inner, &variant_pattern, &literal_pattern, &pattern] {
        assert_eq!(p.clone(), *p);
    }
    assert_ne!(inner, variant_pattern);
    if let Pattern::Struct(st) = &pattern {
        assert_eq!(st.clone(), *st);
    }
    if let Pattern::Tuple(t) = &inner {
        assert_eq!(t.clone(), *t);
    }
    if let Pattern::EnumVariant(v) = &variant_pattern {
        assert_eq!(v.clone(), *v);
    }
}

#[test]
fn an_unknown_member_or_struct_fails() {
    for (strct, member) in [(0, 7), (3, 0)] {
        let mut f = facts();
        f.params = vec![param(0, STRUCT, Mutability::Immutable)];
        let access = Expr::MemberAccess(ExprMemberAccess {
            expr: id(0),
            struct_id: StructId(strct),
            member: MemberId(member),
            ty: FELT,
            stable_ptr: ptr(4),
        });
        let exprs = vec![var(p(0), STRUCT, 1), access, block(vec![], Some(1))];
        assert_eq!(lowered(&exprs, &vec![], f).root, Err(DiagnosticAdded));
    }
}

#[test]
fn a_call_takes_and_gives_back_implicits_and_references() {
    let mut f = facts();
    f.implicits = vec![GAS];
    f.params = vec![param(0, STRUCT, Mutability::Reference)];
    let exprs = vec![literal(1, 1), call(PLAIN, vec![p(0)], vec![0], FELT), block(vec![], Some(1))];
    let l = lowered(&exprs, &vec![], f);
    // The inputs and outputs are the implicit, the reference, then the others.
    assert_eq!(statements(&l, 0), vec!["2 = literal [1]", "[3, 4, 5] = call 2[0, 1, 2]"]);
    assert_eq!(end(&l, 0), "return [3, 4] [5]");
    assert_eq!(l.blocks[0].statements[0].refs, vec![(GAS, v(0))]);
    assert_eq!(l.blocks[0].statements[1].refs, vec![(GAS, v(3))]);
}

#[test]
fn a_call_without_its_implicits_fails() {
    let exprs = vec![call(PLAIN, vec![], vec![], FELT), block(vec![], Some(0))];
    let l = lowered(&exprs, &vec![], facts());
    assert_eq!(l.root, Err(DiagnosticAdded));
    assert!(l.diagnostics.is_empty());
    let exprs = vec![call(FunctionId(77), vec![], vec![], FELT), block(vec![], Some(0))];
    assert_eq!(lowered(&exprs, &vec![], facts()).root, Err(DiagnosticAdded));
}

#[test]
fn a_reference_cannot_be_passed_twice() {
    let mut f = facts();
    f.implicits = vec![GAS];
    f.params = vec![param(0, FELT, Mutability::Reference)];
    let exprs = vec![call(PLAIN, vec![p(0), p(0)], vec![], FELT), block(vec![], Some(0))];
    let l = lowered(&exprs, &vec![], f);
    assert_eq!(reported(&l), vec![(700, LoweringDiagnosticKind::VariableMoved)]);
    assert_eq!(l.root, Err(DiagnosticAdded));
}

#[test]
fn a_panic_ends_the_flow() {
    let mut f = facts();
    f.implicits = vec![GAS];
    let exprs = vec![literal(1, 1), call(PANIC, vec![], vec![0], FELT), block(vec![], Some(1))];
    let l = lowered(&exprs, &vec![], f);
    assert_eq!(statements(&l, 0), vec!["1 = literal [1]"]);
    assert_eq!(end(&l, 0), "panic [0] 1");
}

#[test]
fn every_expression_gets_a_variable() {
    let lower_with = |second: Expr| {
        let mut f = facts();
        f.implicits = vec![GAS];
        let exprs = vec![
            literal(1, 1),
            literal(2, 2),
            second,
            literal(3, 3),
            call(PLAIN, vec![], vec![0, 2, 3], FELT),
            block(vec![], Some(4)),
        ];
        lowered(&exprs, &vec![], f)
    };
    let l = lower_with(literal(4, 4));
    assert_eq!(
        statements(&l, 0),
        vec!["1 = literal [1]", "2 = literal [4]", "3 = literal [3]", "[4, 5] = call 2[0, 1, 2, 3]"]
    );
    assert_eq!(end(&l, 0), "return [4] [5]");
    // The flow ends in the second argument: the third one and the call are not lowered.
    let l = lower_with(call(PANIC, vec![], vec![1], FELT));
    assert_eq!(statements(&l, 0), vec!["1 = literal [1]", "2 = literal [2]"]);
    assert_eq!(end(&l, 0), "panic [0] 2");
}

#[test]
fn the_root_block_takes_implicits_and_parameters() {
    let mut f = facts();
    f.implicits = vec![GAS];
    f.params = vec![
        param(0, STRUCT, Mutability::Immutable),
        param(1, FELT, Mutability::Immutable),
    ];
    let exprs = vec![var(p(1), FELT, 1), block(vec![], Some(0))];
    let l = lowered(&exprs, &vec![], f);
    assert_eq!(l.root, Ok(BlockId(0)));
    let root = &l.blocks[0];
    assert_eq!(root.inputs, vec![v(0), v(1), v(2)]);
    let tys: Vec<TypeId> = root.inputs.iter().map(|input| l.variables[input.0].ty).collect();
    assert_eq!(tys, vec![GAS, STRUCT, FELT]);
    assert_eq!(root.initial_refs, vec![(GAS, v(0))]);
    assert_eq!(end(&l, 0), "return [0] [2]");
}

#[test]
fn an_external_function_gives_the_parts_of_a_tuple() {
    let call_pair = || call(EXTERN_PAIR, vec![], vec![], PAIR);
    let pattern =
        Pattern::Tuple(PatternTuple { field_patterns: vec![bind(0, FELT), otherwise()], ty: PAIR });
    let exprs = vec![call_pair(), var(local(0), FELT, 2), block(vec![0], Some(1))];
    let l = lowered(&exprs, &vec![let_stmt(pattern, 0, 10)], facts());
    assert_eq!(statements(&l, 0), vec!["[0, 1] = call 5[]"]);
    assert_eq!(end(&l, 0), "return [] [0]");
}

/// A match on the result enum: the value, or a literal.
fn result_arms(first_inner: Pattern, first: usize, second: usize) -> Vec<MatchArm> {
    vec![
        arm(enum_pattern(ok_variant(), first_inner), first),
        arm(enum_pattern(err_variant(), otherwise()), second),
    ]
}

#[test]
fn a_match_on_an_enum_has_a_block_for_each_variant() {
    let mut f = facts();
    f.params = vec![param(0, RESULT, Mutability::Immutable)];
    let exprs = vec![
        var(p(0), RESULT, 1),
        var(local(0), FELT, 2),
        literal(3, 3),
        match_on(0, result_arms(bind(0, FELT), 1, 2)),
        block(vec![], Some(3)),
    ];
    let l = lowered(&exprs, &vec![], f);
    assert_eq!(l.root, Ok(BlockId(2)));
    assert_eq!(inputs(&l, 0), vec![1]);
    assert_eq!(end(&l, 0), "callsite [1]");
    assert_eq!(inputs(&l, 1), vec![2]);
    assert_eq!(statements(&l, 1), vec!["3 = literal [3]"]);
    assert_eq!(end(&l, 1), "callsite [3]");
    assert_eq!(statements(&l, 2), vec!["[4] = match enum 1 0 [(0, 0), (1, 1)]"]);
    assert_eq!(end(&l, 2), "return [] [4]");
}

#[test]
fn what_only_one_arm_moves_is_gone() {
    // The first arm moves the parameter, the second does not.
    let mut f = facts();
    f.params = vec![param(0, RESULT, Mutability::Immutable), param(1, STRUCT, Mutability::Immutable)];
    let exprs = vec![
        var(p(0), RESULT, 1),
        var(p(1), STRUCT, 2),
        block(vec![0], None),
        block(vec![], None),
        match_on(0, result_arms(otherwise(), 2, 3)),
        var(p(1), STRUCT, 6),
        block(vec![1], Some(5)),
    ];
    let stmts = vec![let_stmt(bind(0, STRUCT), 1, 10), expr_stmt(4, 11)];
    let l = lowered(&exprs, &stmts, f);
    assert_eq!(reported(&l), vec![(6, LoweringDiagnosticKind::VariableMoved)]);
}

#[test]
fn what_no_arm_touches_stays() {
    let mut f = facts();
    f.params = vec![param(0, RESULT, Mutability::Immutable), param(1, STRUCT, Mutability::Immutable)];
    let exprs = vec![
        var(p(0), RESULT, 1),
        literal(2, 2),
        literal(3, 3),
        match_on(0, result_arms(otherwise(), 1, 2)),
        var(p(1), STRUCT, 5),
        block(vec![0], Some(4)),
    ];
    let l = lowered(&exprs, &vec![expr_stmt(3, 10)], f);
    assert!(l.diagnostics.is_empty());
    assert_eq!(end(&l, 2), "return [] [1]");
}

#[test]
fn an_implicit_that_no_arm_changes_stays() {
    let mut f = facts();
    f.implicits = vec![GAS];
    f.params = vec![param(0, RESULT, Mutability::Immutable)];
    let exprs = vec![
        var(p(0), RESULT, 1),
        literal(2, 2),
        literal(3, 3),
        match_on(0, result_arms(otherwise(), 1, 2)),
        block(vec![], Some(3)),
    ];
    let l = lowered(&exprs, &vec![], f);
    assert_eq!(end(&l, 0), "callsite [3]");
    assert_eq!(end(&l, 1), "callsite [5]");
    assert_eq!(statements(&l, 2), vec!["[6] = match enum 1 1 [(0, 0), (1, 1)]"]);
    assert_eq!(end(&l, 2), "return [0] [6]");
}

#[test]
fn an_implicit_that_one_arm_changes_comes_out_of_both() {
    let mut f = facts();
    f.implicits = vec![GAS];
    f.params = vec![param(0, RESULT, Mutability::Immutable)];
    let exprs = vec![
        var(p(0), RESULT, 1),
        call(PLAIN, vec![], vec![], FELT),
        literal(3, 3),
        match_on(0, result_arms(otherwise(), 1, 2)),
        block(vec![], Some(3)),
    ];
    let l = lowered(&exprs, &vec![], f);
    assert_eq!(statements(&l, 0), vec!["[3, 4] = call 2[0]"]);
    assert_eq!(end(&l, 0), "callsite [3, 4]");
    assert_eq!(end(&l, 1), "callsite [0, 6]");
    assert_eq!(statements(&l, 2), vec!["[7, 8] = match enum 1 1 [(0, 0), (1, 1)]"]);
    assert_eq!(end(&l, 2), "return [7] [8]");
    assert_eq!(l.blocks[2].statements[0].refs, vec![(GAS, v(7))]);
}

#[test]
fn a_match_needs_an_arm_for_each_variant_in_order() {
    let exprs = |arms: Vec<MatchArm>| {
        vec![
            var(p(0), RESULT, 1),
            literal(2, 2),
            literal(3, 3),
            match_on(0, arms),
            block(vec![], Some(3)),
        ]
    };
    let lower_with = |arms: Vec<MatchArm>| {
        let mut f = facts();
        f.params = vec![param(0, RESULT, Mutability::Immutable)];
        lowered(&exprs(arms), &vec![], f)
    };
    let l = lower_with(vec![arm(enum_pattern(ok_variant(), otherwise()), 1)]);
    assert_eq!(reported(&l), vec![(800, LoweringDiagnosticKind::UnsupportedMatch)]);
    let l = lower_with(vec![
        arm(enum_pattern(err_variant(), otherwise()), 1),
        arm(enum_pattern(ok_variant(), otherwise()), 2),
    ]);
    assert_eq!(reported(&l), vec![(800, LoweringDiagnosticKind::UnsupportedMatchArm)]);
    let l = lower_with(vec![
        arm(enum_pattern(ok_variant(), otherwise()), 1),
        arm(otherwise(), 2),
    ]);
    assert_eq!(reported(&l), vec![(800, LoweringDiagnosticKind::UnsupportedMatchArm)]);
    assert_eq!(l.root, Err(DiagnosticAdded));
}

#[test]
fn a_match_on_something_else_fails() {
    for ty in [UNIT, STRUCT] {
        let mut f = facts();
        f.params = vec![param(0, ty, Mutability::Immutable)];
        let exprs = vec![var(p(0), ty, 1), match_on(0, vec![]), block(vec![], Some(1))];
        let l = lowered(&exprs, &vec![], f);
        assert_eq!(l.root, Err(DiagnosticAdded));
        assert!(l.diagnostics.is_empty());
    }
}

fn felt_match(arms: Vec<MatchArm>) -> StructuredLowered {
    let mut f = facts();
    f.params = vec![param(0, FELT, Mutability::Immutable)];
    let exprs = vec![
        var(p(0), FELT, 1),
        literal(2, 2),
        literal(3, 3),
        match_on(0, arms),
        block(vec![], Some(3)),
    ];
    lowered(&exprs, &vec![], f)
}

#[test]
fn a_felt_is_matched_with_zero() {
    let l = felt_match(vec![arm(literal_pattern(0, 40), 1), arm(otherwise(), 2)]);
    assert!(l.diagnostics.is_empty());
    assert_eq!(inputs(&l, 0), Vec::<usize>::new());
    assert_eq!(statements(&l, 0), vec!["1 = literal [2]"]);
    assert_eq!(end(&l, 0), "callsite [1]");
    assert_eq!(inputs(&l, 1), vec![2]);
    assert_eq!(l.variables[2].ty, NONZERO);
    assert_eq!(end(&l, 1), "callsite [3]");
    assert_eq!(statements(&l, 2), vec!["[4] = match call 1[0] [(0, 0), (1, 1)]"]);
    assert_eq!(end(&l, 2), "return [] [4]");
}

#[test]
fn a_felt_is_matched_with_nothing_but_zero() {
    for value in [1, 128, 255] {
        let l = felt_match(vec![arm(literal_pattern(value, 40), 1), arm(otherwise(), 2)]);
        assert_eq!(reported(&l), vec![(40, LoweringDiagnosticKind::NonZeroValueInMatch)]);
        assert_eq!(l.root, Err(DiagnosticAdded));
    }
    let others = vec![
        vec![],
        vec![arm(literal_pattern(0, 40), 1)],
        vec![arm(otherwise(), 1), arm(literal_pattern(0, 40), 2)],
        vec![arm(literal_pattern(0, 40), 1), arm(literal_pattern(0, 41), 2)],
        vec![arm(literal_pattern(0, 40), 1), arm(otherwise(), 2), arm(otherwise(), 2)],
    ];
    for arms in others {
        let l = felt_match(arms);
        assert_eq!(reported(&l), vec![(800, LoweringDiagnosticKind::OnlyMatchZeroIsSupported)]);
    }
}

#[test]
fn zero_may_be_written_with_any_number_of_bytes() {
    for value in [vec![], vec![0], vec![0, 0, 0]] {
        let pattern = Pattern::Literal(PatternLiteral {
            literal: ExprLiteral { value, ty: FELT, stable_ptr: ptr(40) },
            ty: FELT,
        });
        let l = felt_match(vec![arm(pattern, 1), arm(otherwise(), 2)]);
        assert!(l.root.is_ok());
    }
    let pattern = Pattern::Literal(PatternLiteral {
        literal: ExprLiteral { value: vec![0, 1], ty: FELT, stable_ptr: ptr(40) },
        ty: FELT,
    });
    let l = felt_match(vec![arm(pattern, 1), arm(otherwise(), 2)]);
    assert!(l.root.is_err());
}

#[test]
fn both_blocks_of_a_felt_match_are_lowered() {
    // The first block fails; what is wrong with the second is reported too.
    let mut f = facts();
    f.params = vec![param(0, FELT, Mutability::Immutable)];
    let exprs = vec![
        var(p(0), FELT, 1),
        var(local(7), FELT, 2),
        var(local(8), FELT, 3),
        match_on(0, vec![arm(literal_pattern(0, 40), 1), arm(otherwise(), 2)]),
        block(vec![], Some(3)),
    ];
    let l = lowered(&exprs, &vec![], f);
    assert_eq!(
        reported(&l),
        vec![(2, LoweringDiagnosticKind::VariableMoved), (3, LoweringDiagnosticKind::VariableMoved)]
    );
}

#[test]
fn a_condition_is_a_match_on_a_bool() {
    let mut f = facts();
    f.params = vec![param(0, BOOL, Mutability::Immutable)];
    let cond = Expr::If(ExprIf {
        condition: id(0),
        if_block: id(1),
        else_block: id(2),
        ty: FELT,
        stable_ptr: ptr(4),
    });
    let exprs =
        vec![var(p(0), BOOL, 1), literal(2, 2), literal(3, 3), cond, block(vec![], Some(3))];
    let l = lowered(&exprs, &vec![], f);
    assert_eq!(statements(&l, 0), vec!["2 = literal [2]"]);
    assert_eq!(statements(&l, 1), vec!["4 = literal [3]"]);
    assert_eq!(statements(&l, 2), vec!["[5] = match enum 0 0 [(0, 1), (1, 0)]"]);
    assert_eq!(l.variables[1].ty, UNIT);
    assert_eq!(end(&l, 2), "return [] [5]");
}

#[test]
fn a_match_on_an_external_call_is_one_statement() {
    let exprs = vec![
        call(EXTERN_RESULT, vec![], vec![], RESULT),
        var(local(0), FELT, 2),
        var(local(1), FELT, 3),
        match_on(
            0,
            vec![
                arm(enum_pattern(ok_variant(), bind(0, FELT)), 1),
                arm(
                    enum_pattern(
                        err_variant(),
                        Pattern::Tuple(PatternTuple {
                            field_patterns: vec![otherwise(), bind(1, FELT)],
                            ty: PAIR,
                        }),
                    ),
                    2,
                ),
            ],
        ),
        block(vec![], Some(3)),
    ];
    let l = lowered(&exprs, &vec![], facts());
    assert_eq!(inputs(&l, 0), vec![0]);
    assert_eq!(end(&l, 0), "callsite [0]");
    // The branch gives the parts of the pair.
    assert_eq!(inputs(&l, 1), vec![1, 2]);
    assert_eq!(end(&l, 1), "callsite [2]");
    assert_eq!(statements(&l, 2), vec!["[3] = match call 3[] [(0, 0), (1, 1)]"]);
}

#[test]
fn a_match_on_an_external_call_needs_its_arms() {
    let exprs = |arms: Vec<MatchArm>| {
        vec![
            call(EXTERN_RESULT, vec![], vec![], RESULT),
            literal(2, 2),
            match_on(0, arms),
            block(vec![], Some(2)),
        ]
    };
    // The wrong number of arms is reported elsewhere.
    let l = lowered(&exprs(vec![]), &vec![], facts());
    assert_eq!(l.root, Err(DiagnosticAdded));
    assert!(l.diagnostics.is_empty());
    let arms = vec![arm(otherwise(), 1), arm(otherwise(), 1)];
    let l = lowered(&exprs(arms), &vec![], facts());
    assert_eq!(reported(&l), vec![(700, LoweringDiagnosticKind::UnsupportedMatchArm)]);
    let arms = vec![
        arm(enum_pattern(err_variant(), otherwise()), 1),
        arm(enum_pattern(ok_variant(), otherwise()), 1),
    ];
    let l = lowered(&exprs(arms), &vec![], facts());
    assert_eq!(reported(&l), vec![(700, LoweringDiagnosticKind::UnsupportedMatchArm)]);
}

#[test]
fn an_external_call_waits_until_its_result_is_used() {
    // As a statement, it is stored; each branch makes the value of the enum.
    let exprs = vec![call(EXTERN_RESULT, vec![], vec![], RESULT), literal(1, 1), block(vec![0], Some(1))];
    let l = lowered(&exprs, &vec![expr_stmt(0, 10)], facts());
    assert_eq!(statements(&l, 0), vec!["1 = variant 0(0)"]);
    assert_eq!(end(&l, 0), "callsite [1]");
    assert_eq!(statements(&l, 1), vec!["4 = pack [2, 3]", "5 = variant 1(4)"]);
    assert_eq!(end(&l, 1), "callsite [5]");
    assert_eq!(
        statements(&l, 2),
        vec!["[6] = match call 3[] [(0, 0), (1, 1)]", "7 = literal [1]"]
    );
    assert_eq!(l.variables[6].ty, RESULT);
    // A pattern that binds nothing never performs it.
    let exprs = vec![call(EXTERN_RESULT, vec![], vec![], RESULT), literal(1, 1), block(vec![0], Some(1))];
    let l = lowered(&exprs, &vec![let_stmt(otherwise(), 0, 10)], facts());
    assert_eq!(statements(&l, 0), vec!["0 = literal [1]"]);
}

#[test]
fn an_external_call_with_references_is_performed_at_once() {
    let mut f = facts();
    f.params = vec![param(0, STRUCT, Mutability::Reference)];
    let exprs = vec![
        call(EXTERN_RESULT_REF, vec![p(0)], vec![], RESULT),
        block(vec![], Some(0)),
    ];
    let l = lowered(&exprs, &vec![], f);
    // Each branch gives the reference back, then its own value.
    assert_eq!(inputs(&l, 0), vec![1, 2]);
    assert_eq!(statements(&l, 0), vec!["3 = variant 0(2)"]);
    assert_eq!(end(&l, 0), "callsite [1, 3]");
    assert_eq!(inputs(&l, 1), vec![4, 5, 6]);
    assert_eq!(statements(&l, 1), vec!["7 = pack [5, 6]", "8 = variant 1(7)"]);
    assert_eq!(end(&l, 1), "callsite [4, 8]");
    assert_eq!(statements(&l, 2), vec!["[9, 10] = match call 4[0] [(0, 0), (1, 1)]"]);
    assert_eq!(end(&l, 2), "return [9] [10]");
}

fn propagate(inner: usize) -> Expr {
    Expr::PropagateError(ExprPropagateError {
        inner: id(inner),
        ok_variant: ok_variant(),
        err_variant: err_variant(),
        func_err_variant: err_variant(),
        ty: FELT,
        stable_ptr: ptr(5),
    })
}

#[test]
fn an_error_leaves_the_function() {
    let mut f = facts();
    f.implicits = vec![GAS];
    f.params = vec![param(0, RESULT, Mutability::Immutable)];
    let exprs = vec![var(p(0), RESULT, 1), propagate(0), block(vec![], Some(1))];
    let l = lowered(&exprs, &vec![], f);
    assert_eq!(inputs(&l, 0), vec![2]);
    assert_eq!(end(&l, 0), "callsite [2]");
    assert_eq!(inputs(&l, 1), vec![3]);
    assert_eq!(statements(&l, 1), vec!["4 = variant 1(3)"]);
    assert_eq!(end(&l, 1), "return [0] [4]");
    assert_eq!(statements(&l, 2), vec!["[5] = match enum 1 1 [(0, 0), (1, 1)]"]);
    assert_eq!(end(&l, 2), "return [0] [5]");
}

#[test]
fn an_error_of_an_external_call_leaves_the_function() {
    let exprs = vec![
        call(EXTERN_RESULT, vec![], vec![], RESULT),
        propagate(0),
        block(vec![], Some(1)),
    ];
    let l = lowered(&exprs, &vec![], facts());
    assert_eq!(inputs(&l, 0), vec![0]);
    assert_eq!(end(&l, 0), "callsite [0]");
    assert_eq!(inputs(&l, 1), vec![1, 2]);
    assert_eq!(statements(&l, 1), vec!["3 = pack [1, 2]", "4 = variant 1(3)"]);
    assert_eq!(end(&l, 1), "return [] [4]");
    assert_eq!(statements(&l, 2), vec!["[5] = match call 3[] [(0, 0), (1, 1)]"]);
    assert_eq!(end(&l, 2), "return [] [5]");
}

#[test]
fn a_propagation_fails_where_the_function_cannot_be_left() {
    // The reference parameter was moved before.
    let mut f = facts();
    f.params = vec![
        param(0, RESULT, Mutability::Immutable),
        param(1, STRUCT, Mutability::Reference),
    ];
    let exprs =
        vec![var(p(1), STRUCT, 1), var(p(0), RESULT, 2), propagate(1), block(vec![0], Some(2))];
    let l = lowered(&exprs, &vec![let_stmt(bind(0, STRUCT), 0, 10)], f);
    assert_eq!(reported(&l), vec![(501, LoweringDiagnosticKind::VariableMoved)]);
    assert_eq!(l.root, Err(DiagnosticAdded));
}

#[test]
fn the_value_of_an_enum_is_made() {
    let make = Expr::EnumVariantCtor(ExprEnumVariantCtor {
        variant: ok_variant(),
        value_expr: id(0),
        ty: RESULT,
        stable_ptr: ptr(2),
    });
    let l = lowered(&vec![literal(1, 1), make, block(vec![], Some(1))], &vec![], facts());
    assert_eq!(statements(&l, 0), vec!["0 = literal [1]", "1 = variant 0(0)"]);
    assert_eq!(l.variables[1].ty, RESULT);
}

#[test]
fn arguments_after_the_end_of_the_flow_are_not_lowered() {
    let mut f = facts();
    f.implicits = vec![GAS];
    let exprs = vec![
        literal(1, 1),
        block(vec![0], None),
        literal(2, 2),
        call(PLAIN, vec![], vec![1, 2], FELT),
        block(vec![], Some(3)),
    ];
    let l = lowered(&exprs, &vec![return_stmt(0, 10)], f);
    assert_eq!(end(&l, 0), "return [0] [1]");
    assert_eq!(statements(&l, 1), vec!["[] = block 0"]);
    assert_eq!(end(&l, 1), "unreachable");
    assert_eq!(l.variables.len(), 2);
}

#[test]
fn a_function_with_diagnostics_is_not_lowered() {
    let mut f = facts();
    f.diagnostics = vec![SemanticDiagnostic {
        module_file_id: ModuleFileId(root_module(), FileIndex(0)),
        stable_ptr: ptr(1),
        kind: SemanticDiagnosticKind::Other(0),
    }];
    let l = lowered(&vec![literal(7, 1), block(vec![], Some(0))], &vec![], f);
    assert_eq!(l.root, Err(DiagnosticAdded));
    assert!(l.blocks.is_empty());
    assert!(l.variables.is_empty());
    assert!(l.diagnostics.is_empty());
}

#[test]
fn a_function_that_is_not_known_is_not_lowered() {
    let body: Maybe<FunctionBody> = Err(DiagnosticAdded);
    let db = database(FunctionWithBodyEntry {
        module_id: root_module(),
        declaration_diagnostics: vec![],
        body_diagnostics: vec![],
        signature: Ok(Signature {
            params: vec![],
            return_type: FELT,
            implicits: vec![],
            panicable: true,
        }),
        body,
        implicits: Ok(vec![]),
        generic_params: Ok(vec![]),
    });
    let mut types = types();
    assert!(lower(&db, &mut types, FunctionWithBodyId(0)).is_err());
    assert_eq!(types.items.len(), 8);
}

#[test]
fn new_types_are_added_behind_the_others() {
    let tuple = Expr::Tuple(ExprTuple { items: vec![id(0)], ty: PAIR, stable_ptr: ptr(3) });
    let exprs = vec![literal(1, 1), tuple, block(vec![], Some(1))];
    let no_statements = vec![];
    let body = FunctionBody {
        exprs: exprs.iter().collect(),
        statements: &no_statements,
        body_expr: ExprId(2),
        direct_callees: vec![],
    };
    let db = database(FunctionWithBodyEntry {
        module_id: root_module(),
        declaration_diagnostics: vec![],
        body_diagnostics: vec![],
        signature: Ok(Signature {
            params: vec![],
            return_type: FELT,
            implicits: vec![],
            panicable: true,
        }),
        body: Ok(body),
        implicits: Ok(vec![]),
        generic_params: Ok(vec![]),
    });
    let mut types = types();
    let l = lower(&db, &mut types, FunctionWithBodyId(0)).unwrap();
    assert_eq!(types.items.len(), 9);
    assert_eq!(l.variables[1].ty, TypeId(8));
    assert_eq!(format!("{:?}", types.lookup(8).unwrap()), "Tuple([TypeId(1)])");
}

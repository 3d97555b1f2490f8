//! The bodies of functions.
use crate::collections::copy_vec;
use crate::diagnostics::DiagnosticAdded;
use crate::ids::{
    ExprId, FunctionId, LocalVarId, MemberId, StatementId, StructId, SyntaxStablePtrId, TypeId,
    VarId,
};
use crate::semantic::types::{ConcreteVariant, Member};
use vstd::prelude::*;

verus! {

/// An expression. The expressions inside it are named by their identifiers.
#[derive(Clone, Debug, PartialEq, Eq)]
pub enum Expr {
    Tuple(ExprTuple),
    Assignment(ExprAssignment),
    Block(ExprBlock),
    FunctionCall(ExprFunctionCall),
    Match(ExprMatch),
    If(ExprIf),
    Var(ExprVar),
    Literal(ExprLiteral),
    MemberAccess(ExprMemberAccess),
    StructCtor(ExprStructCtor),
    EnumVariantCtor(ExprEnumVariantCtor),
    PropagateError(ExprPropagateError),
    Missing(ExprMissing),
}

#[derive(Clone, Debug, PartialEq, Eq)]
pub struct ExprTuple {
    pub items: Vec<ExprId>,
    pub ty: TypeId,
    pub stable_ptr: SyntaxStablePtrId,
}

#[derive(Clone, Debug, PartialEq, Eq)]
pub struct ExprAssignment {
    pub var: VarId,
    pub rhs: ExprId,
    pub ty: TypeId,
    pub stable_ptr: SyntaxStablePtrId,
}

#[derive(Clone, Debug, PartialEq, Eq)]
pub struct ExprBlock {
    pub statements: Vec<StatementId>,
    /// The expression that the block evaluates to.
    pub tail: Option<ExprId>,
    pub ty: TypeId,
    pub stable_ptr: SyntaxStablePtrId,
}

#[derive(Clone, Debug, PartialEq, Eq)]
pub struct ExprFunctionCall {
    pub function: FunctionId,
    /// The variables that are passed by reference. They come before the other arguments.
    pub ref_args: Vec<VarId>,
    pub args: Vec<ExprId>,
    pub ty: TypeId,
    pub stable_ptr: SyntaxStablePtrId,
}

#[derive(Clone, Debug, PartialEq, Eq)]
pub struct ExprMatch {
    pub matched_expr: ExprId,
    pub arms: Vec<MatchArm>,
    pub ty: TypeId,
    pub stable_ptr: SyntaxStablePtrId,
}

#[derive(Clone, Debug, PartialEq, Eq)]
pub struct MatchArm {
    pub pattern: Pattern,
    pub expression: ExprId,
}

#[derive(Clone, Debug, PartialEq, Eq)]
pub struct ExprIf {
    pub condition: ExprId,
    pub if_block: ExprId,
    pub else_block: ExprId,
    pub ty: TypeId,
    pub stable_ptr: SyntaxStablePtrId,
}

#[derive(Clone, Debug, PartialEq, Eq)]
pub struct ExprVar {
    pub var: VarId,
    pub ty: TypeId,
    pub stable_ptr: SyntaxStablePtrId,
}

#[derive(Clone, Debug, PartialEq, Eq)]
pub struct ExprLiteral {
    /// The value: the bytes of its two's complement, least significant first.
    pub value: Vec<u8>,
    pub ty: TypeId,
    pub stable_ptr: SyntaxStablePtrId,
}

#[derive(Clone, Debug, PartialEq, Eq)]
pub struct ExprMemberAccess {
    pub expr: ExprId,
    pub struct_id: StructId,
    pub member: MemberId,
    pub ty: TypeId,
    pub stable_ptr: SyntaxStablePtrId,
}

#[derive(Clone, Debug, PartialEq, Eq)]
pub struct ExprStructCtor {
    pub struct_id: StructId,
    pub members: Vec<(MemberId, ExprId)>,
    pub ty: TypeId,
    pub stable_ptr: SyntaxStablePtrId,
}

#[derive(Clone, Debug, PartialEq, Eq)]
pub struct ExprEnumVariantCtor {
    pub variant: ConcreteVariant,
    pub value_expr: ExprId,
    pub ty: TypeId,
    pub stable_ptr: SyntaxStablePtrId,
}

#[derive(Clone, Debug, PartialEq, Eq)]
pub struct ExprPropagateError {
    pub inner: ExprId,
    /// The variant of the inner type that carries the value on.
    pub ok_variant: ConcreteVariant,
    /// The variant of the inner type that leaves the function.
    pub err_variant: ConcreteVariant,
    /// The variant of the return type of the function that it leaves with.
    pub func_err_variant: ConcreteVariant,
    pub ty: TypeId,
    pub stable_ptr: SyntaxStablePtrId,
}

#[derive(Clone, Debug, PartialEq, Eq)]
pub struct ExprMissing {
    pub ty: TypeId,
    pub stable_ptr: SyntaxStablePtrId,
    pub diag_added: DiagnosticAdded,
}

impl Expr {
    /// The type of the expression.
    pub open spec fn ty_of(&self) -> TypeId {
        match self {
            Expr::Tuple(e) => e.ty,
            Expr::Assignment(e) => e.ty,
            Expr::Block(e) => e.ty,
            Expr::FunctionCall(e) => e.ty,
            Expr::Match(e) => e.ty,
            Expr::If(e) => e.ty,
            Expr::Var(e) => e.ty,
            Expr::Literal(e) => e.ty,
            Expr::MemberAccess(e) => e.ty,
            Expr::StructCtor(e) => e.ty,
            Expr::EnumVariantCtor(e) => e.ty,
            Expr::PropagateError(e) => e.ty,
            Expr::Missing(e) => e.ty,
        }
    }

    /// The type of the expression.
    pub fn ty(&self) -> (r: TypeId)
        ensures
            r == self.ty_of(),
    {
        match self {
            Expr::Tuple(e) => e.ty,
            Expr::Assignment(e) => e.ty,
            Expr::Block(e) => e.ty,
            Expr::FunctionCall(e) => e.ty,
            Expr::Match(e) => e.ty,
            Expr::If(e) => e.ty,
            Expr::Var(e) => e.ty,
            Expr::Literal(e) => e.ty,
            Expr::MemberAccess(e) => e.ty,
            Expr::StructCtor(e) => e.ty,
            Expr::EnumVariantCtor(e) => e.ty,
            Expr::PropagateError(e) => e.ty,
            Expr::Missing(e) => e.ty,
        }
    }

    /// The place of the expression in the syntax tree.
    pub open spec fn ptr_of(&self) -> SyntaxStablePtrId {
        match self {
            Expr::Tuple(e) => e.stable_ptr,
            Expr::Assignment(e) => e.stable_ptr,
            Expr::Block(e) => e.stable_ptr,
            Expr::FunctionCall(e) => e.stable_ptr,
            Expr::Match(e) => e.stable_ptr,
            Expr::If(e) => e.stable_ptr,
            Expr::Var(e) => e.stable_ptr,
            Expr::Literal(e) => e.stable_ptr,
            Expr::MemberAccess(e) => e.stable_ptr,
            Expr::StructCtor(e) => e.stable_ptr,
            Expr::EnumVariantCtor(e) => e.stable_ptr,
            Expr::PropagateError(e) => e.stable_ptr,
            Expr::Missing(e) => e.stable_ptr,
        }
    }

    /// The place of the expression in the syntax tree.
    pub fn stable_ptr(&self) -> (r: SyntaxStablePtrId)
        ensures
            r == self.ptr_of(),
    {
        match self {
            Expr::Tuple(e) => e.stable_ptr,
            Expr::Assignment(e) => e.stable_ptr,
            Expr::Block(e) => e.stable_ptr,
            Expr::FunctionCall(e) => e.stable_ptr,
            Expr::Match(e) => e.stable_ptr,
            Expr::If(e) => e.stable_ptr,
            Expr::Var(e) => e.stable_ptr,
            Expr::Literal(e) => e.stable_ptr,
            Expr::MemberAccess(e) => e.stable_ptr,
            Expr::StructCtor(e) => e.stable_ptr,
            Expr::EnumVariantCtor(e) => e.stable_ptr,
            Expr::PropagateError(e) => e.stable_ptr,
            Expr::Missing(e) => e.stable_ptr,
        }
    }
}

/// A pattern.
#[derive(Debug, PartialEq, Eq)]
pub enum Pattern {
    Literal(PatternLiteral),
    Variable(PatternVariable),
    Struct(PatternStruct),
    Tuple(PatternTuple),
    EnumVariant(PatternEnumVariant),
    Otherwise(PatternOtherwise),
}

#[derive(Clone, Debug, PartialEq, Eq)]
pub struct PatternLiteral {
    pub literal: ExprLiteral,
    pub ty: TypeId,
}

#[derive(Clone, Debug, PartialEq, Eq)]
pub struct PatternVariable {
    pub name: String,
    pub var: LocalVariable,
}

/// A local variable.
#[derive(Clone, Copy, PartialEq, Eq, Structural, Debug)]
pub struct LocalVariable {
    pub id: LocalVarId,
    pub ty: TypeId,
}

#[derive(Debug, PartialEq, Eq)]
pub struct PatternStruct {
    pub id: StructId,
    pub field_patterns: Vec<(Member, Pattern)>,
    pub ty: TypeId,
}

#[derive(Debug, PartialEq, Eq)]
pub struct PatternTuple {
    pub field_patterns: Vec<Pattern>,
    pub ty: TypeId,
}

#[derive(Debug, PartialEq, Eq)]
pub struct PatternEnumVariant {
    pub variant: ConcreteVariant,
    pub inner_pattern: Box<Pattern>,
    pub ty: TypeId,
}

#[derive(Clone, Debug, PartialEq, Eq)]
pub struct PatternOtherwise {
    pub ty: TypeId,
}

impl Pattern {
    /// Whether the patterns hold the same, part by part.
    pub open spec fn alike(self, other: Pattern) -> bool
        decreases self,
    {
        match (self, other) {
            (Pattern::Literal(a), Pattern::Literal(b)) => {
                &&& a.literal.value@ == b.literal.value@
                &&& a.literal.ty == b.literal.ty
                &&& a.literal.stable_ptr == b.literal.stable_ptr
                &&& a.ty == b.ty
            },
            (Pattern::Variable(a), Pattern::Variable(b)) => a.name@ == b.name@ && a.var == b.var,
            (Pattern::Struct(a), Pattern::Struct(b)) => {
                &&& a.id == b.id
                &&& a.field_patterns@.len() == b.field_patterns@.len()
                &&& forall|i: int|
                    0 <= i < a.field_patterns@.len() ==> (#[trigger] a.field_patterns@[i]).0
                        == b.field_patterns@[i].0 && a.field_patterns@[i].1.alike(
                        b.field_patterns@[i].1,
                    )
                &&& a.ty == b.ty
            },
            (Pattern::Tuple(a), Pattern::Tuple(b)) => {
                &&& a.field_patterns@.len() == b.field_patterns@.len()
                &&& forall|i: int|
                    0 <= i < a.field_patterns@.len() ==> (#[trigger] a.field_patterns@[i]).alike(
                        b.field_patterns@[i],
                    )
                &&& a.ty == b.ty
            },
            (Pattern::EnumVariant(a), Pattern::EnumVariant(b)) => {
                &&& a.variant == b.variant
                &&& (*a.inner_pattern).alike(*b.inner_pattern)
                &&& a.ty == b.ty
            },
            (Pattern::Otherwise(a), Pattern::Otherwise(b)) => a.ty == b.ty,
            _ => false,
        }
    }
}

/// A pattern that holds the same.
fn copy_pattern(p: &Pattern) -> (r: Pattern)
    ensures
        p.alike(r),
    decreases p,
{
    match p {
        Pattern::Literal(l) => {
            let literal = ExprLiteral {
                value: copy_vec(&l.literal.value),
                ty: l.literal.ty,
                stable_ptr: l.literal.stable_ptr,
            };
            Pattern::Literal(PatternLiteral { literal, ty: l.ty })
        },
        Pattern::Variable(v) => {
            Pattern::Variable(PatternVariable { name: v.name.clone(), var: v.var })
        },
        Pattern::Struct(st) => {
            let field_patterns = copy_fields(&st.field_patterns);
            Pattern::Struct(PatternStruct { id: st.id, field_patterns, ty: st.ty })
        },
        Pattern::Tuple(t) => {
            let field_patterns = copy_patterns(&t.field_patterns);
            Pattern::Tuple(PatternTuple { field_patterns, ty: t.ty })
        },
        Pattern::EnumVariant(v) => {
            let inner_pattern = Box::new(copy_pattern(&*v.inner_pattern));
            Pattern::EnumVariant(PatternEnumVariant { variant: v.variant, inner_pattern, ty: v.ty })
        },
        Pattern::Otherwise(o) => Pattern::Otherwise(PatternOtherwise { ty: o.ty }),
    }
}

/// The same members, with patterns that hold the same.
fn copy_fields(fields: &Vec<(Member, Pattern)>) -> (r: Vec<(Member, Pattern)>)
    ensures
        r@.len() == fields@.len(),
        forall|j: int|
            0 <= j < fields@.len() ==> (#[trigger] fields@[j]).0 == r@[j].0 && fields@[j].1.alike(
                r@[j].1,
            ),
    decreases fields,
{
    let mut r: Vec<(Member, Pattern)> = Vec::new();
    let mut i: usize = 0;
    while i < fields.len()
        invariant
            i <= fields@.len(),
            r@.len() == i,
            forall|j: int|
                0 <= j < i ==> (#[trigger] fields@[j]).0 == r@[j].0 && fields@[j].1.alike(r@[j].1),
        decreases fields@.len() - i,
    {
        assert(decreases_to!(fields => fields@[i as int].1));
        r.push((fields[i].0, copy_pattern(&fields[i].1)));
        i += 1;
    }
    r
}

/// Patterns that hold the same.
fn copy_patterns(patterns: &Vec<Pattern>) -> (r: Vec<Pattern>)
    ensures
        r@.len() == patterns@.len(),
        forall|j: int| 0 <= j < patterns@.len() ==> (#[trigger] patterns@[j]).alike(r@[j]),
    decreases patterns,
{
    let mut r: Vec<Pattern> = Vec::new();
    let mut i: usize = 0;
    while i < patterns.len()
        invariant
            i <= patterns@.len(),
            r@.len() == i,
            forall|j: int| 0 <= j < i ==> (#[trigger] patterns@[j]).alike(r@[j]),
        decreases patterns@.len() - i,
    {
        assert(decreases_to!(patterns => patterns@[i as int]));
        r.push(copy_pattern(&patterns[i]));
        i += 1;
    }
    r
}

impl Clone for Pattern {
    fn clone(&self) -> (r: Self)
        ensures
            self.alike(r),
    {
        copy_pattern(self)
    }
}

impl Clone for PatternStruct {
    fn clone(&self) -> (r: Self)
        ensures
            Pattern::Struct(*self).alike(Pattern::Struct(r)),
    {
        let field_patterns = copy_fields(&self.field_patterns);
        PatternStruct { id: self.id, field_patterns, ty: self.ty }
    }
}

impl Clone for PatternTuple {
    fn clone(&self) -> (r: Self)
        ensures
            Pattern::Tuple(*self).alike(Pattern::Tuple(r)),
    {
        PatternTuple { field_patterns: copy_patterns(&self.field_patterns), ty: self.ty }
    }
}

impl Clone for PatternEnumVariant {
    fn clone(&self) -> (r: Self)
        ensures
            Pattern::EnumVariant(*self).alike(Pattern::EnumVariant(r)),
    {
        let inner_pattern = Box::new(copy_pattern(&*self.inner_pattern));
        PatternEnumVariant { variant: self.variant, inner_pattern, ty: self.ty }
    }
}

/// A statement.
#[derive(Clone, Debug, PartialEq, Eq)]
pub enum Statement {
    Expr(StatementExpr),
    Let(StatementLet),
    Return(StatementReturn),
}

#[derive(Clone, Debug, PartialEq, Eq)]
pub struct StatementExpr {
    pub expr: ExprId,
    pub stable_ptr: SyntaxStablePtrId,
}

#[derive(Clone, Debug, PartialEq, Eq)]
pub struct StatementLet {
    pub pattern: Pattern,
    pub expr: ExprId,
    pub stable_ptr: SyntaxStablePtrId,
}

#[derive(Clone, Debug, PartialEq, Eq)]
pub struct StatementReturn {
    pub expr: ExprId,
    pub stable_ptr: SyntaxStablePtrId,
}

impl Statement {
    /// The place of the statement in the syntax tree.
    pub open spec fn ptr_of(&self) -> SyntaxStablePtrId {
        match self {
            Statement::Expr(s) => s.stable_ptr,
            Statement::Let(s) => s.stable_ptr,
            Statement::Return(s) => s.stable_ptr,
        }
    }

    /// The place of the statement in the syntax tree.
    pub fn stable_ptr(&self) -> (r: SyntaxStablePtrId)
        ensures
            r == self.ptr_of(),
    {
        match self {
            Statement::Expr(s) => s.stable_ptr,
            Statement::Let(s) => s.stable_ptr,
            Statement::Return(s) => s.stable_ptr,
        }
    }
}

/// The body of a function. An expression comes after the expressions inside it.
#[derive(Clone, Debug, PartialEq, Eq)]
pub struct FunctionBody<'a> {
    pub exprs: Vec<&'a Expr>,
    pub statements: &'a Vec<Statement>,
    pub body_expr: ExprId,
    /// The functions that the body calls, each one once.
    pub direct_callees: Vec<FunctionId>,
}

} // verus!

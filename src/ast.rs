//! The abstract syntax tree, and its model in which sequences are `Seq`s.
use vstd::prelude::*;
use crate::scanner::{Token, TokenView};
use crate::typ::Typ;

verus! {

/// A top-level form.
#[derive(Debug)]
pub enum Decl {
    /// Binds a name to a value, e.g. `a = 2`.
    Constant(Box<ConstantDecl>),
    /// An expression evaluated for its effect.
    Evaluated(Box<EvaluatedDecl>),
}

#[derive(Debug)]
pub struct ConstantDecl {
    pub name: Token,
    /// The type annotation, a `NoToken` token where there is none.
    pub annotation: Token,
    pub value: Expr,
}

#[derive(Debug)]
pub struct EvaluatedDecl {
    pub expr: Expr,
}

impl ConstantDecl {
    /// The declaration as a top-level form.
    pub fn into_decl(self) -> (r: Decl)
        ensures
            r == Decl::Constant(Box::new(self)),
    {
        Decl::Constant(Box::new(self))
    }
}

impl EvaluatedDecl {
    /// The declaration as a top-level form.
    pub fn into_decl(self) -> (r: Decl)
        ensures
            r == Decl::Evaluated(Box::new(self)),
    {
        Decl::Evaluated(Box::new(self))
    }
}

/// An expression and its type.
#[derive(Debug)]
pub struct Expr {
    pub node: ExprKind,
    pub typ: Typ,
}

impl Expr {
    pub fn new(node: ExprKind, typ: Typ) -> (r: Expr)
        ensures
            r.node == node,
            r.typ == typ,
    {
        Expr { node, typ }
    }
}

#[derive(Debug)]
pub enum ExprKind {
    /// A reference to a named constant, like `foo`.
    Constant(Box<ConstantExpr>),
    /// `-42`, `not true`.
    Unary(Box<UnaryExpr>),
    /// Arithmetic and comparison, `2 + 2`, `31 <= foo`.
    Binary(Box<BinaryExpr>),
    /// `and` and `or`.
    Logical(Box<LogicalExpr>),
    /// Application of a function to an argument, `21 -> fib` or `fib <- 21`.
    Apply(Box<ApplyExpr>),
    /// A function literal, `{x | x + 1}`.
    Func(Box<FuncExpr>),
    Literal(Literal),
    /// `(a, b)`: two or more elements.
    Tuple(Box<TupleExpr>),
    /// `[a, b]`: any number of elements.
    List(Box<ListExpr>),
}

#[derive(Debug)]
pub struct ConstantExpr {
    pub name: Token,
}

#[derive(Debug)]
pub struct UnaryExpr {
    pub operator: Token,
    pub operand: Expr,
}

#[derive(Debug)]
pub struct BinaryExpr {
    pub operator: Token,
    pub left: Expr,
    pub right: Expr,
}

#[derive(Debug)]
pub struct LogicalExpr {
    pub operator: Token,
    pub left: Expr,
    pub right: Expr,
}

#[derive(Debug)]
pub struct ApplyExpr {
    pub operator: Token,
    pub func: Expr,
    pub arg: Expr,
}

#[derive(Debug)]
pub struct FuncExpr {
    pub cases: Vec<FuncCase>,
}

#[derive(Debug)]
pub struct TupleExpr {
    pub elements: Vec<Expr>,
    pub paren: Token,
}

#[derive(Debug)]
pub struct ListExpr {
    pub elements: Vec<Expr>,
    pub square: Token,
}

/// One alternative of a function literal: a pattern and its guards, of which there is
/// at least one.
#[derive(Debug)]
pub struct FuncCase {
    pub param: Pattern,
    pub guards: Vec<FuncGuard>,
}

/// `condition ? value`; a bare `value` stands for `true ? value`.
#[derive(Debug)]
pub struct FuncGuard {
    pub condition: Expr,
    pub value: Expr,
}

/// A literal value. A float is kept as the decimal text it was written in
/// (digits, a point, digits).
#[derive(Debug, Clone, PartialEq)]
pub enum Literal {
    Int(i32),
    Float(String),
    Bool(bool),
    String(String),
}

#[derive(Debug, Clone)]
pub enum Pattern {
    Literal(Literal),
    Identifier(Box<Token>),
}

impl Literal {
    /// The literal as an expression of its own type.
    pub fn into_expr(self) -> (r: Expr)
        ensures
            r@ == lit_node(lit_view(self)),
    {
        let typ = match &self {
            Literal::Int(_) => Typ::Int,
            Literal::Float(_) => Typ::Float,
            Literal::Bool(_) => Typ::Bool,
            Literal::String(_) => Typ::String,
        };
        Expr::new(ExprKind::Literal(self), typ)
    }
}

/// Model of a literal.
pub enum LitView {
    Int(i32),
    Float(Seq<char>),
    Bool(bool),
    String(Seq<char>),
}

/// Model of a pattern.
pub enum PatternView {
    Literal(LitView),
    Identifier(TokenView),
}

/// Model of an expression.
pub struct Node {
    pub tree: Tree,
    pub typ: Typ,
}

/// Model of an expression's shape; the fields follow the AST's.
pub enum Tree {
    Constant(TokenView),
    /// operator, operand
    Unary(TokenView, Box<Node>),
    /// operator, left, right
    Binary(TokenView, Box<Node>, Box<Node>),
    /// operator, left, right
    Logical(TokenView, Box<Node>, Box<Node>),
    /// operator, function, argument
    Apply(TokenView, Box<Node>, Box<Node>),
    Func(Seq<CaseNode>),
    Literal(LitView),
    /// opening parenthesis, elements
    Tuple(TokenView, Seq<Node>),
    /// opening bracket, elements
    List(TokenView, Seq<Node>),
}

pub struct CaseNode {
    pub param: PatternView,
    pub guards: Seq<GuardNode>,
}

pub struct GuardNode {
    pub condition: Node,
    pub value: Node,
}

pub open spec fn lit_view(l: Literal) -> LitView {
    match l {
        Literal::Int(v) => LitView::Int(v),
        Literal::Float(t) => LitView::Float(t@),
        Literal::Bool(b) => LitView::Bool(b),
        Literal::String(t) => LitView::String(t@),
    }
}

pub open spec fn pattern_view(p: Pattern) -> PatternView {
    match p {
        Pattern::Literal(l) => PatternView::Literal(lit_view(l)),
        Pattern::Identifier(t) => PatternView::Identifier(t@),
    }
}

/// The type a literal has from its own kind.
pub open spec fn lit_typ(l: LitView) -> Typ {
    match l {
        LitView::Int(_) => Typ::Int,
        LitView::Float(_) => Typ::Float,
        LitView::Bool(_) => Typ::Bool,
        LitView::String(_) => Typ::String,
    }
}

/// A literal node, of the literal's own type.
pub open spec fn lit_node(l: LitView) -> Node {
    Node { tree: Tree::Literal(l), typ: lit_typ(l) }
}

/// A composite node, of type `Unknown` until resolved.
pub open spec fn inner(tree: Tree) -> Node {
    Node { tree, typ: Typ::Unknown }
}

pub open spec fn expr_view(e: &Expr) -> Node
    decreases e, 2int,
{
    Node { tree: kind_view(&e.node), typ: e.typ }
}

pub open spec fn kind_view(k: &ExprKind) -> Tree
    decreases k, 1int,
{
    match k {
        ExprKind::Constant(c) => Tree::Constant(c.name@),
        ExprKind::Unary(u) => Tree::Unary(u.operator@, Box::new(expr_view(&u.operand))),
        ExprKind::Binary(b) => Tree::Binary(b.operator@, Box::new(expr_view(&b.left)), Box::new(expr_view(&b.right))),
        ExprKind::Logical(b) => Tree::Logical(b.operator@, Box::new(expr_view(&b.left)), Box::new(expr_view(&b.right))),
        ExprKind::Apply(a) => Tree::Apply(a.operator@, Box::new(expr_view(&a.func)), Box::new(expr_view(&a.arg))),
        ExprKind::Func(f) => Tree::Func(cases_view(&f.cases, f.cases@.len() as int)),
        ExprKind::Literal(l) => Tree::Literal(lit_view(*l)),
        ExprKind::Tuple(t) => Tree::Tuple(t.paren@, exprs_view(&t.elements, t.elements@.len() as int)),
        ExprKind::List(t) => Tree::List(t.square@, exprs_view(&t.elements, t.elements@.len() as int)),
    }
}

/// Models of the first `n` expressions of `v`.
pub open spec fn exprs_view(v: &Vec<Expr>, n: int) -> Seq<Node>
    decreases v, 0int, n,
{
    if 0 < n <= v@.len() {
        exprs_view(v, n - 1).push(expr_view(&v[n - 1]))
    } else {
        Seq::empty()
    }
}

/// Models of the first `n` cases of `v`.
pub open spec fn cases_view(v: &Vec<FuncCase>, n: int) -> Seq<CaseNode>
    decreases v, 0int, n,
{
    if 0 < n <= v@.len() {
        cases_view(v, n - 1).push(
            CaseNode { param: pattern_view(v[n - 1].param), guards: guards_view(&v[n - 1].guards, v[n - 1].guards@.len() as int) },
        )
    } else {
        Seq::empty()
    }
}

/// Models of the first `n` guards of `v`.
pub open spec fn guards_view(v: &Vec<FuncGuard>, n: int) -> Seq<GuardNode>
    decreases v, 0int, n,
{
    if 0 < n <= v@.len() {
        guards_view(v, n - 1).push(
            GuardNode { condition: expr_view(&v[n - 1].condition), value: expr_view(&v[n - 1].value) },
        )
    } else {
        Seq::empty()
    }
}

impl View for Expr {
    type V = Node;

    open spec fn view(&self) -> Node {
        expr_view(self)
    }
}

} // verus!

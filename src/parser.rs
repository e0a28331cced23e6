//! The precedence-climbing parser: pulls tokens from a scanner through a two-token window
//! and builds expressions, recovering from failures one top-level form at a time.
use vstd::prelude::*;
use crate::ast::{
    ApplyExpr, BinaryExpr, CaseNode, ConstantExpr, Expr, ExprKind, FuncCase, FuncExpr, FuncGuard,
    GuardNode, ListExpr, LitView, Literal, LogicalExpr, Node, Pattern, PatternView, Tree, TupleExpr,
    UnaryExpr, cases_view, exprs_view, guards_view, inner, lit_node, pattern_view,
};
use crate::error::Report;
use crate::scanner::{
    Scanner, ScannerError, ScanState, Token, TokenKind, TokenView, good_views, lex_errs, scan_step,
    start_state, lemma_step_progress, lex_errors_view,
};
use crate::text::push_str;
use crate::typ::Typ;

verus! {

/// Binding power, lowest first.
#[derive(Debug, Clone, Copy, PartialEq, Eq, Structural)]
pub enum Precedence {
    Lowest,
    Or,
    And,
    Equality,
    Comparison,
    Term,
    Factor,
    Power,
    Apply,
    Unary,
    Primary,
}

/// The position of a precedence on the ladder, from 0.
pub open spec fn rank(p: Precedence) -> nat {
    match p {
        Precedence::Lowest => 0,
        Precedence::Or => 1,
        Precedence::And => 2,
        Precedence::Equality => 3,
        Precedence::Comparison => 4,
        Precedence::Term => 5,
        Precedence::Factor => 6,
        Precedence::Power => 7,
        Precedence::Apply => 8,
        Precedence::Unary => 9,
        Precedence::Primary => 10,
    }
}

/// The precedence of rank `x`; `Lowest` past the top.
pub open spec fn from_rank(x: nat) -> Precedence {
    if x == 1 { Precedence::Or }
    else if x == 2 { Precedence::And }
    else if x == 3 { Precedence::Equality }
    else if x == 4 { Precedence::Comparison }
    else if x == 5 { Precedence::Term }
    else if x == 6 { Precedence::Factor }
    else if x == 7 { Precedence::Power }
    else if x == 8 { Precedence::Apply }
    else if x == 9 { Precedence::Unary }
    else if x == 10 { Precedence::Primary }
    else { Precedence::Lowest }
}

impl Precedence {
    pub fn rank(&self) -> (r: u32)
        ensures
            r == rank(*self),
    {
        match self {
            Precedence::Lowest => 0,
            Precedence::Or => 1,
            Precedence::And => 2,
            Precedence::Equality => 3,
            Precedence::Comparison => 4,
            Precedence::Term => 5,
            Precedence::Factor => 6,
            Precedence::Power => 7,
            Precedence::Apply => 8,
            Precedence::Unary => 9,
            Precedence::Primary => 10,
        }
    }

    /// The precedence of rank `x`; `Lowest` past the top.
    pub fn from_rank(x: u32) -> (r: Precedence)
        ensures
            r == from_rank(x as nat),
    {
        if x == 1 { Precedence::Or }
        else if x == 2 { Precedence::And }
        else if x == 3 { Precedence::Equality }
        else if x == 4 { Precedence::Comparison }
        else if x == 5 { Precedence::Term }
        else if x == 6 { Precedence::Factor }
        else if x == 7 { Precedence::Power }
        else if x == 8 { Precedence::Apply }
        else if x == 9 { Precedence::Unary }
        else if x == 10 { Precedence::Primary }
        else { Precedence::Lowest }
    }
}

impl From<u32> for Precedence {
    /// The precedence of rank `x`; `Lowest` past the top.
    fn from(x: u32) -> (r: Precedence) {
        Precedence::from_rank(x)
    }
}

impl vstd::std_specs::convert::FromSpecImpl<u32> for Precedence {
    open spec fn obeys_from_spec() -> bool {
        true
    }

    open spec fn from_spec(v: u32) -> Precedence {
        from_rank(v as nat)
    }
}

/// What a token does at the start of an expression.
#[derive(Debug, Clone, Copy, PartialEq, Eq, Structural)]
pub enum Prefix {
    Number,
    Bool,
    Str,
    Constant,
    Group,
    List,
    Unary,
    Func,
}

/// What a token does after an expression: a left- or a right-associative operator.
#[derive(Debug, Clone, Copy, PartialEq, Eq, Structural)]
pub enum Infix {
    Left,
    Right,
}

/// A row of the rule table.
#[derive(Debug, Clone, Copy, PartialEq, Eq, Structural)]
pub struct ParseRule {
    pub precedence: Precedence,
    pub prefix: Option<Prefix>,
    pub infix: Option<Infix>,
}

pub open spec fn row(precedence: Precedence, prefix: Option<Prefix>, infix: Option<Infix>) -> ParseRule {
    ParseRule { precedence, prefix, infix }
}

/// The rule table. A token without a row gets the "no rule" row: lowest precedence,
/// no prefix and no infix operation. Tokens that can only start an expression (literals,
/// names, brackets, `not`) also stand at the lowest precedence, so that the climbing loop
/// stops in front of them.
pub open spec fn rule_of(kind: TokenKind) -> ParseRule {
    match kind {
        TokenKind::Number => row(Precedence::Lowest, Some(Prefix::Number), None),
        TokenKind::True | TokenKind::False => row(Precedence::Lowest, Some(Prefix::Bool), None),
        TokenKind::String => row(Precedence::Lowest, Some(Prefix::Str), None),
        TokenKind::Identifier => row(Precedence::Lowest, Some(Prefix::Constant), None),
        TokenKind::LeftParen => row(Precedence::Lowest, Some(Prefix::Group), None),
        TokenKind::LeftSquare => row(Precedence::Lowest, Some(Prefix::List), None),
        TokenKind::LeftBrace => row(Precedence::Lowest, Some(Prefix::Func), None),
        TokenKind::Minus => row(Precedence::Term, Some(Prefix::Unary), Some(Infix::Left)),
        TokenKind::Not => row(Precedence::Lowest, Some(Prefix::Unary), None),
        TokenKind::Plus | TokenKind::PlusPlus => row(Precedence::Term, None, Some(Infix::Left)),
        TokenKind::Slash | TokenKind::Star | TokenKind::Percent => row(Precedence::Factor, None, Some(Infix::Left)),
        TokenKind::Carat => row(Precedence::Power, None, Some(Infix::Left)),
        TokenKind::EqualEqual | TokenKind::BangEqual => row(Precedence::Equality, None, Some(Infix::Left)),
        TokenKind::Greater | TokenKind::GreaterEqual | TokenKind::Less | TokenKind::LessEqual => row(
            Precedence::Comparison,
            None,
            Some(Infix::Left),
        ),
        TokenKind::Colon => row(Precedence::Term, None, Some(Infix::Right)),
        TokenKind::LeftArrow => row(Precedence::Apply, None, Some(Infix::Right)),
        TokenKind::RightArrow => row(Precedence::Apply, None, Some(Infix::Left)),
        TokenKind::And => row(Precedence::And, None, Some(Infix::Left)),
        TokenKind::Or => row(Precedence::Or, None, Some(Infix::Left)),
        _ => row(Precedence::Lowest, None, None),
    }
}

/// The row of the rule table for `kind`.
pub fn get_parse_rule(kind: TokenKind) -> (r: ParseRule)
    ensures
        r == rule_of(kind),
{
    match kind {
        TokenKind::Number => ParseRule { precedence: Precedence::Lowest, prefix: Some(Prefix::Number), infix: None },
        TokenKind::True | TokenKind::False => ParseRule { precedence: Precedence::Lowest, prefix: Some(Prefix::Bool), infix: None },
        TokenKind::String => ParseRule { precedence: Precedence::Lowest, prefix: Some(Prefix::Str), infix: None },
        TokenKind::Identifier => ParseRule { precedence: Precedence::Lowest, prefix: Some(Prefix::Constant), infix: None },
        TokenKind::LeftParen => ParseRule { precedence: Precedence::Lowest, prefix: Some(Prefix::Group), infix: None },
        TokenKind::LeftSquare => ParseRule { precedence: Precedence::Lowest, prefix: Some(Prefix::List), infix: None },
        TokenKind::LeftBrace => ParseRule { precedence: Precedence::Lowest, prefix: Some(Prefix::Func), infix: None },
        TokenKind::Minus => ParseRule { precedence: Precedence::Term, prefix: Some(Prefix::Unary), infix: Some(Infix::Left) },
        TokenKind::Not => ParseRule { precedence: Precedence::Lowest, prefix: Some(Prefix::Unary), infix: None },
        TokenKind::Plus | TokenKind::PlusPlus => ParseRule { precedence: Precedence::Term, prefix: None, infix: Some(Infix::Left) },
        TokenKind::Slash | TokenKind::Star | TokenKind::Percent => ParseRule { precedence: Precedence::Factor, prefix: None, infix: Some(Infix::Left) },
        TokenKind::Carat => ParseRule { precedence: Precedence::Power, prefix: None, infix: Some(Infix::Left) },
        TokenKind::EqualEqual | TokenKind::BangEqual => ParseRule { precedence: Precedence::Equality, prefix: None, infix: Some(Infix::Left) },
        TokenKind::Greater | TokenKind::GreaterEqual | TokenKind::Less | TokenKind::LessEqual => ParseRule {
            precedence: Precedence::Comparison,
            prefix: None,
            infix: Some(Infix::Left),
        },
        TokenKind::Colon => ParseRule { precedence: Precedence::Term, prefix: None, infix: Some(Infix::Right) },
        TokenKind::LeftArrow => ParseRule { precedence: Precedence::Apply, prefix: None, infix: Some(Infix::Right) },
        TokenKind::RightArrow => ParseRule { precedence: Precedence::Apply, prefix: None, infix: Some(Infix::Left) },
        TokenKind::And => ParseRule { precedence: Precedence::And, prefix: None, infix: Some(Infix::Left) },
        TokenKind::Or => ParseRule { precedence: Precedence::Or, prefix: None, infix: Some(Infix::Left) },
        _ => ParseRule { precedence: Precedence::Lowest, prefix: None, infix: None },
    }
}

/// The ways parsing can fail.
#[derive(Debug, Clone, Copy, PartialEq, Eq, Structural)]
pub enum SyntaxErrorKind {
    /// The token cannot start an expression.
    ExpectedExpression,
    /// The given token was required here.
    ExpectedToken(TokenKind),
    /// A function case must start with a literal or a name.
    ExpectedPattern,
    /// An integer literal does not fit in 32 bits.
    NumberTooLarge,
}

/// A parsing failure and the token at which it happened.
#[derive(Debug, Clone)]
pub struct ParserError {
    pub token: Token,
    pub kind: SyntaxErrorKind,
}

pub struct SyntaxErrorView {
    pub token: TokenView,
    pub kind: SyntaxErrorKind,
}

impl View for ParserError {
    type V = SyntaxErrorView;

    open spec fn view(&self) -> SyntaxErrorView {
        SyntaxErrorView { token: self.token@, kind: self.kind }
    }
}

pub open spec fn syntax_error(token: TokenView, kind: SyntaxErrorKind) -> SyntaxErrorView {
    SyntaxErrorView { token, kind }
}

/// The outcome of a parsing step: its result, then the index of the current token and
/// the previous token.
pub struct Parsed<A> {
    pub result: Result<A, SyntaxErrorView>,
    pub k: int,
    pub prev: TokenView,
}

pub open spec fn parsed<A>(result: Result<A, SyntaxErrorView>, k: int, prev: TokenView) -> Parsed<A> {
    Parsed { result, k, prev }
}

/// A token stream as the scanner delivers it: it ends with the only `Eof`.
pub open spec fn stream_wf(t: Seq<TokenView>) -> bool {
    &&& t.len() >= 1
    &&& t.last().kind == TokenKind::Eof
    &&& forall|i: int| 0 <= i < t.len() - 1 ==> (#[trigger] t[i]).kind != TokenKind::Eof
}

/// The token at index `k`, the last one past the end.
pub open spec fn cur(t: Seq<TokenView>, k: int) -> TokenView {
    if 0 <= k < t.len() { t[k] } else { t.last() }
}

/// How many tokens are left from `k`: the measure that every parsing step decreases.
pub open spec fn remaining(t: Seq<TokenView>, k: int) -> int {
    if k < t.len() { t.len() - k } else { 0 }
}

/// The index after `k`; it stays on the last token.
pub open spec fn adv(t: Seq<TokenView>, k: int) -> int {
    if k + 1 < t.len() { k + 1 } else { k }
}

pub open spec fn has_dot(w: Seq<char>) -> bool {
    exists|i: int| 0 <= i < w.len() && w[i] == '.'
}

/// The value of a decimal digit; 0 for any other character.
pub open spec fn digit_of(c: char) -> nat {
    if '0' <= c && c <= '9' { ((c as u32) - ('0' as u32)) as nat } else { 0 }
}

/// The value of a run of decimal digits.
pub open spec fn digits_value(w: Seq<char>) -> nat
    decreases w.len(),
{
    if w.len() == 0 {
        0
    } else {
        digits_value(w.drop_last()) * 10 + digit_of(w.last())
    }
}

/// The literal node of a number token.
pub open spec fn number_node(t: TokenView) -> Result<Node, SyntaxErrorView> {
    if has_dot(t.lexeme) {
        Ok(lit_node(LitView::Float(t.lexeme)))
    } else if digits_value(t.lexeme) <= i32::MAX {
        Ok(lit_node(LitView::Int(digits_value(t.lexeme) as i32)))
    } else {
        Err(syntax_error(t, SyntaxErrorKind::NumberTooLarge))
    }
}

/// The node an infix operator builds: `and`/`or` a logical node, `->` applies its right
/// operand to its left, `<-` its left operand to its right, every other a binary node.
pub open spec fn infix_node(op: TokenView, left: Node, right: Node) -> Node {
    if op.kind == TokenKind::And || op.kind == TokenKind::Or {
        inner(Tree::Logical(op, Box::new(left), Box::new(right)))
    } else if op.kind == TokenKind::RightArrow {
        inner(Tree::Apply(op, Box::new(right), Box::new(left)))
    } else if op.kind == TokenKind::LeftArrow {
        inner(Tree::Apply(op, Box::new(left), Box::new(right)))
    } else {
        inner(Tree::Binary(op, Box::new(left), Box::new(right)))
    }
}

/// The pattern an expression stands for: a literal or a bare name.
pub open spec fn pattern_of(e: Node) -> Option<PatternView> {
    match e.tree {
        Tree::Literal(l) => Some(PatternView::Literal(l)),
        Tree::Constant(name) => Some(PatternView::Identifier(name)),
        _ => None,
    }
}

/// The condition of a guard written without one.
pub open spec fn always() -> Node {
    lit_node(LitView::Bool(true))
}

/// Requires the current token to be of `kind` and moves past it.
pub open spec fn expect_spec(t: Seq<TokenView>, k: int, prev: TokenView, kind: TokenKind) -> Parsed<()> {
    if cur(t, k).kind == kind {
        parsed(Ok(()), adv(t, k), cur(t, k))
    } else {
        parsed(Err(syntax_error(cur(t, k), SyntaxErrorKind::ExpectedToken(kind))), k, prev)
    }
}

/// Parses an expression whose operators all bind at least as tightly as `min`, starting at
/// the current token `k`.
pub open spec fn parse_prec(t: Seq<TokenView>, k: int, min: Precedence) -> Parsed<Node>
    decreases remaining(t, k), 1int,
{
    let tok = cur(t, k);
    let k1 = adv(t, k);
    match rule_of(tok.kind).prefix {
        Some(p) => if k < k1 {
            let r = prefix_spec(t, k1, tok, p);
            match r.result {
                Ok(e) => if k1 <= r.k { climb(t, r.k, r.prev, min, e) } else { r },
                Err(_) => r,
            }
        } else {
            parsed(Err(syntax_error(tok, SyntaxErrorKind::ExpectedExpression)), k1, tok)
        },
        None => parsed(Err(syntax_error(tok, SyntaxErrorKind::ExpectedExpression)), k1, tok),
    }
}

/// The loop of `parse_prec`: while the current token is an operator of precedence at
/// least `min`, moves past it and combines `left` with what follows.
pub open spec fn climb(t: Seq<TokenView>, k: int, prev: TokenView, min: Precedence, left: Node) -> Parsed<Node>
    decreases remaining(t, k), 0int,
{
    let op = cur(t, k);
    let k1 = adv(t, k);
    let rule = rule_of(op.kind);
    if rank(min) <= rank(rule.precedence) && rule.infix is Some && k < k1 {
        let r = infix_spec(t, k1, op, rule.infix->0, left);
        match r.result {
            Ok(e) => if k1 <= r.k { climb(t, r.k, r.prev, min, e) } else { r },
            Err(_) => r,
        }
    } else {
        parsed(Ok(left), k, prev)
    }
}

/// An infix operation `op` (just passed) applied to `left`: a left-associative operator
/// reads its right operand one precedence higher, a right-associative one at its own.
pub open spec fn infix_spec(t: Seq<TokenView>, k: int, op: TokenView, which: Infix, left: Node) -> Parsed<Node>
    decreases remaining(t, k), 2int,
{
    let p = rule_of(op.kind).precedence;
    let min = match which {
        Infix::Left => from_rank(rank(p) + 1),
        Infix::Right => p,
    };
    let r = parse_prec(t, k, min);
    match r.result {
        Ok(right) => parsed(Ok(infix_node(op, left, right)), r.k, r.prev),
        Err(x) => parsed(Err(x), r.k, r.prev),
    }
}

/// A prefix operation for the token `tok` (just passed).
pub open spec fn prefix_spec(t: Seq<TokenView>, k: int, tok: TokenView, which: Prefix) -> Parsed<Node>
    decreases remaining(t, k), 4int,
{
    match which {
        Prefix::Number => parsed(number_node(tok), k, tok),
        Prefix::Bool => parsed(Ok(lit_node(LitView::Bool(tok.kind == TokenKind::True))), k, tok),
        Prefix::Str => parsed(Ok(lit_node(LitView::String(tok.lexeme))), k, tok),
        Prefix::Constant => parsed(Ok(inner(Tree::Constant(tok))), k, tok),
        Prefix::Unary => {
            let r = parse_prec(t, k, Precedence::Unary);
            match r.result {
                Ok(e) => parsed(Ok(inner(Tree::Unary(tok, Box::new(e)))), r.k, r.prev),
                Err(x) => parsed(Err(x), r.k, r.prev),
            }
        },
        Prefix::Group => group_spec(t, k, tok),
        Prefix::List => list_spec(t, k, tok),
        Prefix::Func => func_spec(t, k),
    }
}

/// Comma-separated expressions from `k`, appended to `acc`; stops before the first token
/// after an element that is not a comma.
pub open spec fn elements(t: Seq<TokenView>, k: int, acc: Seq<Node>) -> Parsed<Seq<Node>>
    decreases remaining(t, k), 2int,
{
    let r = parse_prec(t, k, Precedence::Or);
    match r.result {
        Ok(e) => {
            let comma = cur(t, r.k);
            if k <= r.k && comma.kind == TokenKind::Comma && r.k < adv(t, r.k) {
                elements(t, adv(t, r.k), acc.push(e))
            } else {
                parsed(Ok(acc.push(e)), r.k, r.prev)
            }
        },
        Err(x) => parsed(Err(x), r.k, r.prev),
    }
}

/// After `(`: one expression alone stands for itself; two or more separated by commas
/// make a tuple. Either way `)` must follow.
pub open spec fn group_spec(t: Seq<TokenView>, k: int, paren: TokenView) -> Parsed<Node>
    decreases remaining(t, k), 3int,
{
    let r = elements(t, k, Seq::empty());
    match r.result {
        Ok(es) => {
            let c = expect_spec(t, r.k, r.prev, TokenKind::RightParen);
            match c.result {
                Ok(_) => if es.len() == 1 {
                    parsed(Ok(es[0]), c.k, c.prev)
                } else {
                    parsed(Ok(inner(Tree::Tuple(paren, es))), c.k, c.prev)
                },
                Err(x) => parsed(Err(x), c.k, c.prev),
            }
        },
        Err(x) => parsed(Err(x), r.k, r.prev),
    }
}

/// After `[`: zero or more comma-separated expressions, then `]`.
pub open spec fn list_spec(t: Seq<TokenView>, k: int, square: TokenView) -> Parsed<Node>
    decreases remaining(t, k), 3int,
{
    let r = if cur(t, k).kind == TokenKind::RightSquare {
        parsed(Ok(Seq::<Node>::empty()), k, square)
    } else {
        elements(t, k, Seq::empty())
    };
    match r.result {
        Ok(es) => {
            let c = expect_spec(t, r.k, r.prev, TokenKind::RightSquare);
            match c.result {
                Ok(_) => parsed(Ok(inner(Tree::List(square, es))), c.k, c.prev),
                Err(x) => parsed(Err(x), c.k, c.prev),
            }
        },
        Err(x) => parsed(Err(x), r.k, r.prev),
    }
}

/// After `{`: the first case's pattern, `|`, then its guards and any further cases.
pub open spec fn func_spec(t: Seq<TokenView>, k: int) -> Parsed<Node>
    decreases remaining(t, k), 3int,
{
    let r = parse_prec(t, k, Precedence::Or);
    match r.result {
        Ok(e) => {
            let c = expect_spec(t, r.k, r.prev, TokenKind::Pipe);
            match c.result {
                Ok(_) => match pattern_of(e) {
                    Some(p) => if k <= r.k && r.k < c.k {
                        guards_spec(t, c.k, Seq::empty(), p, Seq::empty())
                    } else {
                        parsed(Err(syntax_error(r.prev, SyntaxErrorKind::ExpectedPattern)), c.k, c.prev)
                    },
                    None => parsed(Err(syntax_error(r.prev, SyntaxErrorKind::ExpectedPattern)), c.k, c.prev),
                },
                Err(x) => parsed(Err(x), c.k, c.prev),
            }
        },
        Err(x) => parsed(Err(x), r.k, r.prev),
    }
}

/// The guards of the case with pattern `pat`, `gs` read so far, after the cases `cases`:
/// at `k` starts a guard, or, where `gs` is not empty, the pattern of a new case.
pub open spec fn guards_spec(
    t: Seq<TokenView>,
    k: int,
    cases: Seq<CaseNode>,
    pat: PatternView,
    gs: Seq<GuardNode>,
) -> Parsed<Node>
    decreases remaining(t, k), 2int,
{
    let r = parse_prec(t, k, Precedence::Or);
    match r.result {
        Err(x) => parsed(Err(x), r.k, r.prev),
        Ok(e) => if !(k <= r.k) {
            parsed(Err(syntax_error(r.prev, SyntaxErrorKind::ExpectedExpression)), r.k, r.prev)
        } else if cur(t, r.k).kind == TokenKind::Pipe {
            let pipe = cur(t, r.k);
            if gs.len() == 0 {
                parsed(Err(syntax_error(pipe, SyntaxErrorKind::ExpectedExpression)), r.k, r.prev)
            } else {
                match pattern_of(e) {
                    Some(p) => if r.k < adv(t, r.k) {
                        guards_spec(t, adv(t, r.k), cases.push(CaseNode { param: pat, guards: gs }), p, Seq::empty())
                    } else {
                        parsed(Err(syntax_error(r.prev, SyntaxErrorKind::ExpectedPattern)), r.k, r.prev)
                    },
                    None => parsed(Err(syntax_error(r.prev, SyntaxErrorKind::ExpectedPattern)), r.k, r.prev),
                }
            }
        } else {
            let g = if cur(t, r.k).kind == TokenKind::Question && r.k < adv(t, r.k) {
                let v = parse_prec(t, adv(t, r.k), Precedence::Or);
                match v.result {
                    Ok(value) => parsed(Ok(GuardNode { condition: e, value }), v.k, v.prev),
                    Err(x) => parsed(Err(x), v.k, v.prev),
                }
            } else {
                parsed(Ok(GuardNode { condition: always(), value: e }), r.k, r.prev)
            };
            match g.result {
                Err(x) => parsed(Err(x), g.k, g.prev),
                Ok(guard) => {
                    let gs2 = gs.push(guard);
                    let sep = cur(t, g.k);
                    if sep.kind == TokenKind::Comma && k <= g.k && g.k < adv(t, g.k) {
                        guards_spec(t, adv(t, g.k), cases, pat, gs2)
                    } else {
                        let c = expect_spec(t, g.k, g.prev, TokenKind::RightBrace);
                        match c.result {
                            Ok(_) => parsed(
                                Ok(inner(Tree::Func(cases.push(CaseNode { param: pat, guards: gs2 })))),
                                c.k,
                                c.prev,
                            ),
                            Err(x) => parsed(Err(x), c.k, c.prev),
                        }
                    }
                },
            }
        },
    }
}

/// What a whole parse yields: the top-level expressions, and the syntax errors in order.
pub struct Program {
    pub exprs: Seq<Node>,
    pub errors: Seq<SyntaxErrorView>,
}

/// The top-level loop from `k`: newlines between forms are skipped; each form is an
/// expression at `Or`; after a failure the parser moves past exactly one token.
pub open spec fn program_from(t: Seq<TokenView>, k: int, acc: Program) -> Program
    decreases remaining(t, k),
{
    let tok = cur(t, k);
    if tok.kind == TokenKind::Eof || !(k < adv(t, k)) {
        acc
    } else if tok.kind == TokenKind::Newline {
        program_from(t, adv(t, k), acc)
    } else {
        let r = parse_prec(t, k, Precedence::Or);
        match r.result {
            Ok(e) => if k < r.k {
                program_from(t, r.k, Program { exprs: acc.exprs.push(e), errors: acc.errors })
            } else {
                acc
            },
            Err(x) => if k < adv(t, r.k) {
                program_from(t, adv(t, r.k), Program { exprs: acc.exprs, errors: acc.errors.push(x) })
            } else {
                acc
            },
        }
    }
}

/// The result of parsing the source `s`.
pub open spec fn program(s: Seq<char>) -> Program {
    program_from(good_views(s, start_state()), 0, Program { exprs: Seq::empty(), errors: Seq::empty() })
}


/// The message of a parsing failure.
pub open spec fn syntax_message(kind: SyntaxErrorKind) -> Seq<char> {
    match kind {
        SyntaxErrorKind::ExpectedExpression => "Expected expression."@,
        SyntaxErrorKind::ExpectedToken(TokenKind::RightParen) => "Expected ')' after tuple."@,
        SyntaxErrorKind::ExpectedToken(TokenKind::RightSquare) => "Expected ']' after list."@,
        SyntaxErrorKind::ExpectedToken(TokenKind::Pipe) => "Expected '|' after pattern."@,
        SyntaxErrorKind::ExpectedToken(TokenKind::RightBrace) => "Expected '}' after function."@,
        SyntaxErrorKind::ExpectedToken(_) => "Expected another token."@,
        SyntaxErrorKind::ExpectedPattern => "Expected a literal or a name before '|'."@,
        SyntaxErrorKind::NumberTooLarge => "Integer literal out of range."@,
    }
}

/// Where a parsing failure happened, in words.
pub open spec fn syntax_place(t: TokenView) -> Seq<char> {
    if t.kind == TokenKind::Newline {
        " at newline"@
    } else if t.kind == TokenKind::Eof {
        " at end"@
    } else {
        " at '"@ + t.lexeme + "'"@
    }
}

impl Report for ParserError {
    open spec fn spec_position(&self) -> (u32, u32) {
        (self.token.line, self.token.col)
    }

    open spec fn spec_message(&self) -> Seq<char> {
        syntax_message(self.kind)
    }

    open spec fn spec_place(&self) -> Seq<char> {
        syntax_place(self.token@)
    }

    fn position(&self) -> (r: (u32, u32)) {
        (self.token.line, self.token.col)
    }

    fn message(&self) -> (r: String) {
        let mut out = String::new();
        match self.kind {
            SyntaxErrorKind::ExpectedExpression => push_str(&mut out, "Expected expression."),
            SyntaxErrorKind::ExpectedToken(TokenKind::RightParen) => push_str(&mut out, "Expected ')' after tuple."),
            SyntaxErrorKind::ExpectedToken(TokenKind::RightSquare) => push_str(&mut out, "Expected ']' after list."),
            SyntaxErrorKind::ExpectedToken(TokenKind::Pipe) => push_str(&mut out, "Expected '|' after pattern."),
            SyntaxErrorKind::ExpectedToken(TokenKind::RightBrace) => push_str(&mut out, "Expected '}' after function."),
            SyntaxErrorKind::ExpectedToken(_) => push_str(&mut out, "Expected another token."),
            SyntaxErrorKind::ExpectedPattern => push_str(&mut out, "Expected a literal or a name before '|'."),
            SyntaxErrorKind::NumberTooLarge => push_str(&mut out, "Integer literal out of range."),
        }
        out
    }

    fn place(&self) -> (r: String) {
        let mut out = String::new();
        if self.token.kind == TokenKind::Newline {
            push_str(&mut out, " at newline");
        } else if self.token.kind == TokenKind::Eof {
            push_str(&mut out, " at end");
        } else {
            push_str(&mut out, " at '");
            push_str(&mut out, self.token.lexeme.as_str());
            push_str(&mut out, "'");
        }
        out
    }
}

pub open spec fn expr_out(r: Result<Expr, ParserError>, k: int, prev: TokenView) -> Parsed<Node> {
    match r {
        Ok(e) => parsed(Ok(e@), k, prev),
        Err(x) => parsed(Err(x@), k, prev),
    }
}

pub open spec fn list_out(r: Result<Vec<Expr>, ParserError>, k: int, prev: TokenView) -> Parsed<Seq<Node>> {
    match r {
        Ok(v) => parsed(Ok(exprs_view(&v, v@.len() as int)), k, prev),
        Err(x) => parsed(Err(x@), k, prev),
    }
}

pub open spec fn unit_out(r: Result<(), ParserError>, k: int, prev: TokenView) -> Parsed<()> {
    match r {
        Ok(_) => parsed(Ok(()), k, prev),
        Err(x) => parsed(Err(x@), k, prev),
    }
}

pub open spec fn errors_view(v: Seq<ParserError>) -> Seq<SyntaxErrorView> {
    v.map_values(|e: ParserError| e@)
}

proof fn lemma_exprs_view_prefix(a: &Vec<Expr>, b: &Vec<Expr>, n: int)
    requires
        0 <= n <= a@.len(),
        n <= b@.len(),
        a@.subrange(0, n) == b@.subrange(0, n),
    ensures
        exprs_view(a, n) == exprs_view(b, n),
    decreases n,
{
    if n > 0 {
        assert(a@[n - 1] == a@.subrange(0, n)[n - 1]);
        assert(b@[n - 1] == b@.subrange(0, n)[n - 1]);
        assert(a@.subrange(0, n - 1) == a@.subrange(0, n).subrange(0, n - 1));
        assert(b@.subrange(0, n - 1) == b@.subrange(0, n).subrange(0, n - 1));
        lemma_exprs_view_prefix(a, b, n - 1);
    }
}

proof fn lemma_exprs_view_len(v: &Vec<Expr>, n: int)
    requires
        0 <= n <= v@.len(),
    ensures
        exprs_view(v, n).len() == n,
    decreases n,
{
    if n > 0 {
        lemma_exprs_view_len(v, n - 1);
    }
}

proof fn lemma_guards_view_prefix(a: &Vec<FuncGuard>, b: &Vec<FuncGuard>, n: int)
    requires
        0 <= n <= a@.len(),
        n <= b@.len(),
        a@.subrange(0, n) == b@.subrange(0, n),
    ensures
        guards_view(a, n) == guards_view(b, n),
    decreases n,
{
    if n > 0 {
        assert(a@[n - 1] == a@.subrange(0, n)[n - 1]);
        assert(b@[n - 1] == b@.subrange(0, n)[n - 1]);
        assert(a@.subrange(0, n - 1) == a@.subrange(0, n).subrange(0, n - 1));
        assert(b@.subrange(0, n - 1) == b@.subrange(0, n).subrange(0, n - 1));
        lemma_guards_view_prefix(a, b, n - 1);
    }
}

proof fn lemma_cases_view_prefix(a: &Vec<FuncCase>, b: &Vec<FuncCase>, n: int)
    requires
        0 <= n <= a@.len(),
        n <= b@.len(),
        a@.subrange(0, n) == b@.subrange(0, n),
    ensures
        cases_view(a, n) == cases_view(b, n),
    decreases n,
{
    if n > 0 {
        assert(a@[n - 1] == a@.subrange(0, n)[n - 1]);
        assert(b@[n - 1] == b@.subrange(0, n)[n - 1]);
        assert(a@.subrange(0, n - 1) == a@.subrange(0, n).subrange(0, n - 1));
        assert(b@.subrange(0, n - 1) == b@.subrange(0, n).subrange(0, n - 1));
        lemma_cases_view_prefix(a, b, n - 1);
    }
}

fn push_expr(v: &mut Vec<Expr>, e: Expr)
    ensures
        exprs_view(final(v), final(v)@.len() as int) == exprs_view(old(v), old(v)@.len() as int).push(e@),
        final(v)@.len() == old(v)@.len() + 1,
{
    let ghost before = *v;
    v.push(e);
    proof {
        let n = before@.len() as int;
        assert(v@.subrange(0, n) =~= before@.subrange(0, n));
        lemma_exprs_view_prefix(v, &before, n);
    }
}

fn push_guard(v: &mut Vec<FuncGuard>, g: FuncGuard)
    ensures
        guards_view(final(v), final(v)@.len() as int) == guards_view(old(v), old(v)@.len() as int).push(
            GuardNode { condition: g.condition@, value: g.value@ },
        ),
        final(v)@.len() == old(v)@.len() + 1,
{
    let ghost before = *v;
    v.push(g);
    proof {
        let n = before@.len() as int;
        assert(v@.subrange(0, n) =~= before@.subrange(0, n));
        lemma_guards_view_prefix(v, &before, n);
    }
}

fn push_case(v: &mut Vec<FuncCase>, c: FuncCase)
    ensures
        cases_view(final(v), final(v)@.len() as int) == cases_view(old(v), old(v)@.len() as int).push(
            CaseNode { param: pattern_view(c.param), guards: guards_view(&c.guards, c.guards@.len() as int) },
        ),
        final(v)@.len() == old(v)@.len() + 1,
{
    let ghost before = *v;
    v.push(c);
    proof {
        let n = before@.len() as int;
        assert(v@.subrange(0, n) =~= before@.subrange(0, n));
        lemma_cases_view_prefix(v, &before, n);
    }
}

/// The pattern an expression stands for: a literal or a bare name.
fn to_pattern(e: Expr) -> (r: Option<Pattern>)
    ensures
        match pattern_of(e@) {
            Some(p) => r is Some && pattern_view(r->0) == p,
            None => r is None,
        },
{
    match e.node {
        ExprKind::Literal(l) => Some(Pattern::Literal(l)),
        ExprKind::Constant(c) => Some(Pattern::Identifier(Box::new(c.name))),
        _ => None,
    }
}

/// The value of a token's digits, `None` where it does not fit in an `i32`.
fn digits_to_i32(w: &Vec<char>) -> (r: Option<i32>)
    ensures
        digits_value(w@) <= i32::MAX ==> r == Some(digits_value(w@) as i32),
        digits_value(w@) > i32::MAX ==> r is None,
{
    let mut acc: i64 = 0;
    let mut i: usize = 0;
    while i < w.len()
        invariant
            i <= w@.len(),
            acc == digits_value(w@.subrange(0, i as int)),
            acc <= i32::MAX,
        decreases w@.len() - i,
    {
        let c = w[i];
        let d: u32 = if '0' <= c && c <= '9' { (c as u32) - ('0' as u32) } else { 0 };
        assert(w@.subrange(0, i + 1).drop_last() =~= w@.subrange(0, i as int));
        acc = acc * 10 + d as i64;
        if acc > i32::MAX as i64 {
            proof {
                lemma_digits_grow(w@, i + 1);
            }
            return None;
        }
        i = i + 1;
    }
    assert(w@.subrange(0, i as int) =~= w@);
    Some(acc as i32)
}

/// A longer run of digits is worth at least as much as its start.
proof fn lemma_digits_grow(w: Seq<char>, n: int)
    requires
        0 <= n <= w.len(),
    ensures
        digits_value(w.subrange(0, n)) <= digits_value(w),
    decreases w.len() - n,
{
    if n < w.len() {
        lemma_digits_grow(w, n + 1);
        assert(w.subrange(0, n + 1).drop_last() =~= w.subrange(0, n));
    } else {
        assert(w.subrange(0, n) =~= w);
    }
}

/// The parser: a scanner and a window of two tokens, the previous and the current one.
pub struct Parser {
    scanner: Scanner,
    previous: Token,
    current: Token,
    errors: Vec<ParserError>,
    scan_errors: Vec<ScannerError>,
    toks: Ghost<Seq<TokenView>>,
    k: Ghost<int>,
}

impl Parser {
    /// The source text.
    pub closed spec fn text(&self) -> Seq<char> {
        self.scanner.text()
    }

    /// All tokens of the source, failures left out.
    pub closed spec fn stream(&self) -> Seq<TokenView> {
        self.toks@
    }

    /// Index of the current token in `stream()`.
    pub closed spec fn index(&self) -> int {
        self.k@
    }

    pub closed spec fn prev(&self) -> TokenView {
        self.previous@
    }

    /// The syntax errors met so far.
    pub closed spec fn syntax_errors(&self) -> Seq<SyntaxErrorView> {
        errors_view(self.errors@)
    }

    /// The scanning failures met so far.
    pub closed spec fn lex_errors(&self) -> Seq<crate::scanner::LexErrorView> {
        lex_errors_view(self.scan_errors@)
    }

    /// What parsing the rest of the source from here yields, with the errors met so far.
    pub open spec fn pending(&self) -> Program {
        program_from(self.stream(), self.index(), Program { exprs: Seq::empty(), errors: self.syntax_errors() })
    }

    pub closed spec fn wf(&self) -> bool {
        let t = self.toks@;
        let k = self.k@;
        let st = self.scanner.state();
        let s = self.scanner.text();
        &&& self.scanner.wf()
        &&& stream_wf(t)
        &&& t == good_views(s, start_state())
        &&& 0 <= k < t.len()
        &&& self.current@ == t[k]
        &&& k < t.len() - 1 ==> good_views(s, st) == t.subrange(k + 1, t.len() as int)
        &&& k == t.len() - 1 ==> st.pos == s.len() && self.current@ == crate::scanner::token_at(
            TokenKind::Eof,
            st.line,
            st.col,
            Seq::empty(),
        )
        &&& lex_errors_view(self.scan_errors@) + lex_errs(s, st) == lex_errs(s, start_state())
    }

    /// Whether `self` parses the same stream as `other`, with the same errors.
    pub closed spec fn same_stream(&self, other: &Parser) -> bool {
        &&& self.toks@ == other.toks@
        &&& self.scanner.text() == other.scanner.text()
        &&& self.errors@ == other.errors@
    }

    /// A parser over `source`, with the first token read.
    pub fn new(source: String) -> (r: Parser)
        requires
            source@.len() < u32::MAX,
        ensures
            r.wf(),
            r.text() == source@,
            r.index() == 0,
            r.syntax_errors() == Seq::<SyntaxErrorView>::empty(),
            r.pending() == program(source@),
    {
        let scanner = Scanner::new(source);
        let ghost s = scanner.text();
        let ghost t = good_views(s, start_state());
        let mut p = Parser {
            scanner,
            previous: Token { kind: TokenKind::NoToken, line: 0, col: 0, lexeme: String::new() },
            current: Token { kind: TokenKind::NoToken, line: 0, col: 0, lexeme: String::new() },
            errors: Vec::new(),
            scan_errors: Vec::new(),
            toks: Ghost(t),
            k: Ghost(-1),
        };
        p.first();
        assert(errors_view(p.errors@) =~= Seq::<SyntaxErrorView>::empty());
        p
    }

    /// Reads the first token.
    fn first(&mut self)
        requires
            old(self).scanner.wf(),
            old(self).scanner.state() == start_state(),
            old(self).toks@ == good_views(old(self).scanner.text(), start_state()),
            old(self).scan_errors@.len() == 0,
            old(self).errors@.len() == 0,
        ensures
            final(self).wf(),
            final(self).scanner.text() == old(self).scanner.text(),
            final(self).k@ == 0,
            final(self).errors@.len() == 0,
    {
        let ghost s = self.scanner.text();
        proof {
            self.scanner.lemma_within();
            lemma_stream_wf(s, start_state());
            assert(lex_errors_view(self.scan_errors@) =~= Seq::empty());
        }
        let t = self.next_token();
        self.current = t;
        self.k = Ghost(0);
        proof {
            let tt = self.toks@;
            if tt.len() > 1 {
                assert(tt.subrange(1, tt.len() as int) =~= good_views(s, self.scanner.state()));
            }
        }
    }

    /// Scans until a token comes, recording the failures met on the way.
    fn next_token(&mut self) -> (r: Token)
        requires
            old(self).scanner.wf(),
        ensures
            final(self).scanner.wf(),
            final(self).scanner.text() == old(self).scanner.text(),
            final(self).toks == old(self).toks,
            final(self).k == old(self).k,
            final(self).errors == old(self).errors,
            final(self).previous == old(self).previous,
            final(self).current == old(self).current,
            crate::scanner::good_step(old(self).scanner.text(), old(self).scanner.state(), final(self).scanner.state(), r@),
            lex_errors_view(final(self).scan_errors@) + lex_errs(final(self).scanner.text(), final(self).scanner.state())
                == lex_errors_view(old(self).scan_errors@) + lex_errs(old(self).scanner.text(), old(self).scanner.state()),
    {
        self.scanner.scan_good(&mut self.scan_errors)
    }

    /// The syntax errors met so far.
    pub fn errors(&self) -> (r: &Vec<ParserError>)
        ensures
            errors_view(r@) == self.syntax_errors(),
    {
        &self.errors
    }

    /// The scanning failures met so far.
    pub fn scan_errors(&self) -> (r: &Vec<ScannerError>)
        ensures
            lex_errors_view(r@) == self.lex_errors(),
    {
        &self.scan_errors
    }

    /// The source text, as characters.
    pub fn source(&self) -> (r: &Vec<char>)
        ensures
            r@ == self.text(),
    {
        self.scanner.source()
    }

    /// Parses every top-level form up to the end of the source. Newlines between forms are
    /// skipped; a form that fails is recorded in `errors()` and the parser moves past one
    /// token and goes on. Returns the forms that parsed, in order.
    pub fn parse(&mut self) -> (r: Vec<Expr>)
        requires
            old(self).wf(),
        ensures
            final(self).wf(),
            final(self).text() == old(self).text(),
            exprs_view(&r, r@.len() as int) == old(self).pending().exprs,
            final(self).syntax_errors() == old(self).pending().errors,
            final(self).lex_errors() == lex_errs(old(self).text(), start_state()),
    {
        let mut out: Vec<Expr> = Vec::new();
        let ghost t = self.toks@;
        proof {
            assert(exprs_view(&out, 0) =~= Seq::<Node>::empty());
        }
        loop
            invariant
                self.wf(),
                self.toks@ == old(self).toks@,
                self.toks@ == t,
                self.scanner.text() == old(self).scanner.text(),
                program_from(t, self.k@, Program { exprs: exprs_view(&out, out@.len() as int), errors: errors_view(self.errors@) })
                    == old(self).pending(),
            decreases remaining(t, self.k@),
        {
            if self.current.kind == TokenKind::Eof {
                proof {
                    self.lemma_at_end();
                }
                return out;
            }
            if self.current.kind == TokenKind::Newline {
                self.advance();
            } else {
                match self.parse_precedence(Precedence::Or) {
                    Ok(e) => {
                        push_expr(&mut out, e);
                    },
                    Err(x) => {
                        let ghost errs = self.errors@;
                        self.errors.push(x);
                        assert(errors_view(self.errors@) =~= errors_view(errs).push(x@));
                        self.advance();
                    },
                }
            }
        }
    }

    /// At `Eof` every scanning failure has been met.
    proof fn lemma_at_end(&self)
        requires
            self.wf(),
            self.current.kind == TokenKind::Eof,
        ensures
            lex_errors_view(self.scan_errors@) == lex_errs(self.text(), start_state()),
    {
        let t = self.toks@;
        let s = self.scanner.text();
        let st = self.scanner.state();
        if self.k@ < t.len() - 1 {
            assert(t[self.k@].kind != TokenKind::Eof);
        }
        lemma_step_progress(s, st);
        assert(lex_errs(s, st) =~= Seq::empty());
        assert(lex_errors_view(self.scan_errors@) =~= lex_errors_view(self.scan_errors@) + lex_errs(s, st));
    }

    /// Moves the window one token on; on `Eof` it stays.
    fn advance(&mut self)
        requires
            old(self).wf(),
        ensures
            final(self).wf(),
            final(self).same_stream(old(self)),
            final(self).k@ == adv(old(self).toks@, old(self).k@),
            final(self).previous@ == old(self).current@,
    {
        let ghost t = self.toks@;
        let ghost k = self.k@;
        if self.current.kind == TokenKind::Eof {
            proof {
                if k < t.len() - 1 {
                    assert(t[k].kind != TokenKind::Eof);
                }
            }
            self.previous = self.current.duplicate();
        } else {
            let ghost s = self.scanner.text();
            let ghost st0 = self.scanner.state();
            let tok = self.next_token();
            std::mem::swap(&mut self.previous, &mut self.current);
            self.current = tok;
            self.k = Ghost(k + 1);
            proof {
                assert(k < t.len() - 1);
                let rest = t.subrange(k + 1, t.len() as int);
                assert(rest[0] == t[k + 1]);
                if tok.kind == TokenKind::Eof {
                    assert(rest.len() == 1);
                } else {
                    assert(rest.subrange(1, rest.len() as int) =~= good_views(s, self.scanner.state()));
                    assert(t.subrange(k + 2, t.len() as int) =~= rest.subrange(1, rest.len() as int));
                    if k + 1 == t.len() - 1 {
                        assert(t[k + 1].kind == TokenKind::Eof);
                    }
                }
            }
        }
    }

    /// Requires the current token to be of `kind` and moves past it.
    fn expect(&mut self, kind: TokenKind) -> (r: Result<(), ParserError>)
        requires
            old(self).wf(),
        ensures
            final(self).wf(),
            final(self).same_stream(old(self)),
            final(self).k@ >= old(self).k@,
            unit_out(r, final(self).k@, final(self).previous@) == expect_spec(old(self).toks@, old(self).k@, old(self).previous@, kind),
    {
        if self.current.kind == kind {
            self.advance();
            Ok(())
        } else {
            Err(ParserError { token: self.current.duplicate(), kind: SyntaxErrorKind::ExpectedToken(kind) })
        }
    }

    /// Parses an expression whose operators bind at least as tightly as `min`.
    fn parse_precedence(&mut self, min: Precedence) -> (r: Result<Expr, ParserError>)
        requires
            old(self).wf(),
        ensures
            final(self).wf(),
            final(self).same_stream(old(self)),
            final(self).k@ >= old(self).k@,
            old(self).current.kind != TokenKind::Eof ==> final(self).k@ > old(self).k@,
            expr_out(r, final(self).k@, final(self).previous@) == parse_prec(old(self).toks@, old(self).k@, min),
        decreases remaining(old(self).toks@, old(self).k@), 1int,
    {
        let ghost t = self.toks@;
        let ghost k = self.k@;
        proof {
            if k < t.len() - 1 {
                assert(t[k] == self.current@);
            }
        }
        self.advance();
        let rule = get_parse_rule(self.previous.kind);
        match rule.prefix {
            None => Err(ParserError { token: self.previous.duplicate(), kind: SyntaxErrorKind::ExpectedExpression }),
            Some(p) => {
                proof {
                    if k == t.len() - 1 {
                        assert(self.previous@.kind == TokenKind::Eof);
                    }
                }
                match self.parse_prefix(p) {
                    Err(x) => Err(x),
                    Ok(e) => self.climb(min, e),
                }
            },
        }
    }

    /// While the current token is an operator binding at least as tightly as `min`, moves
    /// past it and combines `left` with what follows.
    fn climb(&mut self, min: Precedence, left: Expr) -> (r: Result<Expr, ParserError>)
        requires
            old(self).wf(),
        ensures
            final(self).wf(),
            final(self).same_stream(old(self)),
            final(self).k@ >= old(self).k@,
            expr_out(r, final(self).k@, final(self).previous@) == climb(old(self).toks@, old(self).k@, old(self).previous@, min, left@),
        decreases remaining(old(self).toks@, old(self).k@), 0int,
    {
        let ghost t = self.toks@;
        let ghost target = climb(t, self.k@, self.previous@, min, left@);
        let mut expr = left;
        loop
            invariant
                self.wf(),
                self.same_stream(old(self)),
                self.toks@ == t,
                t == old(self).toks@,
                target == climb(old(self).toks@, old(self).k@, old(self).previous@, min, left@),
                self.k@ >= old(self).k@,
                climb(t, self.k@, self.previous@, min, expr@) == target,
            decreases remaining(t, self.k@),
        {
            let rule = get_parse_rule(self.current.kind);
            if min.rank() <= rule.precedence.rank() {
                match rule.infix {
                    Some(w) => {
                        proof {
                            if self.k@ == t.len() - 1 {
                                assert(self.current@.kind == TokenKind::Eof);
                            }
                        }
                        self.advance();
                        match self.parse_infix(w, expr) {
                            Ok(e) => {
                                expr = e;
                            },
                            Err(x) => {
                                return Err(x);
                            },
                        }
                    },
                    None => {
                        return Ok(expr);
                    },
                }
            } else {
                return Ok(expr);
            }
        }
    }

    /// The infix operation of the operator just passed, applied to `left`.
    fn parse_infix(&mut self, which: Infix, left: Expr) -> (r: Result<Expr, ParserError>)
        requires
            old(self).wf(),
        ensures
            final(self).wf(),
            final(self).same_stream(old(self)),
            final(self).k@ >= old(self).k@,
            expr_out(r, final(self).k@, final(self).previous@) == infix_spec(old(self).toks@, old(self).k@, old(self).previous@, which, left@),
        decreases remaining(old(self).toks@, old(self).k@), 2int,
    {
        let op = self.previous.duplicate();
        let rule = get_parse_rule(op.kind);
        let min = match which {
            Infix::Left => Precedence::from(rule.precedence.rank() + 1),
            Infix::Right => rule.precedence,
        };
        let right = match self.parse_precedence(min) {
            Ok(e) => e,
            Err(x) => {
                return Err(x);
            },
        };
        if op.kind == TokenKind::And || op.kind == TokenKind::Or {
            Ok(Expr::new(ExprKind::Logical(Box::new(LogicalExpr { operator: op, left, right })), Typ::Unknown))
        } else if op.kind == TokenKind::RightArrow {
            Ok(Expr::new(ExprKind::Apply(Box::new(ApplyExpr { operator: op, func: right, arg: left })), Typ::Unknown))
        } else if op.kind == TokenKind::LeftArrow {
            Ok(Expr::new(ExprKind::Apply(Box::new(ApplyExpr { operator: op, func: left, arg: right })), Typ::Unknown))
        } else {
            Ok(Expr::new(ExprKind::Binary(Box::new(BinaryExpr { operator: op, left, right })), Typ::Unknown))
        }
    }

    /// The prefix operation of the token just passed.
    fn parse_prefix(&mut self, which: Prefix) -> (r: Result<Expr, ParserError>)
        requires
            old(self).wf(),
        ensures
            final(self).wf(),
            final(self).same_stream(old(self)),
            final(self).k@ >= old(self).k@,
            expr_out(r, final(self).k@, final(self).previous@) == prefix_spec(old(self).toks@, old(self).k@, old(self).previous@, which),
        decreases remaining(old(self).toks@, old(self).k@), 4int,
    {
        match which {
            Prefix::Number => self.parse_number(),
            Prefix::Bool => Ok(Literal::Bool(self.previous.kind == TokenKind::True).into_expr()),
            Prefix::Str => Ok(Literal::String(self.previous.lexeme.clone()).into_expr()),
            Prefix::Constant => Ok(Expr::new(
                ExprKind::Constant(Box::new(ConstantExpr { name: self.previous.duplicate() })),
                Typ::Unknown,
            )),
            Prefix::Unary => {
                let operator = self.previous.duplicate();
                match self.parse_precedence(Precedence::Unary) {
                    Ok(operand) => Ok(Expr::new(ExprKind::Unary(Box::new(UnaryExpr { operator, operand })), Typ::Unknown)),
                    Err(x) => Err(x),
                }
            },
            Prefix::Group => self.parse_group(),
            Prefix::List => self.parse_list(),
            Prefix::Func => self.parse_func(),
        }
    }

    /// The literal of the number token just passed: a float where it holds a point, else
    /// a 32-bit integer.
    fn parse_number(&mut self) -> (r: Result<Expr, ParserError>)
        requires
            old(self).wf(),
        ensures
            *final(self) == *old(self),
            expr_out(r, final(self).k@, final(self).previous@) == parsed(number_node(old(self).previous@), old(self).k@, old(self).previous@),
    {
        let w = crate::text::chars_of(&self.previous.lexeme);
        let mut i: usize = 0;
        while i < w.len()
            invariant
                i <= w@.len(),
                w@ == self.previous.lexeme@,
                *self == *old(self),
                forall|j: int| 0 <= j < i ==> w@[j] != '.',
            decreases w@.len() - i,
        {
            if w[i] == '.' {
                assert(self.previous.lexeme@[i as int] == '.');
                return Ok(Literal::Float(self.previous.lexeme.clone()).into_expr());
            }
            i = i + 1;
        }
        match digits_to_i32(&w) {
            Some(v) => Ok(Literal::Int(v).into_expr()),
            None => Err(ParserError { token: self.previous.duplicate(), kind: SyntaxErrorKind::NumberTooLarge }),
        }
    }

    /// Comma-separated expressions, appended to `acc`.
    fn parse_elements(&mut self, init: Vec<Expr>) -> (r: Result<Vec<Expr>, ParserError>)
        requires
            old(self).wf(),
        ensures
            final(self).wf(),
            final(self).same_stream(old(self)),
            final(self).k@ >= old(self).k@,
            list_out(r, final(self).k@, final(self).previous@) == elements(old(self).toks@, old(self).k@, exprs_view(&init, init@.len() as int)),
        decreases remaining(old(self).toks@, old(self).k@), 2int,
    {
        let ghost t = self.toks@;
        let ghost target = elements(t, self.k@, exprs_view(&init, init@.len() as int));
        let mut acc = init;
        loop
            invariant
                self.wf(),
                self.same_stream(old(self)),
                self.toks@ == t,
                t == old(self).toks@,
                target == elements(old(self).toks@, old(self).k@, exprs_view(&init, init@.len() as int)),
                self.k@ >= old(self).k@,
                elements(t, self.k@, exprs_view(&acc, acc@.len() as int)) == target,
            decreases remaining(t, self.k@),
        {
            let e = match self.parse_precedence(Precedence::Or) {
                Ok(e) => e,
                Err(x) => {
                    return Err(x);
                },
            };
            push_expr(&mut acc, e);
            if self.current.kind == TokenKind::Comma {
                proof {
                    if self.k@ == t.len() - 1 {
                        assert(self.current@.kind == TokenKind::Eof);
                    }
                }
                self.advance();
            } else {
                return Ok(acc);
            }
        }
    }

    /// After `(`: a single expression, or a tuple of two or more; then `)`.
    fn parse_group(&mut self) -> (r: Result<Expr, ParserError>)
        requires
            old(self).wf(),
        ensures
            final(self).wf(),
            final(self).same_stream(old(self)),
            final(self).k@ >= old(self).k@,
            expr_out(r, final(self).k@, final(self).previous@) == group_spec(old(self).toks@, old(self).k@, old(self).previous@),
        decreases remaining(old(self).toks@, old(self).k@), 3int,
    {
        let paren = self.previous.duplicate();
        let init: Vec<Expr> = Vec::new();
        proof {
            assert(exprs_view(&init, init@.len() as int) =~= Seq::<Node>::empty());
        }
        let mut es = match self.parse_elements(init) {
            Ok(es) => es,
            Err(x) => {
                return Err(x);
            },
        };
        match self.expect(TokenKind::RightParen) {
            Err(x) => Err(x),
            Ok(()) => {
                proof {
                    lemma_exprs_view_len(&es, es@.len() as int);
                }
                if es.len() == 1 {
                    let ghost before = es;
                    let e = es.remove(0);
                    proof {
                        reveal_with_fuel(exprs_view, 2);
                        assert(exprs_view(&before, 1)[0] == e@);
                    }
                    Ok(e)
                } else {
                    Ok(Expr::new(ExprKind::Tuple(Box::new(TupleExpr { elements: es, paren })), Typ::Unknown))
                }
            },
        }
    }

    /// After `[`: zero or more comma-separated expressions, then `]`.
    fn parse_list(&mut self) -> (r: Result<Expr, ParserError>)
        requires
            old(self).wf(),
        ensures
            final(self).wf(),
            final(self).same_stream(old(self)),
            final(self).k@ >= old(self).k@,
            expr_out(r, final(self).k@, final(self).previous@) == list_spec(old(self).toks@, old(self).k@, old(self).previous@),
        decreases remaining(old(self).toks@, old(self).k@), 3int,
    {
        let square = self.previous.duplicate();
        let init: Vec<Expr> = Vec::new();
        proof {
            assert(exprs_view(&init, init@.len() as int) =~= Seq::<Node>::empty());
        }
        let es = if self.current.kind == TokenKind::RightSquare {
            init
        } else {
            match self.parse_elements(init) {
                Ok(es) => es,
                Err(x) => {
                    return Err(x);
                },
            }
        };
        match self.expect(TokenKind::RightSquare) {
            Err(x) => Err(x),
            Ok(()) => Ok(Expr::new(ExprKind::List(Box::new(ListExpr { elements: es, square })), Typ::Unknown)),
        }
    }

    /// After `{`: the first pattern, `|`, then the guards and further cases.
    fn parse_func(&mut self) -> (r: Result<Expr, ParserError>)
        requires
            old(self).wf(),
        ensures
            final(self).wf(),
            final(self).same_stream(old(self)),
            final(self).k@ >= old(self).k@,
            expr_out(r, final(self).k@, final(self).previous@) == func_spec(old(self).toks@, old(self).k@),
        decreases remaining(old(self).toks@, old(self).k@), 3int,
    {
        let e = match self.parse_precedence(Precedence::Or) {
            Ok(e) => e,
            Err(x) => {
                return Err(x);
            },
        };
        let last = self.previous.duplicate();
        let ghost t = self.toks@;
        proof {
            if self.k@ == t.len() - 1 {
                assert(self.current@.kind == TokenKind::Eof);
            }
        }
        match self.expect(TokenKind::Pipe) {
            Err(x) => Err(x),
            Ok(()) => match to_pattern(e) {
                None => Err(ParserError { token: last, kind: SyntaxErrorKind::ExpectedPattern }),
                Some(p) => self.parse_guards(p),
            },
        }
    }

    /// The guards of a case with pattern `pat`, then any further cases, then `}`.
    fn parse_guards(&mut self, first: Pattern) -> (r: Result<Expr, ParserError>)
        requires
            old(self).wf(),
        ensures
            final(self).wf(),
            final(self).same_stream(old(self)),
            final(self).k@ >= old(self).k@,
            expr_out(r, final(self).k@, final(self).previous@) == guards_spec(
                old(self).toks@,
                old(self).k@,
                Seq::empty(),
                pattern_view(first),
                Seq::empty(),
            ),
        decreases remaining(old(self).toks@, old(self).k@), 2int,
    {
        let ghost t = self.toks@;
        let ghost target = guards_spec(t, self.k@, Seq::empty(), pattern_view(first), Seq::empty());
        let mut cases: Vec<FuncCase> = Vec::new();
        let mut gs: Vec<FuncGuard> = Vec::new();
        let mut pat = first;
        proof {
            assert(cases_view(&cases, 0) =~= Seq::<CaseNode>::empty());
            assert(guards_view(&gs, 0) =~= Seq::<GuardNode>::empty());
        }
        loop
            invariant
                self.wf(),
                self.same_stream(old(self)),
                self.toks@ == t,
                t == old(self).toks@,
                self.k@ >= old(self).k@,
                target == guards_spec(old(self).toks@, old(self).k@, Seq::empty(), pattern_view(first), Seq::empty()),
                guards_spec(
                    t,
                    self.k@,
                    cases_view(&cases, cases@.len() as int),
                    pattern_view(pat),
                    guards_view(&gs, gs@.len() as int),
                ) == target,
            decreases remaining(t, self.k@),
        {
            let e = match self.parse_precedence(Precedence::Or) {
                Ok(e) => e,
                Err(x) => {
                    return Err(x);
                },
            };
            proof {
                if self.k@ == t.len() - 1 {
                    assert(self.current@.kind == TokenKind::Eof);
                }
            }
            if self.current.kind == TokenKind::Pipe {
                if gs.len() == 0 {
                    return Err(ParserError { token: self.current.duplicate(), kind: SyntaxErrorKind::ExpectedExpression });
                }
                let last = self.previous.duplicate();
                match to_pattern(e) {
                    None => {
                        return Err(ParserError { token: last, kind: SyntaxErrorKind::ExpectedPattern });
                    },
                    Some(p2) => {
                        self.advance();
                        let done = FuncCase { param: pat, guards: gs };
                        push_case(&mut cases, done);
                        pat = p2;
                        gs = Vec::new();
                        proof {
                            assert(guards_view(&gs, 0) =~= Seq::<GuardNode>::empty());
                        }
                    },
                }
            } else {
                let guard = if self.current.kind == TokenKind::Question {
                    self.advance();
                    match self.parse_precedence(Precedence::Or) {
                        Ok(v) => FuncGuard { condition: e, value: v },
                        Err(x) => {
                            return Err(x);
                        },
                    }
                } else {
                    FuncGuard { condition: Literal::Bool(true).into_expr(), value: e }
                };
                push_guard(&mut gs, guard);
                proof {
                    if self.k@ == t.len() - 1 {
                        assert(self.current@.kind == TokenKind::Eof);
                    }
                }
                if self.current.kind == TokenKind::Comma {
                    self.advance();
                } else {
                    match self.expect(TokenKind::RightBrace) {
                        Err(x) => {
                            return Err(x);
                        },
                        Ok(()) => {
                            push_case(&mut cases, FuncCase { param: pat, guards: gs });
                            return Ok(Expr::new(ExprKind::Func(Box::new(FuncExpr { cases })), Typ::Unknown));
                        },
                    }
                }
            }
        }
    }
}

/// The token stream of any source ends with its only `Eof`.
pub proof fn lemma_stream_wf(s: Seq<char>, st: ScanState)
    requires
        st.pos <= s.len(),
    ensures
        stream_wf(good_views(s, st)),
    decreases s.len() - st.pos,
{
    lemma_step_progress(s, st);
    let (r, st2) = scan_step(s, st);
    match r {
        Ok(t) => {
            if t.kind != TokenKind::Eof {
                lemma_stream_wf(s, st2);
                let rest = good_views(s, st2);
                let all = seq![t] + rest;
                assert forall|i: int| 0 <= i < all.len() - 1 implies (#[trigger] all[i]).kind != TokenKind::Eof by {
                    if i > 0 {
                        assert(all[i] == rest[i - 1]);
                    }
                }
                assert(all.last() == rest.last());
            }
        },
        Err(_) => {
            lemma_stream_wf(s, st2);
        },
    }
}

} // verus!

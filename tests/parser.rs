use gwn::ast::{ConstantDecl, Decl, EvaluatedDecl, Expr, ExprKind, Literal, Pattern};
use gwn::error::Report;
use gwn::parser::{get_parse_rule, Infix, Parser, Precedence, Prefix, SyntaxErrorKind};
use gwn::scanner::{Token, TokenKind};
use gwn::typ::Typ;

fn parse(src: &str) -> (Vec<Expr>, Parser) {
    let mut p = Parser::new(src.to_string());
    let out = p.parse();
    (out, p)
}

fn one(src: &str) -> Expr {
    let (mut out, p) = parse(src);
    assert!(p.errors().is_empty(), "unexpected errors in {:?}", src);
    assert_eq!(out.len(), 1);
    out.pop().unwrap()
}

/// A compact rendering of a tree, for comparing shapes.
fn shape(e: &Expr) -> String {
    match &e.node {
        ExprKind::Constant(c) => c.name.lexeme.clone(),
        ExprKind::Unary(u) => format!("({} {})", u.operator.lexeme, shape(&u.operand)),
        ExprKind::Binary(b) => format!("Binary({}, {}, {})", b.operator.lexeme, shape(&b.left), shape(&b.right)),
        ExprKind::Logical(b) => format!("Logical({}, {}, {})", b.operator.lexeme, shape(&b.left), shape(&b.right)),
        ExprKind::Apply(a) => format!("Apply({}, {})", shape(&a.func), shape(&a.arg)),
        ExprKind::Func(f) => {
            let cases: Vec<String> = f
                .cases
                .iter()
                .map(|c| {
                    let p = match &c.param {
                        Pattern::Literal(l) => lit(l),
                        Pattern::Identifier(t) => t.lexeme.clone(),
                    };
                    let gs: Vec<String> =
                        c.guards.iter().map(|g| format!("{} ? {}", shape(&g.condition), shape(&g.value))).collect();
                    format!("{} | {}", p, gs.join(", "))
                })
                .collect();
            format!("Func[{}]", cases.join("; "))
        }
        ExprKind::Literal(l) => lit(l),
        ExprKind::Tuple(t) => format!("Tuple({})", t.elements.iter().map(shape).collect::<Vec<_>>().join(", ")),
        ExprKind::List(t) => format!("List({})", t.elements.iter().map(shape).collect::<Vec<_>>().join(", ")),
    }
}

fn lit(l: &Literal) -> String {
    match l {
        Literal::Int(v) => format!("{}", v),
        Literal::Float(t) => format!("f{}", t),
        Literal::Bool(b) => format!("{}", b),
        Literal::String(t) => format!("{:?}", t),
    }
}

#[test]
fn float_literal() {
    let e = one("3.14");
    match &e.node {
        ExprKind::Literal(Literal::Float(t)) => assert_eq!(t.parse::<f64>().unwrap(), 3.14),
        _ => panic!("not a float"),
    }
    assert_eq!(e.typ, Typ::Float);
}

#[test]
fn int_literal() {
    let e = one("42");
    assert!(matches!(&e.node, ExprKind::Literal(Literal::Int(42))));
    assert_eq!(e.typ, Typ::Int);
}

#[test]
fn bool_literal() {
    let e = one("true");
    assert!(matches!(&e.node, ExprKind::Literal(Literal::Bool(true))));
    assert_eq!(e.typ, Typ::Bool);
    assert!(matches!(&one("false").node, ExprKind::Literal(Literal::Bool(false))));
}

#[test]
fn string_literal_with_newline() {
    let e = one("\"a\\nb\"");
    match &e.node {
        ExprKind::Literal(Literal::String(s)) => assert_eq!(s, "a\nb"),
        _ => panic!("not a string"),
    }
    assert_eq!(e.typ, Typ::String);
}

#[test]
fn largest_int_and_one_past() {
    assert!(matches!(&one("2147483647").node, ExprKind::Literal(Literal::Int(2147483647))));
    let (out, p) = parse("2147483648");
    assert!(out.is_empty());
    assert_eq!(p.errors().len(), 1);
    assert_eq!(p.errors()[0].kind, SyntaxErrorKind::NumberTooLarge);
}

#[test]
fn product_binds_tighter_than_sum() {
    assert_eq!(shape(&one("2 + 3 * 4")), "Binary(+, 2, Binary(*, 3, 4))");
    assert_eq!(shape(&one("2 * 3 + 4")), "Binary(+, Binary(*, 2, 3), 4)");
}

#[test]
fn arithmetic_is_left_associative() {
    assert_eq!(shape(&one("1 - 2 - 3")), "Binary(-, Binary(-, 1, 2), 3)");
    assert_eq!(shape(&one("2 ^ 3 ^ 4")), "Binary(^, Binary(^, 2, 3), 4)");
}

#[test]
fn colon_is_right_associative() {
    assert_eq!(shape(&one("1 : 2 : xs")), "Binary(:, 1, Binary(:, 2, xs))");
}

#[test]
fn pipe_and_call_mirror_each_other() {
    let a = shape(&one("a -> f -> g"));
    let b = shape(&one("g <- f <- a"));
    assert_eq!(a, "Apply(g, Apply(f, a))");
    assert_eq!(a, b);
}

#[test]
fn and_binds_tighter_than_or() {
    assert_eq!(shape(&one("a and b or c")), "Logical(or, Logical(and, a, b), c)");
}

#[test]
fn comparison_and_equality() {
    assert_eq!(shape(&one("a < b == c >= d")), "Binary(==, Binary(<, a, b), Binary(>=, c, d))");
    assert_eq!(shape(&one("a != b")), "Binary(!=, a, b)");
}

#[test]
fn unary_operators() {
    assert_eq!(shape(&one("-a * b")), "Binary(*, (- a), b)");
    assert_eq!(shape(&one("not a and b")), "Logical(and, (not a), b)");
}

#[test]
fn single_parenthesised_expression_is_not_a_tuple() {
    assert_eq!(shape(&one("(5)")), shape(&one("5")));
    assert!(matches!(&one("(5)").node, ExprKind::Literal(Literal::Int(5))));
    assert_eq!(shape(&one("(1 + 2) * 3")), "Binary(*, Binary(+, 1, 2), 3)");
}

#[test]
fn two_elements_make_a_tuple() {
    let e = one("(5, 6)");
    match &e.node {
        ExprKind::Tuple(t) => {
            assert_eq!(t.elements.len(), 2);
            assert_eq!(t.paren.kind, TokenKind::LeftParen);
        }
        _ => panic!("not a tuple"),
    }
    assert_eq!(e.typ, Typ::Unknown);
    assert_eq!(shape(&one("(1, 2, 3)")), "Tuple(1, 2, 3)");
}

#[test]
fn lists() {
    assert_eq!(shape(&one("[]")), "List()");
    assert_eq!(shape(&one("[1]")), "List(1)");
    assert_eq!(shape(&one("[1, 2 + 3]")), "List(1, Binary(+, 2, 3))");
}

#[test]
fn unclosed_group_and_list() {
    let (_, p) = parse("(1, 2");
    assert_eq!(p.errors()[0].kind, SyntaxErrorKind::ExpectedToken(TokenKind::RightParen));
    assert_eq!(p.errors()[0].message(), "Expected ')' after tuple.");
    assert_eq!(p.errors()[0].place(), " at end");
    let (_, p) = parse("[1 2]");
    assert_eq!(p.errors()[0].kind, SyntaxErrorKind::ExpectedToken(TokenKind::RightSquare));
    assert_eq!(p.errors()[0].message(), "Expected ']' after list.");
    assert_eq!(p.errors()[0].place(), " at '2'");
}

#[test]
fn function_with_implicit_guard() {
    assert_eq!(shape(&one("{x | x + 1}")), "Func[x | true ? Binary(+, x, 1)]");
}

#[test]
fn function_with_guards_and_cases() {
    assert_eq!(
        shape(&one("{0 | \"zero\", n | n < 0 ? \"neg\", \"pos\"}")),
        "Func[0 | true ? \"zero\"; n | Binary(<, n, 0) ? \"neg\", true ? \"pos\"]"
    );
}

#[test]
fn function_errors() {
    let (_, p) = parse("{x + 1 | 2}");
    assert_eq!(p.errors()[0].kind, SyntaxErrorKind::ExpectedPattern);
    let (_, p) = parse("{x 2}");
    assert_eq!(p.errors()[0].kind, SyntaxErrorKind::ExpectedToken(TokenKind::Pipe));
    let (_, p) = parse("{x | 1");
    assert_eq!(p.errors()[0].kind, SyntaxErrorKind::ExpectedToken(TokenKind::RightBrace));
    assert_eq!(p.errors()[0].message(), "Expected '}' after function.");
}

#[test]
fn one_error_and_the_next_line_still_parses() {
    let (out, p) = parse("1 + + 2\n3");
    assert_eq!(p.errors().len(), 1);
    assert_eq!(p.errors()[0].kind, SyntaxErrorKind::ExpectedExpression);
    assert_eq!(p.errors()[0].place(), " at '+'");
    assert_eq!(p.errors()[0].message(), "Expected expression.");
    assert_eq!(out.len(), 1);
    assert_eq!(shape(&out[0]), "3");
}

#[test]
fn forms_on_separate_lines() {
    let (out, p) = parse("1\n\n2 + 3\n# done\n");
    assert!(p.errors().is_empty());
    let shapes: Vec<String> = out.iter().map(shape).collect();
    assert_eq!(shapes, vec!["1".to_string(), "Binary(+, 2, 3)".to_string()]);
}

#[test]
fn error_at_newline_is_placed_there() {
    let (out, p) = parse("1 +\n2");
    assert_eq!(p.errors().len(), 1);
    assert_eq!(p.errors()[0].place(), " at newline");
    // recovery moves past exactly one token, which here is the `2`
    assert!(out.is_empty());
}

#[test]
fn lexical_errors_are_reported_and_parsing_goes_on() {
    let (out, p) = parse("1 $ + 2");
    assert_eq!(p.scan_errors().len(), 1);
    assert!(p.errors().is_empty());
    assert_eq!(shape(&out[0]), "Binary(+, 1, 2)");
    let (out, p) = parse("\"abc");
    assert_eq!(p.scan_errors().len(), 1);
    assert!(out.is_empty());
}

#[test]
fn syntax_error_report() {
    let (_, p) = parse("1 + )");
    let chars: Vec<char> = "1 + )".chars().collect();
    assert_eq!(p.errors()[0].report_in(&chars), "[line 1] Error at ')':\n    1 + )\n        ^\nExpected expression.\n");
}

#[test]
fn empty_source_parses_to_nothing() {
    let (out, p) = parse("");
    assert!(out.is_empty());
    assert!(p.errors().is_empty());
}

#[test]
fn rule_table_rows() {
    let r = get_parse_rule(TokenKind::Minus);
    assert_eq!(r.precedence, Precedence::Term);
    assert_eq!(r.prefix, Some(Prefix::Unary));
    assert_eq!(r.infix, Some(Infix::Left));
    let r = get_parse_rule(TokenKind::LeftArrow);
    assert_eq!(r.precedence, Precedence::Apply);
    assert_eq!(r.infix, Some(Infix::Right));
    let r = get_parse_rule(TokenKind::Colon);
    assert_eq!((r.precedence, r.infix), (Precedence::Term, Some(Infix::Right)));
    let r = get_parse_rule(TokenKind::Comma);
    assert_eq!(r.precedence, Precedence::Lowest);
    assert_eq!(r.prefix, None);
    assert_eq!(r.infix, None);
}

#[test]
fn precedence_ladder() {
    assert_eq!(Precedence::Or.rank(), 1);
    assert_eq!(Precedence::Primary.rank(), 10);
    assert_eq!(Precedence::from_rank(Precedence::Factor.rank() + 1), Precedence::Power);
    assert_eq!(Precedence::from_rank(11), Precedence::Lowest);
    assert_eq!(Precedence::from(3u32), Precedence::Equality);
}

#[test]
fn literal_into_expr_sets_its_type() {
    let e = Literal::String("x".to_string()).into_expr();
    assert_eq!(e.typ, Typ::String);
    let e = Literal::Float("1.5".to_string()).into_expr();
    assert_eq!(e.typ, Typ::Float);
}

#[test]
fn declarations_wrap_their_parts() {
    let name = Token { kind: TokenKind::Identifier, line: 1, col: 1, lexeme: "a".to_string() };
    let none = Token { kind: TokenKind::NoToken, line: 0, col: 0, lexeme: String::new() };
    let d = ConstantDecl { name, annotation: none, value: one("2") }.into_decl();
    assert!(matches!(&d, Decl::Constant(c) if c.name.lexeme == "a"));
    let d = EvaluatedDecl { expr: one("f <- 1") }.into_decl();
    assert!(matches!(&d, Decl::Evaluated(_)));
}

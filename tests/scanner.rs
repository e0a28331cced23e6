use gwn::error::Report;
use gwn::scanner::{LexErrorKind, Scanner, ScannerError, Token, TokenKind};

fn scan_all(src: &str) -> Vec<Result<Token, ScannerError>> {
    let mut s = Scanner::new(src.to_string());
    let mut out = Vec::new();
    loop {
        let r = s.scan_token();
        let end = matches!(&r, Ok(t) if t.kind == TokenKind::Eof);
        out.push(r);
        if end {
            return out;
        }
    }
}

fn kinds_and_lexemes(src: &str) -> Vec<(TokenKind, String)> {
    scan_all(src)
        .into_iter()
        .filter_map(|r| r.ok())
        .map(|t| (t.kind, t.lexeme))
        .collect()
}

fn positions(src: &str) -> Vec<(u32, u32)> {
    scan_all(src).into_iter().filter_map(|r| r.ok()).map(|t| (t.line, t.col)).collect()
}

#[test]
fn scanning_twice_gives_the_same_tokens() {
    let src = "f <- 3.5 + x_1 # note\n\"s\\t\" -> g";
    let a = scan_all(src);
    let b = scan_all(src);
    assert_eq!(a.len(), b.len());
    for (x, y) in a.iter().zip(b.iter()) {
        match (x, y) {
            (Ok(p), Ok(q)) => {
                assert_eq!(p.kind, q.kind);
                assert_eq!(p.lexeme, q.lexeme);
                assert_eq!((p.line, p.col), (q.line, q.col));
            }
            (Err(p), Err(q)) => assert_eq!(p, q),
            _ => panic!("results differ"),
        }
    }
}

#[test]
fn blanks_and_comments_between_tokens_change_only_positions() {
    let plain = kinds_and_lexemes("a+1\nb");
    let spaced = kinds_and_lexemes("  a \t+  1 # comment\n b   ");
    assert_eq!(plain, spaced);
    assert_ne!(positions("a+1\nb"), positions("  a \t+  1 # comment\n b   "));
}

#[test]
fn literal_tokens() {
    let t = kinds_and_lexemes("3.14 42 true false \"a\\nb\"");
    assert_eq!(t[0], (TokenKind::Number, "3.14".to_string()));
    assert_eq!(t[1], (TokenKind::Number, "42".to_string()));
    assert_eq!(t[2], (TokenKind::True, "true".to_string()));
    assert_eq!(t[3], (TokenKind::False, "false".to_string()));
    assert_eq!(t[4], (TokenKind::String, "a\nb".to_string()));
    assert_eq!(t[5].0, TokenKind::Eof);
    assert_eq!(t[5].1, "");
}

#[test]
fn string_escapes_are_decoded() {
    let t = kinds_and_lexemes("\"q\\\"x\\ty\\r\"");
    assert_eq!(t[0], (TokenKind::String, "q\"x\ty\r".to_string()));
}

#[test]
fn trailing_point_is_not_part_of_a_number() {
    let r = scan_all("7.x");
    assert!(matches!(&r[0], Ok(t) if t.kind == TokenKind::Number && t.lexeme == "7"));
    match &r[1] {
        Err(e) => {
            assert_eq!(e.kind, LexErrorKind::UnrecognizedCharacter);
            assert_eq!(e.place, '.');
        }
        Ok(_) => panic!("expected a failure"),
    }
    assert!(matches!(&r[2], Ok(t) if t.kind == TokenKind::Identifier && t.lexeme == "x"));
}

#[test]
fn two_character_operators_win() {
    let t: Vec<TokenKind> = kinds_and_lexemes("++ == <= <- >= -> != + = < > - !").into_iter().map(|p| p.0).collect();
    assert_eq!(
        t,
        vec![
            TokenKind::PlusPlus,
            TokenKind::EqualEqual,
            TokenKind::LessEqual,
            TokenKind::LeftArrow,
            TokenKind::GreaterEqual,
            TokenKind::RightArrow,
            TokenKind::BangEqual,
            TokenKind::Plus,
            TokenKind::Equal,
            TokenKind::Less,
            TokenKind::Greater,
            TokenKind::Minus,
            TokenKind::Bang,
            TokenKind::Eof,
        ]
    );
}

#[test]
fn single_character_tokens() {
    let t: Vec<TokenKind> = kinds_and_lexemes("{}[]()/*^%:,|?").into_iter().map(|p| p.0).collect();
    assert_eq!(
        t,
        vec![
            TokenKind::LeftBrace,
            TokenKind::RightBrace,
            TokenKind::LeftSquare,
            TokenKind::RightSquare,
            TokenKind::LeftParen,
            TokenKind::RightParen,
            TokenKind::Slash,
            TokenKind::Star,
            TokenKind::Carat,
            TokenKind::Percent,
            TokenKind::Colon,
            TokenKind::Comma,
            TokenKind::Pipe,
            TokenKind::Question,
            TokenKind::Eof,
        ]
    );
}

#[test]
fn keywords_and_identifiers() {
    let t = kinds_and_lexemes("and or not android _x1 orb");
    let k: Vec<TokenKind> = t.iter().map(|p| p.0).collect();
    assert_eq!(
        k,
        vec![
            TokenKind::And,
            TokenKind::Or,
            TokenKind::Not,
            TokenKind::Identifier,
            TokenKind::Identifier,
            TokenKind::Identifier,
            TokenKind::Eof,
        ]
    );
    assert_eq!(t[4].1, "_x1");
}

#[test]
fn newlines_collapse_into_one_token() {
    let r: Vec<Token> = scan_all("a\n\n\nb").into_iter().filter_map(|r| r.ok()).collect();
    assert_eq!(r[1].kind, TokenKind::Newline);
    assert_eq!(r[1].line, 4);
    assert_eq!(r[1].col, 0);
    assert_eq!(r[2].kind, TokenKind::Identifier);
    assert_eq!((r[2].line, r[2].col), (4, 1));
    assert_eq!(r[3].kind, TokenKind::Eof);
}

#[test]
fn columns_count_characters_on_the_line() {
    let r: Vec<Token> = scan_all("ab  cd").into_iter().filter_map(|r| r.ok()).collect();
    assert_eq!((r[0].line, r[0].col), (1, 2));
    assert_eq!((r[1].line, r[1].col), (1, 6));
}

#[test]
fn empty_source_gives_eof_again_and_again() {
    let mut s = Scanner::new(String::new());
    for _ in 0..3 {
        let t = s.scan_token().ok().unwrap();
        assert_eq!(t.kind, TokenKind::Eof);
        assert_eq!(t.lexeme, "");
    }
}

#[test]
fn unterminated_string_fails_and_ends() {
    let r = scan_all("\"abc");
    assert_eq!(r.len(), 2);
    match &r[0] {
        Err(e) => assert_eq!(e.kind, LexErrorKind::UnterminatedString),
        Ok(_) => panic!("expected a failure"),
    }
    assert!(matches!(&r[1], Ok(t) if t.kind == TokenKind::Eof));
}

#[test]
fn backslash_at_the_end_is_unterminated() {
    let r = scan_all("\"ab\\");
    match &r[0] {
        Err(e) => assert_eq!(e.kind, LexErrorKind::UnterminatedString),
        Ok(_) => panic!("expected a failure"),
    }
}

#[test]
fn unknown_escape_names_its_character() {
    let r = scan_all("\"a\\qb\"");
    match &r[0] {
        Err(e) => {
            assert_eq!(e.kind, LexErrorKind::UnrecognizedEscape);
            assert_eq!(e.place, 'q');
            assert_eq!(e.message(), "Unrecognised escape sequence '\\q'.");
        }
        Ok(_) => panic!("expected a failure"),
    }
}

#[test]
fn unknown_character_is_reported_and_skipped() {
    let r = scan_all("a $ b");
    match &r[1] {
        Err(e) => {
            assert_eq!(e.kind, LexErrorKind::UnrecognizedCharacter);
            assert_eq!(e.place, '$');
            assert_eq!(e.position(), (1, 3));
            assert_eq!(e.place(), " at '$'");
            assert_eq!(e.message(), "Unrecognised character '$'.");
        }
        Ok(_) => panic!("expected a failure"),
    }
    assert!(matches!(&r[2], Ok(t) if t.lexeme == "b"));
}

#[test]
fn report_quotes_the_line_and_points_at_the_column() {
    let src = "x = 1\ny $ 2\n";
    let r = scan_all(src);
    let e = r.iter().find_map(|x| x.as_ref().err()).unwrap();
    let chars: Vec<char> = src.chars().collect();
    assert_eq!(e.report_in(&chars), "[line 2] Error at '$':\n    y $ 2\n      ^\nUnrecognised character '$'.\n");
}

#[test]
fn tokenize_gives_every_result_up_to_eof() {
    let r = gwn::scanner::tokenize("a $ 1".to_string());
    assert_eq!(r.len(), 4);
    assert!(matches!(&r[0], Ok(t) if t.kind == TokenKind::Identifier && t.lexeme == "a"));
    assert!(matches!(&r[1], Err(e) if e.kind == LexErrorKind::UnrecognizedCharacter && e.place == '$'));
    assert!(matches!(&r[2], Ok(t) if t.kind == TokenKind::Number && t.lexeme == "1"));
    assert!(matches!(&r[3], Ok(t) if t.kind == TokenKind::Eof));
}

#[test]
fn comment_before_a_newline_changes_nothing_but_positions() {
    let plain = kinds_and_lexemes("x -> f\ny");
    let commented = kinds_and_lexemes("x -> f# apply f\ny");
    assert_eq!(plain, commented);
}

#[test]
fn letters_beyond_ascii_make_identifiers() {
    let t = kinds_and_lexemes("λx é2");
    assert_eq!(t[0], (TokenKind::Identifier, "λx".to_string()));
    assert_eq!(t[1], (TokenKind::Identifier, "é2".to_string()));
    let r = scan_all("€");
    assert!(matches!(&r[0], Err(e) if e.kind == LexErrorKind::UnrecognizedCharacter && e.place == '€'));
}

#[test]
fn report_on_a_later_line_numbers_it_in_decimal() {
    let mut src = String::new();
    for _ in 0..11 {
        src.push_str("a\n");
    }
    src.push_str("  @");
    let r = scan_all(&src);
    let e = r.iter().find_map(|x| x.as_ref().err()).unwrap();
    assert_eq!(e.position(), (12, 3));
    let chars: Vec<char> = src.chars().collect();
    assert_eq!(e.report_in(&chars), "[line 12] Error at '@':\n      @\n      ^\nUnrecognised character '@'.\n");
}

#[test]
fn unterminated_string_message() {
    let r = scan_all("\"abc");
    let e = r[0].as_ref().err().unwrap();
    assert_eq!(e.message(), "Unterminated string literal.");
    assert_eq!(e.place(), " at '\"'");
}

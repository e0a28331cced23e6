//! The lexical scanner: turns source characters into positioned tokens, one at a time.
use vstd::prelude::*;
use crate::text::{alphabetic, is_alphabetic, push_char, push_str};
use crate::error::Report;

verus! {

/// The closed set of token kinds.
#[derive(Debug, Clone, Copy, PartialEq, Eq, Hash, Structural)]
pub enum TokenKind {
    LeftBrace,
    RightBrace,
    LeftSquare,
    RightSquare,
    LeftParen,
    RightParen,
    Slash,
    Star,
    Carat,
    Percent,
    Bang,
    BangEqual,
    Colon,
    Comma,
    Pipe,
    Question,
    Plus,
    PlusPlus,
    Equal,
    EqualEqual,
    Less,
    LessEqual,
    LeftArrow,
    Greater,
    GreaterEqual,
    Minus,
    RightArrow,
    And,
    Or,
    Not,
    True,
    False,
    Number,
    String,
    Identifier,
    Newline,
    NoToken,
    Eof,
}

/// A token: its kind, the line (from 1) and column at which it ends, and its text.
/// For a string literal the text is the decoded contents.
#[derive(Debug, Clone)]
pub struct Token {
    pub kind: TokenKind,
    pub line: u32,
    pub col: u32,
    pub lexeme: String,
}

/// The mathematical value of a token.
pub struct TokenView {
    pub kind: TokenKind,
    pub line: nat,
    pub col: nat,
    pub lexeme: Seq<char>,
}

impl View for Token {
    type V = TokenView;

    open spec fn view(&self) -> TokenView {
        TokenView { kind: self.kind, line: self.line as nat, col: self.col as nat, lexeme: self.lexeme@ }
    }
}

impl Token {
    /// A token equal to this one.
    pub fn duplicate(&self) -> (r: Token)
        ensures
            r == *self,
    {
        Token { kind: self.kind, line: self.line, col: self.col, lexeme: self.lexeme.clone() }
    }
}

/// The three ways scanning a token can fail.
#[derive(Debug, Clone, Copy, PartialEq, Eq, Structural)]
pub enum LexErrorKind {
    UnrecognizedCharacter,
    UnrecognizedEscape,
    UnterminatedString,
}

/// A scanning failure: what went wrong, the character it concerns, and where.
#[derive(Debug, Clone, Copy, PartialEq, Eq, Structural)]
pub struct ScannerError {
    pub kind: LexErrorKind,
    pub place: char,
    pub line: u32,
    pub col: u32,
}

/// A failure as the model describes it.
pub struct LexErrorView {
    pub kind: LexErrorKind,
    pub place: char,
    pub line: nat,
    pub col: nat,
}

impl View for ScannerError {
    type V = LexErrorView;

    open spec fn view(&self) -> LexErrorView {
        LexErrorView { kind: self.kind, place: self.place, line: self.line as nat, col: self.col as nat }
    }
}

/// The scanner's position: index of the next character, current line and column.
pub struct ScanState {
    pub pos: nat,
    pub line: nat,
    pub col: nat,
}

pub open spec fn is_digit(c: char) -> bool {
    '0' <= c && c <= '9'
}

pub open spec fn is_blank(c: char) -> bool {
    c == ' ' || c == '\t' || c == '\r'
}

/// Letters and `_` start an identifier: among ASCII characters the letters a-z and A-Z,
/// beyond ASCII those with Unicode's Alphabetic property.
pub open spec fn ident_start(c: char) -> bool {
    if (c as u32) < 128 {
        ('a' <= c && c <= 'z') || ('A' <= c && c <= 'Z') || c == '_'
    } else {
        alphabetic(c)
    }
}

pub open spec fn ident_body(c: char) -> bool {
    ident_start(c) || is_digit(c)
}

/// Where skipping blanks and comments from `i` stops; `in_comment` when inside a `#` comment.
pub open spec fn skip_end(s: Seq<char>, i: nat, in_comment: bool) -> nat
    decreases s.len() - i,
{
    if i >= s.len() {
        i
    } else if in_comment {
        if s[i as int] == '\n' { i } else { skip_end(s, i + 1, true) }
    } else if is_blank(s[i as int]) {
        skip_end(s, i + 1, false)
    } else if s[i as int] == '#' {
        skip_end(s, i + 1, true)
    } else {
        i
    }
}

/// End of the run of characters from `i` that satisfy the predicate of `which`:
/// digits (0), identifier characters (1) or newlines (2).
pub open spec fn run_end(s: Seq<char>, i: nat, which: nat) -> nat
    decreases s.len() - i,
{
    if i < s.len() && run_char(s[i as int], which) {
        run_end(s, i + 1, which)
    } else {
        i
    }
}

pub open spec fn run_char(c: char, which: nat) -> bool {
    if which == 0 {
        is_digit(c)
    } else if which == 1 {
        ident_body(c)
    } else {
        c == '\n'
    }
}

/// End of a number literal whose first digit stands just before `i`.
pub open spec fn number_end(s: Seq<char>, i: nat) -> nat {
    let j = run_end(s, i, 0);
    if j + 1 < s.len() && s[j as int] == '.' && is_digit(s[(j + 1) as int]) {
        run_end(s, j + 1, 0)
    } else {
        j
    }
}

/// The kind of an identifier-shaped word: a keyword's own kind, else `Identifier`.
pub open spec fn word_kind(w: Seq<char>) -> TokenKind {
    if w.len() == 3 && w[0] == 'a' && w[1] == 'n' && w[2] == 'd' {
        TokenKind::And
    } else if w.len() == 2 && w[0] == 'o' && w[1] == 'r' {
        TokenKind::Or
    } else if w.len() == 3 && w[0] == 'n' && w[1] == 'o' && w[2] == 't' {
        TokenKind::Not
    } else if w.len() == 4 && w[0] == 't' && w[1] == 'r' && w[2] == 'u' && w[3] == 'e' {
        TokenKind::True
    } else if w.len() == 5 && w[0] == 'f' && w[1] == 'a' && w[2] == 'l' && w[3] == 's' && w[4]
        == 'e' {
        TokenKind::False
    } else {
        TokenKind::Identifier
    }
}

/// How the body of a string literal ends.
pub enum StrEnd {
    /// The closing quote was found; the decoded text and the index after the quote.
    Closed(Seq<char>, nat),
    /// A backslash was followed by the given character; the index after it.
    BadEscape(char, nat),
    /// The input ended first.
    Open,
}

/// The character that the escape `\e` stands for, if `e` is one of `n t r "`.
pub open spec fn escape_value(e: char) -> Option<char> {
    if e == 'n' {
        Some('\n')
    } else if e == 't' {
        Some('\t')
    } else if e == 'r' {
        Some('\r')
    } else if e == '"' {
        Some('"')
    } else {
        None
    }
}

/// Reading a string literal's body from `i`, with `acc` decoded so far.
pub open spec fn string_end(s: Seq<char>, i: nat, acc: Seq<char>) -> StrEnd
    decreases s.len() - i,
{
    if i >= s.len() {
        StrEnd::Open
    } else if s[i as int] == '"' {
        StrEnd::Closed(acc, i + 1)
    } else if s[i as int] == '\\' {
        if i + 1 >= s.len() {
            StrEnd::Open
        } else {
            match escape_value(s[(i + 1) as int]) {
                Some(v) => string_end(s, i + 2, acc.push(v)),
                None => StrEnd::BadEscape(s[(i + 1) as int], i + 2),
            }
        }
    } else {
        string_end(s, i + 1, acc.push(s[i as int]))
    }
}

/// The kind of a one-character token, `None` for a character that is not one.
pub open spec fn single_kind(c: char) -> TokenKind {
    if c == '{' { TokenKind::LeftBrace }
    else if c == '}' { TokenKind::RightBrace }
    else if c == '[' { TokenKind::LeftSquare }
    else if c == ']' { TokenKind::RightSquare }
    else if c == '(' { TokenKind::LeftParen }
    else if c == ')' { TokenKind::RightParen }
    else if c == '/' { TokenKind::Slash }
    else if c == '*' { TokenKind::Star }
    else if c == '^' { TokenKind::Carat }
    else if c == '%' { TokenKind::Percent }
    else if c == ':' { TokenKind::Colon }
    else if c == ',' { TokenKind::Comma }
    else if c == '|' { TokenKind::Pipe }
    else if c == '?' { TokenKind::Question }
    else if c == '!' { TokenKind::Bang }
    else if c == '+' { TokenKind::Plus }
    else if c == '=' { TokenKind::Equal }
    else if c == '<' { TokenKind::Less }
    else if c == '>' { TokenKind::Greater }
    else if c == '-' { TokenKind::Minus }
    else { TokenKind::NoToken }
}

/// The kind of the two-character operator `c d`, `None` where `c d` is not one.
pub open spec fn double_kind(c: char, d: char) -> TokenKind {
    if c == '+' && d == '+' { TokenKind::PlusPlus }
    else if c == '=' && d == '=' { TokenKind::EqualEqual }
    else if c == '!' && d == '=' { TokenKind::BangEqual }
    else if c == '<' && d == '=' { TokenKind::LessEqual }
    else if c == '<' && d == '-' { TokenKind::LeftArrow }
    else if c == '>' && d == '=' { TokenKind::GreaterEqual }
    else if c == '-' && d == '>' { TokenKind::RightArrow }
    else { TokenKind::NoToken }
}

pub open spec fn token_at(kind: TokenKind, line: nat, col: nat, lexeme: Seq<char>) -> TokenView {
    TokenView { kind, line, col, lexeme }
}

pub open spec fn lex_error(kind: LexErrorKind, place: char, line: nat, col: nat) -> LexErrorView {
    LexErrorView { kind, place, line, col }
}

/// One step of the scanner from `st`: the token or failure it produces, and the state after.
/// Blanks and comments before the token are skipped; the column counts every character
/// consumed on the line, and a run of newlines resets it to 0.
pub open spec fn scan_step(s: Seq<char>, st: ScanState) -> (Result<TokenView, LexErrorView>, ScanState) {
    let j = skip_end(s, st.pos, false);
    lex_from(s, j, st.line, (st.col + (j - st.pos)) as nat)
}

/// The token or failure that starts at `j`, on line `line` with column `c0` before it.
pub open spec fn lex_from(s: Seq<char>, j: nat, line: nat, c0: nat) -> (Result<TokenView, LexErrorView>, ScanState) {
    if j >= s.len() {
        (Ok(token_at(TokenKind::Eof, line, c0 as nat, Seq::empty())), ScanState { pos: j, line, col: c0 as nat })
    } else {
        let c = s[j as int];
        if is_digit(c) {
            let e = number_end(s, j + 1);
            let col = (c0 + (e - j)) as nat;
            (Ok(token_at(TokenKind::Number, line, col, s.subrange(j as int, e as int))), ScanState { pos: e, line, col })
        } else if ident_start(c) {
            let e = run_end(s, j + 1, 1);
            let col = (c0 + (e - j)) as nat;
            let w = s.subrange(j as int, e as int);
            (Ok(token_at(word_kind(w), line, col, w)), ScanState { pos: e, line, col })
        } else if c == '"' {
            match string_end(s, j + 1, Seq::empty()) {
                StrEnd::Closed(v, e) => {
                    let col = (c0 + (e - j)) as nat;
                    (Ok(token_at(TokenKind::String, line, col, v)), ScanState { pos: e, line, col })
                },
                StrEnd::BadEscape(x, e) => {
                    let col = (c0 + (e - j)) as nat;
                    (Err(lex_error(LexErrorKind::UnrecognizedEscape, x, line, col)), ScanState { pos: e, line, col })
                },
                StrEnd::Open => {
                    let col = (c0 + (s.len() - j)) as nat;
                    (Err(lex_error(LexErrorKind::UnterminatedString, '"', line, col)), ScanState { pos: s.len(), line, col })
                },
            }
        } else if c == '\n' {
            let e = run_end(s, j + 1, 2);
            let l = line + (e - j);
            (Ok(token_at(TokenKind::Newline, l as nat, 0, s.subrange(j as int, e as int))), ScanState { pos: e, line: l as nat, col: 0 })
        } else if j + 1 < s.len() && double_kind(c, s[(j + 1) as int]) != TokenKind::NoToken {
            let col = (c0 + 2) as nat;
            (Ok(token_at(double_kind(c, s[(j + 1) as int]), line, col, s.subrange(j as int, (j + 2) as int))), ScanState { pos: j + 2, line, col })
        } else if single_kind(c) != TokenKind::NoToken {
            let col = (c0 + 1) as nat;
            (Ok(token_at(single_kind(c), line, col, s.subrange(j as int, (j + 1) as int))), ScanState { pos: j + 1, line, col })
        } else {
            let col = (c0 + 1) as nat;
            (Err(lex_error(LexErrorKind::UnrecognizedCharacter, c, line, col)), ScanState { pos: j + 1, line, col })
        }
    }
}

/// The scanner over a source text held as characters.
pub struct Scanner {
    source: Vec<char>,
    start: usize,
    current: usize,
    line: u32,
    col: u32,
}

impl Scanner {
    /// The scanner's position in the model.
    pub closed spec fn state(&self) -> ScanState {
        ScanState { pos: self.current as nat, line: self.line as nat, col: self.col as nat }
    }

    /// The source text being scanned.
    pub closed spec fn text(&self) -> Seq<char> {
        self.source@
    }

    /// A well-formed scanner stands within its source.
    pub proof fn lemma_within(&self)
        requires
            self.wf(),
        ensures
            self.state().pos <= self.text().len(),
    {
    }

    pub closed spec fn wf(&self) -> bool {
        &&& self.source@.len() < u32::MAX
        &&& self.current <= self.source@.len()
        &&& self.line <= self.current + 1
        &&& self.col <= self.current
    }
}


/// The result of a scan, as the model describes it.
pub open spec fn scan_view(r: Result<Token, ScannerError>) -> Result<TokenView, LexErrorView> {
    match r {
        Ok(t) => Ok(t@),
        Err(e) => Err(e@),
    }
}

fn exec_is_digit(c: char) -> (r: bool)
    ensures
        r == is_digit(c),
{
    '0' <= c && c <= '9'
}

/// Whether `c` can begin an identifier: alphabetic, or `_`.
pub fn is_identifier_start(c: char) -> (r: bool)
    ensures
        r == ident_start(c),
{
    if (c as u32) < 128 {
        ('a' <= c && c <= 'z') || ('A' <= c && c <= 'Z') || c == '_'
    } else {
        is_alphabetic(c)
    }
}

/// Whether `c` can continue an identifier: alphabetic, a digit, or `_`.
pub fn is_identifier_body(c: char) -> (r: bool)
    ensures
        r == ident_body(c),
{
    is_identifier_start(c) || exec_is_digit(c)
}

fn exec_run_char(c: char, which: u32) -> (r: bool)
    ensures
        r == run_char(c, which as nat),
{
    if which == 0 {
        exec_is_digit(c)
    } else if which == 1 {
        is_identifier_body(c)
    } else {
        c == '\n'
    }
}

fn exec_single_kind(c: char) -> (r: TokenKind)
    ensures
        r == single_kind(c),
{
    if c == '{' { TokenKind::LeftBrace }
    else if c == '}' { TokenKind::RightBrace }
    else if c == '[' { TokenKind::LeftSquare }
    else if c == ']' { TokenKind::RightSquare }
    else if c == '(' { TokenKind::LeftParen }
    else if c == ')' { TokenKind::RightParen }
    else if c == '/' { TokenKind::Slash }
    else if c == '*' { TokenKind::Star }
    else if c == '^' { TokenKind::Carat }
    else if c == '%' { TokenKind::Percent }
    else if c == ':' { TokenKind::Colon }
    else if c == ',' { TokenKind::Comma }
    else if c == '|' { TokenKind::Pipe }
    else if c == '?' { TokenKind::Question }
    else if c == '!' { TokenKind::Bang }
    else if c == '+' { TokenKind::Plus }
    else if c == '=' { TokenKind::Equal }
    else if c == '<' { TokenKind::Less }
    else if c == '>' { TokenKind::Greater }
    else if c == '-' { TokenKind::Minus }
    else { TokenKind::NoToken }
}

fn exec_double_kind(c: char, d: char) -> (r: TokenKind)
    ensures
        r == double_kind(c, d),
{
    if c == '+' && d == '+' { TokenKind::PlusPlus }
    else if c == '=' && d == '=' { TokenKind::EqualEqual }
    else if c == '!' && d == '=' { TokenKind::BangEqual }
    else if c == '<' && d == '=' { TokenKind::LessEqual }
    else if c == '<' && d == '-' { TokenKind::LeftArrow }
    else if c == '>' && d == '=' { TokenKind::GreaterEqual }
    else if c == '-' && d == '>' { TokenKind::RightArrow }
    else { TokenKind::NoToken }
}

fn exec_escape_value(e: char) -> (r: Option<char>)
    ensures
        r == escape_value(e),
{
    if e == 'n' {
        Some('\n')
    } else if e == 't' {
        Some('\t')
    } else if e == 'r' {
        Some('\r')
    } else if e == '"' {
        Some('"')
    } else {
        None
    }
}

impl Scanner {
    /// A scanner at the start of `source`, on line 1, column 0.
    pub fn new(source: String) -> (r: Scanner)
        requires
            source@.len() < u32::MAX,
        ensures
            r.wf(),
            r.text() == source@,
            r.state() == (ScanState { pos: 0, line: 1, col: 0 }),
    {
        Scanner { source: crate::text::chars_of(&source), start: 0, current: 0, line: 1, col: 0 }
    }

    /// Scans the next token, after any blanks and comments. At the end of the source it
    /// gives `Eof`, and again on every later call. On failure the offending characters
    /// are consumed, so the next call goes on after them.
    pub fn scan_token(&mut self) -> (r: Result<Token, ScannerError>)
        requires
            old(self).wf(),
        ensures
            final(self).wf(),
            final(self).text() == old(self).text(),
            (scan_view(r), final(self).state()) == scan_step(old(self).text(), old(self).state()),
    {
        self.skip_whitespace();
        self.start = self.current;
        if self.is_at_end() {
            assert(self.source@.subrange(self.start as int, self.current as int) =~= Seq::<char>::empty());
            return Ok(self.make_token(TokenKind::Eof));
        }
        let c = self.advance();
        if exec_is_digit(c) {
            return Ok(self.scan_number());
        }
        if is_identifier_start(c) {
            return Ok(self.scan_identifier());
        }
        if c == '"' {
            return self.scan_string();
        }
        if c == '\n' {
            self.advance_run(2);
            let n = (self.current - self.start) as u32;
            self.line = self.line + n;
            self.col = 0;
            return Ok(self.make_token(TokenKind::Newline));
        }
        if !self.is_at_end() {
            let two = exec_double_kind(c, self.source[self.current]);
            if two != TokenKind::NoToken {
                self.advance();
                return Ok(self.make_token(two));
            }
        }
        let one = exec_single_kind(c);
        if one != TokenKind::NoToken {
            Ok(self.make_token(one))
        } else {
            Err(self.make_error(LexErrorKind::UnrecognizedCharacter, c))
        }
    }

    /// The source text being scanned.
    pub fn source(&self) -> (r: &Vec<char>)
        ensures
            r@ == self.text(),
    {
        &self.source
    }

    /// Skips blanks (space, tab, carriage return) and `#` comments up to the end of the line.
    fn skip_whitespace(&mut self)
        requires
            old(self).wf(),
        ensures
            final(self).wf(),
            final(self).source@ == old(self).source@,
            final(self).line == old(self).line,
            final(self).current == skip_end(old(self).source@, old(self).current as nat, false),
            final(self).col + old(self).current == old(self).col + final(self).current,
    {
        let mut in_comment = false;
        while self.current < self.source.len()
            invariant
                self.wf(),
                self.source@ == old(self).source@,
                self.line == old(self).line,
                self.current >= old(self).current,
                self.col + old(self).current == old(self).col + self.current,
                skip_end(self.source@, self.current as nat, in_comment) == skip_end(
                    self.source@,
                    old(self).current as nat,
                    false,
                ),
            ensures
                skip_end(self.source@, self.current as nat, in_comment) == self.current,
            decreases self.source@.len() - self.current,
        {
            let c = self.source[self.current];
            if in_comment {
                if c == '\n' {
                    break;
                }
            } else if c == '#' {
                in_comment = true;
            } else if !(c == ' ' || c == '\t' || c == '\r') {
                break;
            }
            self.advance();
        }
    }

    /// Consumes the run of characters of class `which` (see `run_char`).
    fn advance_run(&mut self, which: u32)
        requires
            old(self).wf(),
        ensures
            final(self).wf(),
            final(self).source@ == old(self).source@,
            final(self).line == old(self).line,
            final(self).start == old(self).start,
            final(self).current == run_end(old(self).source@, old(self).current as nat, which as nat),
            final(self).current >= old(self).current,
            final(self).col + old(self).current == old(self).col + final(self).current,
    {
        while self.current < self.source.len() && exec_run_char(self.source[self.current], which)
            invariant
                self.wf(),
                self.source@ == old(self).source@,
                self.line == old(self).line,
                self.start == old(self).start,
                self.current >= old(self).current,
                self.col + old(self).current == old(self).col + self.current,
                run_end(self.source@, self.current as nat, which as nat) == run_end(
                    self.source@,
                    old(self).current as nat,
                    which as nat,
                ),
            decreases self.source@.len() - self.current,
        {
            self.advance();
        }
    }

    /// Scans the rest of a number literal whose first digit was just consumed.
    fn scan_number(&mut self) -> (r: Token)
        requires
            old(self).wf(),
            old(self).current == old(self).start + 1,
        ensures
            final(self).wf(),
            final(self).source@ == old(self).source@,
            final(self).current == number_end(old(self).source@, old(self).current as nat),
            final(self).start == old(self).start,
            final(self).line == old(self).line,
            final(self).col + old(self).current == old(self).col + final(self).current,
            r@ == token_at(TokenKind::Number, final(self).line as nat, final(self).col as nat,
                old(self).source@.subrange(old(self).start as int, final(self).current as int)),
    {
        self.advance_run(0);
        if self.current + 1 < self.source.len() && self.source[self.current] == '.'
            && exec_is_digit(self.source[self.current + 1]) {
            self.advance();
            self.advance_run(0);
        }
        self.make_token(TokenKind::Number)
    }

    /// Scans the rest of an identifier or keyword whose first character was just consumed.
    fn scan_identifier(&mut self) -> (r: Token)
        requires
            old(self).wf(),
            old(self).current == old(self).start + 1,
        ensures
            final(self).wf(),
            final(self).source@ == old(self).source@,
            final(self).current == run_end(old(self).source@, old(self).current as nat, 1),
            final(self).start == old(self).start,
            final(self).line == old(self).line,
            final(self).col + old(self).current == old(self).col + final(self).current,
            r@ == token_at(
                word_kind(old(self).source@.subrange(old(self).start as int, final(self).current as int)),
                final(self).line as nat,
                final(self).col as nat,
                old(self).source@.subrange(old(self).start as int, final(self).current as int),
            ),
    {
        self.advance_run(1);
        let kind = self.word_kind();
        self.make_token(kind)
    }

    /// The kind of the word between `start` and `current`.
    fn word_kind(&self) -> (r: TokenKind)
        requires
            self.wf(),
            self.start <= self.current,
        ensures
            r == word_kind(self.source@.subrange(self.start as int, self.current as int)),
    {
        let s = &self.source;
        let b = self.start;
        let n = self.current - self.start;
        let ghost w = self.source@.subrange(self.start as int, self.current as int);
        assert(w.len() == n);
        if n == 3 && s[b] == 'a' && s[b + 1] == 'n' && s[b + 2] == 'd' {
            TokenKind::And
        } else if n == 2 && s[b] == 'o' && s[b + 1] == 'r' {
            TokenKind::Or
        } else if n == 3 && s[b] == 'n' && s[b + 1] == 'o' && s[b + 2] == 't' {
            TokenKind::Not
        } else if n == 4 && s[b] == 't' && s[b + 1] == 'r' && s[b + 2] == 'u' && s[b + 3] == 'e' {
            TokenKind::True
        } else if n == 5 && s[b] == 'f' && s[b + 1] == 'a' && s[b + 2] == 'l' && s[b + 3] == 's'
            && s[b + 4] == 'e' {
            TokenKind::False
        } else {
            TokenKind::Identifier
        }
    }

    /// Scans the rest of a string literal whose opening quote was just consumed, decoding
    /// the escapes `\n`, `\t`, `\r` and `\"`.
    fn scan_string(&mut self) -> (r: Result<Token, ScannerError>)
        requires
            old(self).wf(),
            old(self).current == old(self).start + 1,
        ensures
            final(self).wf(),
            final(self).source@ == old(self).source@,
            final(self).line == old(self).line,
            final(self).col + old(self).current == old(self).col + final(self).current,
            match string_end(old(self).source@, old(self).current as nat, Seq::empty()) {
                StrEnd::Closed(v, e) => final(self).current == e && r is Ok && r->Ok_0@ == token_at(
                    TokenKind::String, old(self).line as nat, final(self).col as nat, v),
                StrEnd::BadEscape(x, e) => final(self).current == e && r is Err && r->Err_0@
                    == lex_error(LexErrorKind::UnrecognizedEscape, x, old(self).line as nat,
                    final(self).col as nat),
                StrEnd::Open => final(self).current == old(self).source@.len() && r is Err
                    && r->Err_0@ == lex_error(LexErrorKind::UnterminatedString, '"',
                    old(self).line as nat, final(self).col as nat),
            },
    {
        let mut lexeme = String::new();
        while self.current < self.source.len()
            invariant
                self.wf(),
                self.source@ == old(self).source@,
                self.line == old(self).line,
                self.current >= old(self).current,
                self.col + old(self).current == old(self).col + self.current,
                string_end(self.source@, self.current as nat, lexeme@) == string_end(
                    self.source@,
                    old(self).current as nat,
                    Seq::empty(),
                ),
            decreases self.source@.len() - self.current,
        {
            let c = self.advance();
            if c == '"' {
                return Ok(Token { kind: TokenKind::String, line: self.line, col: self.col, lexeme });
            }
            if c == '\\' {
                if self.is_at_end() {
                    return Err(self.make_error(LexErrorKind::UnterminatedString, '"'));
                }
                let e = self.advance();
                match exec_escape_value(e) {
                    Some(v) => push_char(&mut lexeme, v),
                    None => {
                        return Err(self.make_error(LexErrorKind::UnrecognizedEscape, e));
                    },
                }
            } else {
                push_char(&mut lexeme, c);
            }
        }
        Err(self.make_error(LexErrorKind::UnterminatedString, '"'))
    }

    /// A token of the given kind whose text runs from `start` to `current`.
    fn make_token(&self, kind: TokenKind) -> (r: Token)
        requires
            self.wf(),
            self.start <= self.current,
        ensures
            r@ == token_at(kind, self.line as nat, self.col as nat,
                self.source@.subrange(self.start as int, self.current as int)),
    {
        let mut lexeme = String::new();
        let mut i = self.start;
        while i < self.current
            invariant
                self.wf(),
                self.start <= i <= self.current,
                lexeme@ == self.source@.subrange(self.start as int, i as int),
            decreases self.current - i,
        {
            push_char(&mut lexeme, self.source[i]);
            assert(lexeme@ =~= self.source@.subrange(self.start as int, i + 1));
            i = i + 1;
        }
        Token { kind, line: self.line, col: self.col, lexeme }
    }

    /// A failure of the given kind, about `place`, at the current position.
    fn make_error(&self, kind: LexErrorKind, place: char) -> (r: ScannerError)
        ensures
            r@ == lex_error(kind, place, self.line as nat, self.col as nat),
    {
        ScannerError { kind, place, line: self.line, col: self.col }
    }

    /// Consumes one character and returns it.
    fn advance(&mut self) -> (r: char)
        requires
            old(self).wf(),
            old(self).current < old(self).source@.len(),
        ensures
            final(self).wf(),
            final(self).source@ == old(self).source@,
            final(self).start == old(self).start,
            final(self).line == old(self).line,
            final(self).current == old(self).current + 1,
            final(self).col == old(self).col + 1,
            r == old(self).source@[old(self).current as int],
    {
        let c = self.source[self.current];
        self.current = self.current + 1;
        self.col = self.col + 1;
        c
    }

    /// Whether every character has been consumed.
    fn is_at_end(&self) -> (r: bool)
        ensures
            r == (self.current >= self.source@.len()),
    {
        self.current >= self.source.len()
    }
}


/// The message of a scanning failure.
pub open spec fn lex_message(kind: LexErrorKind, place: char) -> Seq<char> {
    match kind {
        LexErrorKind::UnrecognizedCharacter => "Unrecognised character '"@ + seq![place] + "'."@,
        LexErrorKind::UnrecognizedEscape => "Unrecognised escape sequence '\\"@ + seq![place] + "'."@,
        LexErrorKind::UnterminatedString => "Unterminated string literal."@,
    }
}

impl Report for ScannerError {
    open spec fn spec_position(&self) -> (u32, u32) {
        (self.line, self.col)
    }

    open spec fn spec_message(&self) -> Seq<char> {
        lex_message(self.kind, self.place)
    }

    open spec fn spec_place(&self) -> Seq<char> {
        " at '"@ + seq![self.place] + "'"@
    }

    fn position(&self) -> (r: (u32, u32)) {
        (self.line, self.col)
    }

    fn message(&self) -> (r: String) {
        let mut out = String::new();
        match self.kind {
            LexErrorKind::UnrecognizedCharacter => {
                push_str(&mut out, "Unrecognised character '");
                push_char(&mut out, self.place);
                push_str(&mut out, "'.");
            },
            LexErrorKind::UnrecognizedEscape => {
                push_str(&mut out, "Unrecognised escape sequence '\\");
                push_char(&mut out, self.place);
                push_str(&mut out, "'.");
            },
            LexErrorKind::UnterminatedString => {
                push_str(&mut out, "Unterminated string literal.");
            },
        }
        out
    }

    fn place(&self) -> (r: String) {
        let mut out = String::new();
        push_str(&mut out, " at '");
        push_char(&mut out, self.place);
        push_str(&mut out, "'");
        out
    }
}

/// The tokens that scanning from `st` produces, failures left out, up to and including `Eof`.
pub open spec fn good_views(s: Seq<char>, st: ScanState) -> Seq<TokenView>
    decreases s.len() - st.pos,
{
    let (r, st2) = scan_step(s, st);
    if st.pos < st2.pos <= s.len() {
        match r {
            Ok(t) => if t.kind == TokenKind::Eof { seq![t] } else { seq![t] + good_views(s, st2) },
            Err(_) => good_views(s, st2),
        }
    } else {
        match r {
            Ok(t) => seq![t],
            Err(_) => Seq::empty(),
        }
    }
}

/// The failures that scanning from `st` up to `Eof` meets, in order.
pub open spec fn lex_errs(s: Seq<char>, st: ScanState) -> Seq<LexErrorView>
    decreases s.len() - st.pos,
{
    let (r, st2) = scan_step(s, st);
    if st.pos < st2.pos <= s.len() {
        match r {
            Ok(t) => if t.kind == TokenKind::Eof { Seq::empty() } else { lex_errs(s, st2) },
            Err(e) => seq![e] + lex_errs(s, st2),
        }
    } else {
        Seq::empty()
    }
}

/// The state in which scanning a source starts.
pub open spec fn start_state() -> ScanState {
    ScanState { pos: 0, line: 1, col: 0 }
}

pub proof fn lemma_skip_bounds(s: Seq<char>, i: nat, b: bool)
    requires
        i <= s.len(),
    ensures
        i <= skip_end(s, i, b) <= s.len(),
    decreases s.len() - i,
{
    if i < s.len() {
        if b {
            if s[i as int] != '\n' {
                lemma_skip_bounds(s, i + 1, true);
            }
        } else if is_blank(s[i as int]) {
            lemma_skip_bounds(s, i + 1, false);
        } else if s[i as int] == '#' {
            lemma_skip_bounds(s, i + 1, true);
        }
    }
}

pub proof fn lemma_run_bounds(s: Seq<char>, i: nat, which: nat)
    requires
        i <= s.len(),
    ensures
        i <= run_end(s, i, which) <= s.len(),
    decreases s.len() - i,
{
    if i < s.len() && run_char(s[i as int], which) {
        lemma_run_bounds(s, i + 1, which);
    }
}

pub proof fn lemma_string_bounds(s: Seq<char>, i: nat, acc: Seq<char>)
    requires
        i <= s.len(),
    ensures
        match string_end(s, i, acc) {
            StrEnd::Closed(_, e) => i < e <= s.len(),
            StrEnd::BadEscape(_, e) => i < e <= s.len(),
            StrEnd::Open => true,
        },
    decreases s.len() - i,
{
    if i < s.len() && s[i as int] != '"' {
        if s[i as int] == '\\' {
            if i + 1 < s.len() {
                if let Some(v) = escape_value(s[(i + 1) as int]) {
                    lemma_string_bounds(s, i + 2, acc.push(v));
                }
            }
        } else {
            lemma_string_bounds(s, i + 1, acc.push(s[i as int]));
        }
    }
}

pub proof fn lemma_number_bounds(s: Seq<char>, i: nat)
    requires
        i <= s.len(),
    ensures
        i <= number_end(s, i) <= s.len(),
{
    lemma_run_bounds(s, i, 0);
    let j = run_end(s, i, 0);
    if j + 1 < s.len() {
        lemma_run_bounds(s, j + 1, 0);
    }
}

/// Each step consumes at least one character, except the one that finds the end; and
/// at the end, scanning again gives the same `Eof` and leaves the state as it is.
pub proof fn lemma_step_progress(s: Seq<char>, st: ScanState)
    requires
        st.pos <= s.len(),
    ensures
        st.pos <= scan_step(s, st).1.pos <= s.len(),
        match scan_step(s, st).0 {
            Ok(t) => if t.kind == TokenKind::Eof {
                &&& scan_step(s, st).1.pos == s.len()
                &&& t == token_at(TokenKind::Eof, scan_step(s, st).1.line, scan_step(s, st).1.col, Seq::empty())
                &&& scan_step(s, scan_step(s, st).1) == scan_step(s, st)
            } else {
                st.pos < scan_step(s, st).1.pos
            },
            Err(_) => st.pos < scan_step(s, st).1.pos,
        },
{
    lemma_skip_bounds(s, st.pos, false);
    let j = skip_end(s, st.pos, false);
    if j < s.len() {
        lemma_run_bounds(s, j + 1, 0);
        lemma_run_bounds(s, j + 1, 1);
        lemma_run_bounds(s, j + 1, 2);
        let k = run_end(s, j + 1, 0);
        if k + 1 < s.len() {
            lemma_run_bounds(s, k + 1, 0);
        }
        lemma_string_bounds(s, j + 1, Seq::empty());
    } else {
        let st2 = scan_step(s, st).1;
        assert(skip_end(s, st2.pos, false) == st2.pos);
    }
}

/// The failures of a list, as the model describes them.
pub open spec fn lex_errors_view(v: Seq<ScannerError>) -> Seq<LexErrorView> {
    v.map_values(|e: ScannerError| e@)
}

/// Scanning from `st0` produced the token `t` and stopped at `st`: the stream from `st0`
/// is `t` and then the stream from `st`, or `t` alone where it is `Eof`, found at the end.
pub open spec fn good_step(s: Seq<char>, st0: ScanState, st: ScanState, t: TokenView) -> bool {
    &&& good_views(s, st0) == if t.kind == TokenKind::Eof { seq![t] } else { seq![t] + good_views(s, st) }
    &&& t.kind == TokenKind::Eof ==> st.pos == s.len() && t == token_at(TokenKind::Eof, st.line, st.col, Seq::empty())
}

impl Scanner {
    /// Scans until a token comes, appending the failures met on the way to `errors`.
    pub fn scan_good(&mut self, errors: &mut Vec<ScannerError>) -> (r: Token)
        requires
            old(self).wf(),
        ensures
            final(self).wf(),
            final(self).text() == old(self).text(),
            good_step(old(self).text(), old(self).state(), final(self).state(), r@),
            lex_errors_view(final(errors)@) + lex_errs(final(self).text(), final(self).state())
                == lex_errors_view(old(errors)@) + lex_errs(old(self).text(), old(self).state()),
    {
        let ghost s = self.text();
        let ghost st0 = self.state();
        let ghost errs0 = errors@;
        loop
            invariant
                self.wf(),
                self.source@ == old(self).source@,
                s == old(self).source@,
                st0 == old(self).state(),
                errs0 == old(errors)@,
                good_views(s, self.state()) == good_views(s, st0),
                lex_errors_view(errors@) + lex_errs(s, self.state()) == lex_errors_view(errs0) + lex_errs(s, st0),
            decreases s.len() - self.state().pos,
        {
            let ghost st = self.state();
            let r = self.scan_token();
            proof {
                lemma_step_progress(s, st);
            }
            match r {
                Ok(t) => {
                    proof {
                        if t.kind == TokenKind::Eof {
                            lemma_step_progress(s, self.state());
                            assert(lex_errs(s, self.state()) =~= Seq::empty());
                        }
                    }
                    return t;
                },
                Err(e) => {
                    let ghost before = errors@;
                    errors.push(e);
                    proof {
                        assert(lex_errors_view(errors@) =~= lex_errors_view(before).push(e@));
                        assert(lex_errors_view(errors@) + lex_errs(s, self.state())
                            =~= lex_errors_view(before) + lex_errs(s, st));
                    }
                },
            }
        }
    }
}

/// Every result that scanning from `st` produces, failures included, up to and including
/// `Eof`.
pub open spec fn scan_trace(s: Seq<char>, st: ScanState) -> Seq<Result<TokenView, LexErrorView>>
    decreases s.len() - st.pos,
{
    let (r, st2) = scan_step(s, st);
    if (r is Ok && r->Ok_0.kind == TokenKind::Eof) || !(st.pos < st2.pos <= s.len()) {
        seq![r]
    } else {
        seq![r] + scan_trace(s, st2)
    }
}

pub open spec fn results_view(v: Seq<Result<Token, ScannerError>>) -> Seq<Result<TokenView, LexErrorView>> {
    v.map_values(|r: Result<Token, ScannerError>| scan_view(r))
}

/// Scans the whole of `source`: every token and every failure, in order, ending with `Eof`.
pub fn tokenize(source: String) -> (r: Vec<Result<Token, ScannerError>>)
    requires
        source@.len() < u32::MAX,
    ensures
        results_view(r@) == scan_trace(source@, start_state()),
{
    let mut scanner = Scanner::new(source);
    let ghost s = scanner.text();
    let mut out: Vec<Result<Token, ScannerError>> = Vec::new();
    loop
        invariant
            scanner.wf(),
            scanner.text() == s,
            s == source@,
            results_view(out@) + scan_trace(s, scanner.state()) == scan_trace(s, start_state()),
        decreases s.len() - scanner.state().pos,
    {
        let ghost st = scanner.state();
        proof {
            scanner.lemma_within();
            lemma_step_progress(s, st);
        }
        let r = scanner.scan_token();
        let done = match &r {
            Ok(t) => t.kind == TokenKind::Eof,
            Err(_) => false,
        };
        let ghost before = out@;
        out.push(r);
        proof {
            assert(results_view(out@) =~= results_view(before).push(scan_view(r)));
            if !done {
                assert(results_view(out@) + scan_trace(s, scanner.state()) =~= results_view(before) + scan_trace(s, st));
            } else {
                assert(results_view(out@) =~= results_view(before) + scan_trace(s, st));
            }
        }
        if done {
            return out;
        }
    }
}

/// Scanning depends on the source alone: equal sources give equal sequences of tokens and
/// failures, with equal kinds, texts and positions.
pub proof fn lemma_scan_deterministic(a: Seq<char>, b: Seq<char>)
    requires
        a == b,
    ensures
        scan_trace(a, start_state()) == scan_trace(b, start_state()),
{
}

} // verus!

//! Blanks and comments between tokens change where tokens stand, never what they are.
use vstd::prelude::*;
use crate::scanner::{
    LexErrorKind, LexErrorView, ScanState, StrEnd, TokenKind, TokenView, escape_value,
    is_blank, lemma_number_bounds, lemma_run_bounds, lemma_skip_bounds, lemma_string_bounds,
    lex_from, number_end, run_char, run_end, scan_step, scan_trace, skip_end, start_state,
    string_end,
};

verus! {

/// A token or a failure without its position.
pub enum Shape {
    Token(TokenKind, Seq<char>),
    Failure(LexErrorKind, char),
}

pub open spec fn shape(r: Result<TokenView, LexErrorView>) -> Shape {
    match r {
        Ok(t) => Shape::Token(t.kind, t.lexeme),
        Err(e) => Shape::Failure(e.kind, e.place),
    }
}

/// What a scan produced, positions left out.
pub open spec fn shapes(t: Seq<Result<TokenView, LexErrorView>>) -> Seq<Shape> {
    t.map_values(|r: Result<TokenView, LexErrorView>| shape(r))
}

/// `s1` from `i1` on holds the same characters as `s2` from `i2` on.
pub open spec fn same_from(s1: Seq<char>, i1: int, s2: Seq<char>, i2: int) -> bool {
    &&& 0 <= i1 <= s1.len()
    &&& 0 <= i2 <= s2.len()
    &&& s1.subrange(i1, s1.len() as int) == s2.subrange(i2, s2.len() as int)
}

proof fn lemma_same_ahead(s1: Seq<char>, i1: int, s2: Seq<char>, i2: int, d: int)
    requires
        same_from(s1, i1, s2, i2),
        0 <= d <= s1.len() - i1,
    ensures
        same_from(s1, i1 + d, s2, i2 + d),
        s1.len() - i1 == s2.len() - i2,
        d < s1.len() - i1 ==> s1[i1 + d] == s2[i2 + d],
{
    let a = s1.subrange(i1, s1.len() as int);
    let b = s2.subrange(i2, s2.len() as int);
    assert(a.len() == b.len());
    assert(s1.subrange(i1 + d, s1.len() as int) =~= a.subrange(d, a.len() as int));
    assert(s2.subrange(i2 + d, s2.len() as int) =~= b.subrange(d, b.len() as int));
    if d < s1.len() - i1 {
        assert(s1[i1 + d] == a[d]);
        assert(s2[i2 + d] == b[d]);
    }
}

proof fn lemma_same_piece(s1: Seq<char>, i1: int, s2: Seq<char>, i2: int, d: int)
    requires
        same_from(s1, i1, s2, i2),
        0 <= d <= s1.len() - i1,
    ensures
        s1.subrange(i1, i1 + d) == s2.subrange(i2, i2 + d),
{
    let a = s1.subrange(i1, s1.len() as int);
    let b = s2.subrange(i2, s2.len() as int);
    assert(s1.subrange(i1, i1 + d) =~= a.subrange(0, d));
    assert(s2.subrange(i2, i2 + d) =~= b.subrange(0, d));
}

proof fn lemma_shift_skip(s1: Seq<char>, i1: nat, s2: Seq<char>, i2: nat, b: bool)
    requires
        same_from(s1, i1 as int, s2, i2 as int),
    ensures
        skip_end(s1, i1, b) - i1 == skip_end(s2, i2, b) - i2,
    decreases s1.len() - i1,
{
    lemma_same_ahead(s1, i1 as int, s2, i2 as int, 0);
    if i1 < s1.len() {
        lemma_same_ahead(s1, i1 as int, s2, i2 as int, 1);
        lemma_shift_skip(s1, i1 + 1, s2, i2 + 1, true);
        lemma_shift_skip(s1, i1 + 1, s2, i2 + 1, false);
    }
}

proof fn lemma_shift_run(s1: Seq<char>, i1: nat, s2: Seq<char>, i2: nat, which: nat)
    requires
        same_from(s1, i1 as int, s2, i2 as int),
    ensures
        run_end(s1, i1, which) - i1 == run_end(s2, i2, which) - i2,
    decreases s1.len() - i1,
{
    lemma_same_ahead(s1, i1 as int, s2, i2 as int, 0);
    if i1 < s1.len() {
        lemma_same_ahead(s1, i1 as int, s2, i2 as int, 1);
        lemma_shift_run(s1, i1 + 1, s2, i2 + 1, which);
    }
}

proof fn lemma_shift_number(s1: Seq<char>, i1: nat, s2: Seq<char>, i2: nat)
    requires
        same_from(s1, i1 as int, s2, i2 as int),
    ensures
        number_end(s1, i1) - i1 == number_end(s2, i2) - i2,
{
    lemma_shift_run(s1, i1, s2, i2, 0);
    lemma_run_bounds(s1, i1, 0);
    let d = run_end(s1, i1, 0) - i1;
    lemma_same_ahead(s1, i1 as int, s2, i2 as int, d);
    if d + 1 <= s1.len() - i1 {
        lemma_same_ahead(s1, i1 as int, s2, i2 as int, d + 1);
        lemma_shift_run(s1, (i1 + d + 1) as nat, s2, (i2 + d + 1) as nat, 0);
    }
}

proof fn lemma_shift_string(s1: Seq<char>, i1: nat, s2: Seq<char>, i2: nat, acc: Seq<char>)
    requires
        same_from(s1, i1 as int, s2, i2 as int),
    ensures
        match (string_end(s1, i1, acc), string_end(s2, i2, acc)) {
            (StrEnd::Closed(v1, e1), StrEnd::Closed(v2, e2)) => v1 == v2 && e1 - i1 == e2 - i2,
            (StrEnd::BadEscape(x1, e1), StrEnd::BadEscape(x2, e2)) => x1 == x2 && e1 - i1 == e2 - i2,
            (StrEnd::Open, StrEnd::Open) => true,
            _ => false,
        },
    decreases s1.len() - i1,
{
    lemma_same_ahead(s1, i1 as int, s2, i2 as int, 0);
    if i1 < s1.len() {
        lemma_same_ahead(s1, i1 as int, s2, i2 as int, 1);
        if i1 + 1 < s1.len() {
            lemma_same_ahead(s1, i1 as int, s2, i2 as int, 2);
            if let Some(v) = escape_value(s1[(i1 + 1) as int]) {
                lemma_shift_string(s1, i1 + 2, s2, i2 + 2, acc.push(v));
            }
        }
        lemma_shift_string(s1, i1 + 1, s2, i2 + 1, acc.push(s1[i1 as int]));
    }
}

/// The token at `j1` of `s1` and the one at `j2` of `s2` have the same shape and length
/// where the two sources hold the same characters from there on.
proof fn lemma_shift_lex(s1: Seq<char>, j1: nat, l1: nat, c1: nat, s2: Seq<char>, j2: nat, l2: nat, c2: nat)
    requires
        same_from(s1, j1 as int, s2, j2 as int),
    ensures
        shape(lex_from(s1, j1, l1, c1).0) == shape(lex_from(s2, j2, l2, c2).0),
        lex_from(s1, j1, l1, c1).1.pos - j1 == lex_from(s2, j2, l2, c2).1.pos - j2,
{
    lemma_same_ahead(s1, j1 as int, s2, j2 as int, 0);
    if j1 < s1.len() {
        lemma_same_ahead(s1, j1 as int, s2, j2 as int, 1);
        if j1 + 1 < s1.len() {
            lemma_same_ahead(s1, j1 as int, s2, j2 as int, 2);
            lemma_same_piece(s1, j1 as int, s2, j2 as int, 2);
        }
        lemma_same_piece(s1, j1 as int, s2, j2 as int, 1);
        lemma_shift_number(s1, j1 + 1, s2, j2 + 1);
        lemma_shift_run(s1, j1 + 1, s2, j2 + 1, 1);
        lemma_shift_run(s1, j1 + 1, s2, j2 + 1, 2);
        lemma_shift_string(s1, j1 + 1, s2, j2 + 1, Seq::empty());
        lemma_run_bounds(s1, j1 + 1, 1);
        lemma_run_bounds(s1, j1 + 1, 2);
        lemma_number_bounds(s1, j1 + 1);
        lemma_same_piece(s1, j1 as int, s2, j2 as int, number_end(s1, j1 + 1) - j1);
        lemma_same_piece(s1, j1 as int, s2, j2 as int, run_end(s1, j1 + 1, 1) - j1);
        lemma_same_piece(s1, j1 as int, s2, j2 as int, run_end(s1, j1 + 1, 2) - j1);
    }
}

proof fn lemma_shift_step(s1: Seq<char>, st1: ScanState, s2: Seq<char>, st2: ScanState)
    requires
        same_from(s1, st1.pos as int, s2, st2.pos as int),
    ensures
        shape(scan_step(s1, st1).0) == shape(scan_step(s2, st2).0),
        scan_step(s1, st1).1.pos - st1.pos == scan_step(s2, st2).1.pos - st2.pos,
        s1.len() - st1.pos == s2.len() - st2.pos,
{
    lemma_same_ahead(s1, st1.pos as int, s2, st2.pos as int, 0);
    lemma_shift_skip(s1, st1.pos, s2, st2.pos, false);
    lemma_skip_bounds(s1, st1.pos, false);
    let j1 = skip_end(s1, st1.pos, false);
    let j2 = skip_end(s2, st2.pos, false);
    lemma_same_ahead(s1, st1.pos as int, s2, st2.pos as int, j1 - st1.pos);
    lemma_shift_lex(s1, j1, st1.line, (st1.col + (j1 - st1.pos)) as nat, s2, j2, st2.line, (st2.col + (j2 - st2.pos)) as nat);
}

proof fn lemma_shapes_cons(r: Result<TokenView, LexErrorView>, rest: Seq<Result<TokenView, LexErrorView>>)
    ensures
        shapes(seq![r] + rest) == seq![shape(r)] + shapes(rest),
        shapes(seq![r]) == seq![shape(r)],
{
    assert(shapes(seq![r] + rest) =~= seq![shape(r)] + shapes(rest));
    assert(shapes(seq![r]) =~= seq![shape(r)]);
}

/// Scanning depends only on the characters ahead: where two sources agree from two
/// positions on, scanning from them gives the same shapes.
pub proof fn lemma_shift_trace(s1: Seq<char>, st1: ScanState, s2: Seq<char>, st2: ScanState)
    requires
        same_from(s1, st1.pos as int, s2, st2.pos as int),
    ensures
        shapes(scan_trace(s1, st1)) == shapes(scan_trace(s2, st2)),
    decreases s1.len() - st1.pos,
{
    lemma_shift_step(s1, st1, s2, st2);
    let (r1, n1) = scan_step(s1, st1);
    let (r2, n2) = scan_step(s2, st2);
    lemma_shapes_cons(r1, Seq::empty());
    lemma_shapes_cons(r2, Seq::empty());
    if !((r1 is Ok && r1->Ok_0.kind == TokenKind::Eof) || !(st1.pos < n1.pos <= s1.len())) {
        lemma_same_ahead(s1, st1.pos as int, s2, st2.pos as int, n1.pos - st1.pos);
        lemma_shift_trace(s1, n1, s2, n2);
        lemma_shapes_cons(r1, scan_trace(s1, n1));
        lemma_shapes_cons(r2, scan_trace(s2, n2));
    }
}

/// Blanks, and `#`, never continue a token.
pub open spec fn is_stop(c: char) -> bool {
    is_blank(c) || c == '#'
}

/// `t` agrees with `s` before `p`, and holds a blank or `#` at `p`.
pub open spec fn agree(s: Seq<char>, t: Seq<char>, p: nat) -> bool {
    &&& p < s.len()
    &&& p < t.len()
    &&& forall|i: int| 0 <= i < p ==> #[trigger] s[i] == t[i]
    &&& is_stop(t[p as int])
}

proof fn lemma_local_skip(s: Seq<char>, t: Seq<char>, p: nat, i: nat, b: bool)
    requires
        agree(s, t, p),
        i <= p,
        skip_end(s, i, b) < p,
    ensures
        skip_end(t, i, b) == skip_end(s, i, b),
    decreases s.len() - i,
{
    lemma_skip_bounds(s, i, b);
    if i < s.len() {
        lemma_skip_bounds(s, i + 1, true);
        lemma_skip_bounds(s, i + 1, false);
        assert(s[i as int] == t[i as int]);
        if b {
            if s[i as int] != '\n' {
                lemma_local_skip(s, t, p, i + 1, true);
            }
        } else if is_blank(s[i as int]) {
            lemma_local_skip(s, t, p, i + 1, false);
        } else if s[i as int] == '#' {
            lemma_local_skip(s, t, p, i + 1, true);
        }
    }
}

proof fn lemma_local_run(s: Seq<char>, t: Seq<char>, p: nat, i: nat, which: nat)
    requires
        agree(s, t, p),
        i <= p,
        run_end(s, i, which) <= p,
    ensures
        run_end(t, i, which) == run_end(s, i, which),
    decreases s.len() - i,
{
    if i < s.len() && run_char(s[i as int], which) {
        lemma_run_bounds(s, i + 1, which);
        assert(s[i as int] == t[i as int]);
        lemma_local_run(s, t, p, i + 1, which);
    } else if i < p {
        assert(s[i as int] == t[i as int]);
    }
}

proof fn lemma_local_number(s: Seq<char>, t: Seq<char>, p: nat, i: nat)
    requires
        agree(s, t, p),
        i <= p,
        number_end(s, i) <= p,
    ensures
        number_end(t, i) == number_end(s, i),
{
    lemma_run_bounds(s, i, 0);
    let j = run_end(s, i, 0);
    if j + 1 < s.len() {
        lemma_run_bounds(s, j + 1, 0);
    }
    lemma_local_run(s, t, p, i, 0);
    if j + 1 < s.len() && s[j as int] == '.' && crate::scanner::is_digit(s[(j + 1) as int]) {
        lemma_run_bounds(s, j + 2, 0);
        assert(s[j as int] == t[j as int]);
        assert(s[(j + 1) as int] == t[(j + 1) as int]);
        lemma_local_run(s, t, p, j + 1, 0);
    } else if j < p {
        assert(s[j as int] == t[j as int]);
        if j + 1 < p {
            assert(s[(j + 1) as int] == t[(j + 1) as int]);
        }
    }
}

proof fn lemma_local_string(s: Seq<char>, t: Seq<char>, p: nat, i: nat, acc: Seq<char>)
    requires
        agree(s, t, p),
        i <= p,
        match string_end(s, i, acc) {
            StrEnd::Closed(_, e) => e <= p,
            StrEnd::BadEscape(_, e) => e <= p,
            StrEnd::Open => false,
        },
    ensures
        string_end(t, i, acc) == string_end(s, i, acc),
    decreases s.len() - i,
{
    lemma_string_bounds(s, i, acc);
    if i < s.len() {
        assert(s[i as int] == t[i as int]);
        if s[i as int] == '\\' && i + 1 < s.len() {
            match escape_value(s[(i + 1) as int]) {
                Some(v) => {
                    lemma_string_bounds(s, i + 2, acc.push(v));
                    assert(s[(i + 1) as int] == t[(i + 1) as int]);
                    lemma_local_string(s, t, p, i + 2, acc.push(v));
                },
                None => {
                    assert(s[(i + 1) as int] == t[(i + 1) as int]);
                },
            }
        } else if s[i as int] != '"' && s[i as int] != '\\' {
            lemma_string_bounds(s, i + 1, acc.push(s[i as int]));
            lemma_local_string(s, t, p, i + 1, acc.push(s[i as int]));
        }
    }
}

proof fn lemma_lex_advances(s: Seq<char>, j: nat, line: nat, c0: nat)
    requires
        j < s.len(),
    ensures
        j < lex_from(s, j, line, c0).1.pos <= s.len(),
{
    lemma_number_bounds(s, j + 1);
    lemma_run_bounds(s, j + 1, 1);
    lemma_run_bounds(s, j + 1, 2);
    lemma_string_bounds(s, j + 1, Seq::empty());
}

proof fn lemma_local_lex(s: Seq<char>, t: Seq<char>, p: nat, j: nat, line: nat, c0: nat)
    requires
        agree(s, t, p),
        j < p,
        lex_from(s, j, line, c0).1.pos <= p,
    ensures
        lex_from(t, j, line, c0) == lex_from(s, j, line, c0),
{
    let e = lex_from(s, j, line, c0).1.pos;
    assert(s[j as int] == t[j as int]);
    lemma_number_bounds(s, j + 1);
    lemma_run_bounds(s, j + 1, 1);
    lemma_run_bounds(s, j + 1, 2);
    lemma_string_bounds(s, j + 1, Seq::empty());
    let c = s[j as int];
    if crate::scanner::is_digit(c) {
        lemma_local_number(s, t, p, j + 1);
    } else if crate::scanner::ident_start(c) {
        lemma_local_run(s, t, p, j + 1, 1);
    } else if c == '"' {
        lemma_local_string(s, t, p, j + 1, Seq::empty());
    } else if c == '\n' {
        lemma_local_run(s, t, p, j + 1, 2);
    } else if j + 1 < p {
        assert(s[(j + 1) as int] == t[(j + 1) as int]);
    }
    assert(s.subrange(j as int, e as int) =~= t.subrange(j as int, e as int));
}

proof fn lemma_local_step(s: Seq<char>, t: Seq<char>, p: nat, st: ScanState)
    requires
        agree(s, t, p),
        st.pos < p,
        scan_step(s, st).1.pos <= p,
    ensures
        scan_step(t, st) == scan_step(s, st),
{
    lemma_skip_bounds(s, st.pos, false);
    let j = skip_end(s, st.pos, false);
    if j < s.len() {
        lemma_lex_advances(s, j, st.line, (st.col + (j - st.pos)) as nat);
        lemma_local_skip(s, t, p, st.pos, false);
        lemma_local_lex(s, t, p, j, st.line, (st.col + (j - st.pos)) as nat);
    }
}

/// `p` is a position at which the scanner, started in `st`, stands between two steps.
pub open spec fn visits(s: Seq<char>, st: ScanState, p: nat) -> bool
    decreases s.len() - st.pos,
{
    if st.pos == p {
        true
    } else {
        let (r, st2) = scan_step(s, st);
        if (r is Ok && r->Ok_0.kind == TokenKind::Eof) || !(st.pos < st2.pos <= s.len()) {
            false
        } else {
            visits(s, st2, p)
        }
    }
}

proof fn lemma_visits_bound(s: Seq<char>, st: ScanState, p: nat)
    requires
        visits(s, st, p),
    ensures
        st.pos <= p,
    decreases s.len() - st.pos,
{
    if st.pos != p {
        lemma_visits_bound(s, scan_step(s, st).1, p);
    }
}

/// `s` with `w` put in at `p`.
pub open spec fn insert(s: Seq<char>, p: nat, w: Seq<char>) -> Seq<char> {
    s.subrange(0, p as int) + w + s.subrange(p as int, s.len() as int)
}

/// Blanks alone, or a comment: `#` and more characters, none of them a newline.
pub open spec fn is_layout(w: Seq<char>) -> bool {
    &&& w.len() > 0
    &&& (forall|i: int| 0 <= i < w.len() ==> is_blank(#[trigger] w[i])) || (w[0] == '#' && forall|i: int|
        0 <= i < w.len() ==> #[trigger] w[i] != '\n')
}

proof fn lemma_insert_facts(s: Seq<char>, p: nat, w: Seq<char>)
    requires
        p < s.len(),
        w.len() > 0,
    ensures
        insert(s, p, w).len() == s.len() + w.len(),
        forall|i: int| 0 <= i < p ==> #[trigger] s[i] == insert(s, p, w)[i],
        forall|i: int| 0 <= i < w.len() ==> #[trigger] w[i] == insert(s, p, w)[p + i],
        same_from(insert(s, p, w), (p + w.len()) as int, s, p as int),
{
    let t = insert(s, p, w);
    assert forall|i: int| 0 <= i < p implies #[trigger] s[i] == t[i] by {
        assert(t[i] == s.subrange(0, p as int)[i]);
    }
    assert forall|i: int| 0 <= i < w.len() implies #[trigger] w[i] == t[p + i] by {
        assert(t[p + i] == (s.subrange(0, p as int) + w)[p + i]);
    }
    assert(t.subrange((p + w.len()) as int, t.len() as int) =~= s.subrange(p as int, s.len() as int));
}

proof fn lemma_skip_blanks(t: Seq<char>, i: nat, end: nat)
    requires
        i <= end < t.len(),
        forall|k: int| i <= k < end ==> is_blank(#[trigger] t[k]),
    ensures
        skip_end(t, i, false) == skip_end(t, end, false),
    decreases end - i,
{
    if i < end {
        assert(is_blank(t[i as int]));
        lemma_skip_blanks(t, i + 1, end);
    }
}

proof fn lemma_skip_comment(t: Seq<char>, i: nat, end: nat)
    requires
        i <= end < t.len(),
        t[end as int] == '\n',
        forall|k: int| i <= k < end ==> #[trigger] t[k] != '\n',
    ensures
        skip_end(t, i, true) == end,
    decreases end - i,
{
    if i < end {
        assert(t[i as int] != '\n');
        lemma_skip_comment(t, i + 1, end);
    }
}

/// Skipping from the insertion point crosses the inserted layout, then what `s` skips.
proof fn lemma_skip_layout(s: Seq<char>, p: nat, w: Seq<char>)
    requires
        p < s.len(),
        is_layout(w),
        w[0] == '#' ==> s[p as int] == '\n',
    ensures
        skip_end(insert(s, p, w), p, false) == skip_end(s, p, false) + w.len(),
{
    let t = insert(s, p, w);
    let n = w.len();
    lemma_insert_facts(s, p, w);
    lemma_same_ahead(t, (p + n) as int, s, p as int, 0);
    if forall|i: int| 0 <= i < w.len() ==> is_blank(#[trigger] w[i]) {
        assert forall|k: int| p <= k < p + n implies is_blank(#[trigger] t[k]) by {
            assert(w[k - p] == t[p + (k - p)]);
        }
        lemma_skip_blanks(t, p, p + n);
        lemma_shift_skip(t, p + n, s, p, false);
    } else {
        assert(w[0] == t[p as int]);
        assert forall|k: int| p + 1 <= k < p + n implies #[trigger] t[k] != '\n' by {
            assert(w[k - p] == t[p + (k - p)]);
        }
        lemma_skip_comment(t, p + 1, p + n);
    }
}

/// The step from the insertion point: it crosses the layout, then reads what `s` reads.
proof fn lemma_insert_at(s: Seq<char>, p: nat, w: Seq<char>, st: ScanState)
    requires
        p < s.len(),
        is_layout(w),
        w[0] == '#' ==> s[p as int] == '\n',
        st.pos == p,
    ensures
        shapes(scan_trace(insert(s, p, w), st)) == shapes(scan_trace(s, st)),
{
    let t = insert(s, p, w);
    let n = w.len();
    lemma_insert_facts(s, p, w);
    let (rs, ns) = scan_step(s, st);
    let (rt, nt) = scan_step(t, st);
    lemma_shapes_cons(rs, Seq::empty());
    lemma_shapes_cons(rt, Seq::empty());
    lemma_skip_layout(s, p, w);
    lemma_skip_bounds(s, p, false);
    let js = skip_end(s, p, false);
    let jt = skip_end(t, p, false);
    lemma_same_ahead(t, (p + n) as int, s, p as int, js - p);
    lemma_shift_lex(t, jt, st.line, (st.col + (jt - p)) as nat, s, js, st.line, (st.col + (js - p)) as nat);
    lemma_step_bounds(s, st);
    if js < s.len() {
        lemma_lex_advances(s, js, st.line, (st.col + (js - p)) as nat);
    }
    assert(jt == js + n);
    assert(nt.pos == ns.pos + n);
    assert(shape(rt) == shape(rs));
    if !((rs is Ok && rs->Ok_0.kind == TokenKind::Eof) || !(st.pos < ns.pos <= s.len())) {
        lemma_same_ahead(t, jt as int, s, js as int, ns.pos - js);
        lemma_shift_trace(t, nt, s, ns);
        lemma_shapes_cons(rs, scan_trace(s, ns));
        lemma_shapes_cons(rt, scan_trace(t, nt));
    }
}

proof fn lemma_insert_trace(s: Seq<char>, p: nat, w: Seq<char>, st: ScanState)
    requires
        p < s.len(),
        is_layout(w),
        w[0] == '#' ==> s[p as int] == '\n',
        visits(s, st, p),
    ensures
        shapes(scan_trace(insert(s, p, w), st)) == shapes(scan_trace(s, st)),
    decreases s.len() - st.pos,
{
    if st.pos == p {
        lemma_insert_at(s, p, w, st);
    } else {
        let t = insert(s, p, w);
        lemma_insert_facts(s, p, w);
        lemma_visits_bound(s, st, p);
        let (rs, ns) = scan_step(s, st);
        let (rt, nt) = scan_step(t, st);
        assert(t[p as int] == w[0]) by {
            assert(w[0] == t[p as int]);
        }
        assert(agree(s, t, p));
        lemma_visits_bound(s, ns, p);
        lemma_local_step(s, t, p, st);
        lemma_insert_trace(s, p, w, ns);
        lemma_shapes_cons(rs, scan_trace(s, ns));
        lemma_shapes_cons(rt, scan_trace(t, nt));
    }
}

proof fn lemma_step_bounds(s: Seq<char>, st: ScanState)
    requires
        st.pos <= s.len(),
    ensures
        st.pos <= scan_step(s, st).1.pos <= s.len(),
{
    crate::scanner::lemma_step_progress(s, st);
}

/// Putting blanks, or a comment before a newline, in between two tokens (at a position the
/// scanner reaches between steps, before the end) changes no kind and no text of what
/// scanning produces: only positions move.
pub proof fn lemma_layout_invariance(s: Seq<char>, p: nat, w: Seq<char>)
    requires
        p < s.len(),
        visits(s, start_state(), p),
        is_layout(w),
        w[0] == '#' ==> s[p as int] == '\n',
    ensures
        shapes(scan_trace(insert(s, p, w), start_state())) == shapes(scan_trace(s, start_state())),
{
    lemma_insert_trace(s, p, w, start_state());
}

} // verus!

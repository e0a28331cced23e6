//! The diagnostic protocol shared by scanning and parsing failures.
use vstd::prelude::*;
use crate::text::{decimal, push_char, push_decimal, push_str};

verus! {

/// The characters of line `target` (counted from 1) of `s`, reading from index `i`,
/// where index `i` lies on line `line`.
pub open spec fn line_text(s: Seq<char>, i: nat, line: nat, target: nat) -> Seq<char>
    decreases s.len() - i,
{
    if i >= s.len() {
        Seq::empty()
    } else if s[i as int] == '\n' {
        line_text(s, i + 1, line + 1, target)
    } else if line == target {
        seq![s[i as int]] + line_text(s, i + 1, line, target)
    } else {
        line_text(s, i + 1, line, target)
    }
}

/// `n` spaces.
pub open spec fn spaces(n: nat) -> Seq<char> {
    Seq::new(n, |i: int| ' ')
}

/// The text of a diagnostic at (`line`, `col`): a header naming the line and the place, the
/// source line itself, a caret under the column, and the message.
pub open spec fn report_text(line: nat, col: nat, place: Seq<char>, message: Seq<char>, source: Seq<char>) -> Seq<char> {
    "[line "@ + decimal(line) + "] Error"@ + place + ":\n    "@ + line_text(source, 0, 1, line)
        + "\n    "@ + spaces(if col == 0 { 0 } else { (col - 1) as nat }) + "^\n"@ + message + "\n"@
}

/// What every scanning or parsing failure can tell about itself.
pub trait Report {
    spec fn spec_position(&self) -> (u32, u32);

    spec fn spec_message(&self) -> Seq<char>;

    spec fn spec_place(&self) -> Seq<char>;

    /// Line and column of the failure.
    fn position(&self) -> (r: (u32, u32))
        ensures
            r == self.spec_position(),
    ;

    /// What went wrong, in words.
    fn message(&self) -> (r: String)
        ensures
            r@ == self.spec_message(),
    ;

    /// A short label for where it went wrong, such as ` at 'foo'` or ` at end`.
    fn place(&self) -> (r: String)
        ensures
            r@ == self.spec_place(),
    ;

    /// The diagnostic as text, quoting the offending line of `source`.
    fn report_in(&self, source: &Vec<char>) -> (r: String)
        ensures
            r@ == report_text(
                self.spec_position().0 as nat,
                self.spec_position().1 as nat,
                self.spec_place(),
                self.spec_message(),
                source@,
            ),
    {
        let (line, col) = self.position();
        render(line, col, &self.place(), &self.message(), source)
    }
}

/// The characters of line `target` of `source`.
fn source_line(source: &Vec<char>, target: u32) -> (r: String)
    ensures
        r@ == line_text(source@, 0, 1, target as nat),
{
    let mut out = String::new();
    let mut i: usize = 0;
    let mut line: u128 = 1;
    while i < source.len()
        invariant
            i <= source@.len(),
            line <= i + 1,
            out@ + line_text(source@, i as nat, line as nat, target as nat) == line_text(
                source@,
                0,
                1,
                target as nat,
            ),
        decreases source@.len() - i,
    {
        let c = source[i];
        if c == '\n' {
            line = line + 1;
        } else if line == target as u128 {
            let ghost before = out@;
            push_char(&mut out, c);
            assert(before + line_text(source@, i as nat, line as nat, target as nat) =~= out@
                + line_text(source@, (i + 1) as nat, line as nat, target as nat));
        }
        i = i + 1;
    }
    assert(out@ =~= out@ + line_text(source@, i as nat, line as nat, target as nat));
    out
}

/// Renders a diagnostic; see `report_text`.
pub fn render(line: u32, col: u32, place: &String, message: &String, source: &Vec<char>) -> (r: String)
    ensures
        r@ == report_text(line as nat, col as nat, place@, message@, source@),
{
    let mut out = String::new();
    push_str(&mut out, "[line ");
    push_decimal(&mut out, line);
    push_str(&mut out, "] Error");
    push_str(&mut out, place.as_str());
    push_str(&mut out, ":\n    ");
    push_str(&mut out, source_line(source, line).as_str());
    push_str(&mut out, "\n    ");
    let n: u32 = if col == 0 { 0 } else { col - 1 };
    let mut k: u32 = 0;
    let ghost head = out@;
    while k < n
        invariant
            k <= n,
            out@ == head + spaces(k as nat),
        decreases n - k,
    {
        push_char(&mut out, ' ');
        assert(out@ =~= head + spaces((k + 1) as nat));
        k = k + 1;
    }
    push_str(&mut out, "^\n");
    push_str(&mut out, message.as_str());
    push_str(&mut out, "\n");
    out
}

} // verus!

//! Response lines of the server: how they are classified and what is read
//! out of them.

use vstd::prelude::*;
use crate::decimal::{
    decimal_text, is_digit, lemma_decimal_reads_back, lemma_decimal_text_denotes,
    parse_unsigned, unsigned_decimal,
};
use crate::outcome::{agrees, finish, step_view, within, ParseError, Parsed, Step, Stop};
use crate::text::{
    begins_with, chars_of, first_position, first_position_at, has_at, last_position_end,
    last_position_end_at, lemma_first_position_bounds, lemma_last_position_bounds,
    lemma_last_position_is, string_of,
    trimmed, trimmed_chars, uppercase,
};

verus! {

/// The status word that a response line begins with.
#[derive(Debug, PartialEq, Eq, Clone, Copy)]
pub enum Status {
    /// The line begins with `OK`.
    Okay,
    /// The line begins with `NO`.
    No,
    /// The line begins with `BYE`.
    Bye,
    /// The line begins with none of the three.
    Other,
}

/// A response line without the white space around it, as received and in
/// upper case.
pub struct ResponseLine {
    /// The line without leading and trailing white space.
    pub text: Vec<char>,
    /// The upper-case form of `text`.
    pub upper: Vec<char>,
}

/// The status of a line, given its upper-case form.
pub open spec fn status_of_upper(upper: Seq<char>) -> Status {
    if has_at(upper, 0, "OK"@) {
        Status::Okay
    } else if has_at(upper, 0, "NO"@) {
        Status::No
    } else if has_at(upper, 0, "BYE"@) {
        Status::Bye
    } else {
        Status::Other
    }
}

/// The status of a line as it came from the server.
pub open spec fn status_of(line: Seq<char>) -> Status {
    status_of_upper(uppercase(trimmed(line)))
}

/// The number `n` of a literal header `{n}`, if `text` is one.
pub open spec fn literal_length(text: Seq<char>) -> Option<usize> {
    if text.len() >= 2 && text[0] == '{' && text.last() == '}' {
        match unsigned_decimal(text.subrange(1, text.len() - 1), usize::MAX as int) {
            Some(n) => Some(n as usize),
            None => None,
        }
    } else {
        None
    }
}

/// Where a diagnostic message of the server is to be found.
pub ghost enum DiagnosticView {
    /// The message itself.
    Text(Seq<char>),
    /// The message follows as a literal of this many bytes.
    Literal(usize),
}

/// Where a diagnostic message of the server is to be found.
#[derive(Debug, PartialEq, Eq)]
pub enum Diagnostic {
    /// The message itself.
    Text(String),
    /// The message follows as a literal of this many bytes.
    Literal(usize),
}

impl View for Diagnostic {
    type V = DiagnosticView;

    open spec fn view(&self) -> DiagnosticView {
        match self {
            Diagnostic::Text(t) => DiagnosticView::Text(t@),
            Diagnostic::Literal(n) => DiagnosticView::Literal(*n),
        }
    }
}

/// The number `n` of the literal header `{n}` that `text` ends in, if it
/// ends in one: behind its last opening brace stand a number and, as the last
/// character of the text, the closing brace.
pub open spec fn trailing_literal_length(text: Seq<char>) -> Option<usize> {
    let open = last_position_end(text, text.len() as int, '{') - 1;
    if 0 <= open && text.len() >= 2 && text.last() == '}' {
        match unsigned_decimal(text.subrange(open + 1, text.len() - 1), usize::MAX as int) {
            Some(n) => Some(n as usize),
            None => None,
        }
    } else {
        None
    }
}

/// The diagnostic message that a status line carries: what stands between
/// its first and its last double quote; else, where the line holds no double
/// quote and ends in a literal header, the literal that follows the line;
/// else `fallback`.
pub open spec fn diagnostic_of(text: Seq<char>, fallback: Seq<char>) -> DiagnosticView {
    let first = first_position(text, 0, '"');
    let last = last_position_end(text, text.len() as int, '"') - 1;
    if first < text.len() {
        if first != last {
            DiagnosticView::Text(text.subrange(first + 1, last))
        } else {
            DiagnosticView::Text(fallback)
        }
    } else {
        match trailing_literal_length(text) {
            Some(n) => DiagnosticView::Literal(n),
            None => DiagnosticView::Text(fallback),
        }
    }
}

/// A line that holds no double quote and ends in the header of a literal of
/// `n` bytes, behind whatever stands before it, announces its message as
/// that literal.
pub proof fn lemma_diagnostic_in_literal(before: Seq<char>, n: nat, fallback: Seq<char>)
    requires
        n <= usize::MAX,
        forall|i: int| 0 <= i < before.len() ==> before[i] != '"',
    ensures
        trailing_literal_length(before + "{"@ + decimal_text(n) + "}"@) == Some(n as usize),
        diagnostic_of(before + "{"@ + decimal_text(n) + "}"@, fallback) == DiagnosticView::Literal(
            n as usize,
        ),
{
    reveal_strlit("{");
    reveal_strlit("}");
    let digits = decimal_text(n);
    let line = before + "{"@ + digits + "}"@;
    let open = before.len() as int;
    lemma_decimal_text_denotes(n);
    lemma_decimal_reads_back(n, usize::MAX as int);
    assert(line.len() == open + 1 + digits.len() + 1);
    assert(line[open] == '{');
    assert(line.last() == '}');
    assert forall|i: int| open < i < line.len() implies line[i] != '{' && line[i] != '"' by {
        if i < line.len() - 1 {
            assert(line[i] == digits[i - open - 1]);
            assert(is_digit(digits[i - open - 1]));
        }
    }
    lemma_last_position_is(line, open, line.len() as int, '{');
    assert(line.subrange(open + 1, line.len() - 1) =~= digits);
    assert forall|i: int| 0 <= i < line.len() implies line[i] != '"' by {
        if i < open {
            assert(line[i] == before[i]);
        }
    }
    lemma_first_position_bounds(line, 0, '"');
}

/// The header that announces a literal of `n` bytes is read back as `n`.
pub proof fn lemma_literal_header_reads_back(n: nat)
    requires
        n <= usize::MAX,
    ensures
        literal_length("{"@ + decimal_text(n) + "}"@) == Some(n as usize),
        ("{"@ + decimal_text(n) + "}"@)[0] == '{',
{
    reveal_strlit("{");
    reveal_strlit("}");
    let header = "{"@ + decimal_text(n) + "}"@;
    lemma_decimal_text_denotes(n);
    lemma_decimal_reads_back(n, usize::MAX as int);
    assert(header.subrange(1, header.len() - 1) =~= decimal_text(n));
    assert(header[0] == '{');
    assert(header.last() == '}');
}

/// A double-quoted string of the protocol at position `pos`: the characters
/// up to the next double quote, with no escapes.
pub open spec fn quoted_string(s: Seq<char>, pos: int) -> Parsed<Seq<char>> {
    if !(0 <= pos < s.len()) || s[pos] != '"' {
        Parsed::Unmatched { at: pos }
    } else {
        let close = first_position(s, pos + 1, '"');
        if close < s.len() {
            Parsed::Done { end: close + 1, value: s.subrange(pos + 1, close) }
        } else {
            Parsed::Unmatched { at: pos + 1 }
        }
    }
}

/// Computes `status_of_upper`.
pub fn status_of_uppercased(upper: &[char]) -> (s: Status)
    ensures
        s == status_of_upper(upper@),
{
    if begins_with(upper, "OK") {
        Status::Okay
    } else if begins_with(upper, "NO") {
        Status::No
    } else if begins_with(upper, "BYE") {
        Status::Bye
    } else {
        Status::Other
    }
}

/// Reads the length out of a literal header `{n}`.
pub fn parse_literal_length(text: &[char]) -> (r: Option<usize>)
    ensures
        r == literal_length(text@),
{
    let n = text.len();
    if n >= 2 && text[0] == '{' && text[n - 1] == '}' {
        match parse_unsigned(text, 1, n - 1, usize::MAX as u64) {
            Some(v) => Some(v as usize),
            None => None,
        }
    } else {
        None
    }
}

/// Reads the length out of the literal header `{n}` that `text` ends in.
pub fn parse_trailing_literal_length(text: &[char]) -> (r: Option<usize>)
    ensures
        r == trailing_literal_length(text@),
{
    let n = text.len();
    let open_end = last_position_end_at(text, n, '{');
    proof {
        lemma_last_position_bounds(text@, n as int, '{');
    }
    if open_end >= 1 && n >= 2 && text[n - 1] == '}' {
        match parse_unsigned(text, open_end, n - 1, usize::MAX as u64) {
            Some(v) => Some(v as usize),
            None => None,
        }
    } else {
        None
    }
}

/// Computes `diagnostic_of`.
pub fn find_diagnostic(text: &[char], fallback: String) -> (d: Diagnostic)
    ensures
        d@ == diagnostic_of(text@, fallback@),
{
    let first = first_position_at(text, 0, '"');
    if first < text.len() {
        let last_end = last_position_end_at(text, text.len(), '"');
        proof {
            lemma_first_position_bounds(text@, 0, '"');
            lemma_last_position_bounds(text@, text@.len() as int, '"');
        }
        if first + 1 != last_end {
            Diagnostic::Text(string_of(text, first + 1, last_end - 1))
        } else {
            Diagnostic::Text(fallback)
        }
    } else {
        match parse_trailing_literal_length(text) {
            Some(n) => Diagnostic::Literal(n),
            None => Diagnostic::Text(fallback),
        }
    }
}

/// Reads a quoted string of the protocol at position `pos`.
pub fn quoted_string_at(s: &[char], pos: usize) -> (r: Step<String>)
    requires
        pos <= s@.len(),
    ensures
        step_view(r) == quoted_string(s@, pos as int),
        within(step_view(r), pos as int, s@.len() as int),
{
    if pos >= s.len() || s[pos] != '"' {
        return Err(Stop::Unmatched(pos));
    }
    let close = first_position_at(s, pos + 1, '"');
    if close < s.len() {
        Ok((close + 1, string_of(s, pos + 1, close)))
    } else {
        Err(Stop::Unmatched(pos + 1))
    }
}

/// Reads a quoted string of the protocol from the start of `input`.
pub fn parse_quoted_string<'a>(input: &'a str) -> (r: Result<(&'a str, String), ParseError<'a>>)
    ensures
        agrees(r, input@, quoted_string(input@, 0)),
{
    let s = chars_of(input);
    finish(input, quoted_string_at(s.as_slice(), 0))
}

impl ResponseLine {
    /// Takes a line as it came from the server: drops the white space around
    /// it and makes its upper-case form.
    pub fn read(line: &str) -> (r: ResponseLine)
        ensures
            r.text@ == trimmed(line@),
            r.upper@ == uppercase(trimmed(line@)),
    {
        let text = trimmed_chars(line);
        let plain = string_of(text.as_slice(), 0, text.len());
        assert(plain@ =~= text@);
        let upper = chars_of(plain.to_uppercase().as_str());
        ResponseLine { text, upper }
    }

    /// The status word that the line begins with.
    pub fn status(&self) -> (s: Status)
        ensures
            s == status_of_upper(self.upper@),
    {
        status_of_uppercased(self.upper.as_slice())
    }

    /// Whether nothing is left of the line.
    pub fn is_blank(&self) -> (b: bool)
        ensures
            b == (self.text@.len() == 0),
    {
        self.text.len() == 0
    }

    /// The line as a string.
    pub fn to_text(&self) -> (s: String)
        ensures
            s@ == self.text@,
    {
        let s = string_of(self.text.as_slice(), 0, self.text.len());
        assert(s@ =~= self.text@);
        s
    }

    /// The upper-case form of the line as a string.
    pub fn to_upper_text(&self) -> (s: String)
        ensures
            s@ == self.upper@,
    {
        let s = string_of(self.upper.as_slice(), 0, self.upper.len());
        assert(s@ =~= self.upper@);
        s
    }
}

/// The status of a line as it came from the server.
pub fn classify(line: &str) -> (s: Status)
    ensures
        s == status_of(line@),
{
    ResponseLine::read(line).status()
}

/// Two lines with the same upper-case form, once the white space around them
/// is dropped, have the same status: the classification does not see case.
pub proof fn lemma_status_ignores_case(a: Seq<char>, b: Seq<char>)
    requires
        uppercase(trimmed(a)) == uppercase(trimmed(b)),
    ensures
        status_of(a) == status_of(b),
{
}

} // verus!

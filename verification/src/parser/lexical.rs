//! The tokens of a script: blanks, keywords, punctuation, string literals and
//! arrays of string literals.
//!
//! Every parser reads a text from a position. Punctuation and string
//! literals want to see the next character: where the text ends instead, the
//! result is `Incomplete`. Keywords and blanks do not: where the text ends,
//! they do not match.

use vstd::prelude::*;
use crate::outcome::{failure, step_view, within, Parsed, Step, Stop};
use crate::text::{has_at, lemma_has_at_index, stands_at};

verus! {

/// Whether `c` is a blank: a space, a tab, a line feed or a carriage return.
pub open spec fn is_blank(c: char) -> bool {
    c == ' ' || c == '\t' || c == '\n' || c == '\r'
}

/// The first position at or after `from` that holds no blank.
pub open spec fn skip_blanks(s: Seq<char>, from: int) -> int
    decreases s.len() - from,
{
    if 0 <= from < s.len() && is_blank(s[from]) {
        skip_blanks(s, from + 1)
    } else {
        from
    }
}

/// At least one blank at `pos`, and all that follow.
pub open spec fn blanks(s: Seq<char>, pos: int) -> Parsed<()> {
    if skip_blanks(s, pos) > pos {
        Parsed::Done { end: skip_blanks(s, pos), value: () }
    } else {
        Parsed::Unmatched { at: pos }
    }
}

/// The character `c` at `pos`.
pub open spec fn symbol(s: Seq<char>, pos: int, c: char) -> Parsed<()> {
    if !(0 <= pos < s.len()) {
        Parsed::Incomplete
    } else if s[pos] == c {
        Parsed::Done { end: pos + 1, value: () }
    } else {
        Parsed::Unmatched { at: pos }
    }
}

/// The text `word` at `pos`.
pub open spec fn keyword(s: Seq<char>, pos: int, word: Seq<char>) -> Parsed<()> {
    if has_at(s, pos, word) {
        Parsed::Done { end: pos + word.len(), value: () }
    } else {
        Parsed::Unmatched { at: pos }
    }
}

/// The rest of a string literal behind its opening quote: the characters up
/// to the closing quote, where a backslash before a backslash or a double
/// quote stands for that character, and any other backslash for itself.
/// `acc` holds what was read before `pos`.
pub open spec fn string_tail(s: Seq<char>, pos: int, acc: Seq<char>) -> Parsed<Seq<char>>
    decreases s.len() - pos,
{
    if !(0 <= pos < s.len()) {
        Parsed::Incomplete
    } else if s[pos] == '"' {
        Parsed::Done { end: pos + 1, value: acc }
    } else if s[pos] == '\\' {
        if pos + 1 >= s.len() {
            Parsed::Incomplete
        } else if s[pos + 1] == '\\' || s[pos + 1] == '"' {
            string_tail(s, pos + 2, acc.push(s[pos + 1]))
        } else {
            string_tail(s, pos + 1, acc.push('\\'))
        }
    } else {
        string_tail(s, pos + 1, acc.push(s[pos]))
    }
}

/// A string literal at `pos`: a double quote, the content, a double quote.
pub open spec fn string_literal(s: Seq<char>, pos: int) -> Parsed<Seq<char>> {
    match symbol(s, pos, '"') {
        Parsed::Done { end, .. } => string_tail(s, end, Seq::empty()),
        other => failure(other),
    }
}

/// The string literals that follow the first of a list, each behind a comma
/// with blanks around it as they come. The list ends before a comma that no
/// string literal follows. `acc` holds the literals read before `pos`.
pub open spec fn more_strings(s: Seq<char>, pos: int, acc: Seq<Seq<char>>) -> Parsed<
    Seq<Seq<char>>,
>
    decreases s.len() - pos,
{
    match symbol(s, skip_blanks(s, pos), ',') {
        Parsed::Done { end: comma, .. } => match string_literal(s, skip_blanks(s, comma)) {
            Parsed::Done { end, value } => {
                proof {
                    lemma_skip_blanks(s, pos);
                    lemma_skip_blanks(s, comma);
                    lemma_string_literal_bounds(s, skip_blanks(s, comma));
                }
                more_strings(s, end, acc.push(value))
            },
            Parsed::Unmatched { .. } => Parsed::Done { end: pos, value: acc },
            Parsed::Incomplete => Parsed::Incomplete,
        },
        Parsed::Unmatched { .. } => Parsed::Done { end: pos, value: acc },
        Parsed::Incomplete => Parsed::Incomplete,
    }
}

/// Zero or more string literals at `pos`, with commas between them.
pub open spec fn string_list(s: Seq<char>, pos: int) -> Parsed<Seq<Seq<char>>> {
    match string_literal(s, pos) {
        Parsed::Done { end, value } => more_strings(s, end, seq![value]),
        Parsed::Unmatched { .. } => Parsed::Done { end: pos, value: Seq::empty() },
        Parsed::Incomplete => Parsed::Incomplete,
    }
}

/// An array of string literals at `pos`: a bracket, blanks as they come, the
/// list, blanks as they come, a bracket.
pub open spec fn string_array(s: Seq<char>, pos: int) -> Parsed<Seq<Seq<char>>> {
    match symbol(s, pos, '[') {
        Parsed::Done { end: open, .. } => match string_list(s, skip_blanks(s, open)) {
            Parsed::Done { end: last, value } => match symbol(s, skip_blanks(s, last), ']') {
                Parsed::Done { end, .. } => Parsed::Done { end, value },
                other => failure(other),
            },
            other => failure(other),
        },
        other => failure(other),
    }
}

/// Blanks are skipped forward, up to a character that is no blank.
pub proof fn lemma_skip_blanks(s: Seq<char>, from: int)
    ensures
        from <= skip_blanks(s, from),
        0 <= from <= s.len() ==> skip_blanks(s, from) <= s.len(),
        0 <= skip_blanks(s, from) < s.len() ==> !is_blank(s[skip_blanks(s, from)]),
        forall|i: int| from <= i < skip_blanks(s, from) ==> is_blank(s[i]),
    decreases s.len() - from,
{
    if 0 <= from < s.len() && is_blank(s[from]) {
        lemma_skip_blanks(s, from + 1);
    }
}

/// What the rest of a string literal comes to lies behind its start and
/// within the text, and it never fails to match.
pub proof fn lemma_string_tail_bounds(s: Seq<char>, pos: int, acc: Seq<char>)
    ensures
        string_tail(s, pos, acc) matches Parsed::Done { end, .. } ==> pos < end <= s.len(),
        !(string_tail(s, pos, acc) is Unmatched),
    decreases s.len() - pos,
{
    if 0 <= pos < s.len() && s[pos] != '"' {
        if s[pos] == '\\' {
            if pos + 1 < s.len() {
                if s[pos + 1] == '\\' || s[pos + 1] == '"' {
                    lemma_string_tail_bounds(s, pos + 2, acc.push(s[pos + 1]));
                } else {
                    lemma_string_tail_bounds(s, pos + 1, acc.push('\\'));
                }
            }
        } else {
            lemma_string_tail_bounds(s, pos + 1, acc.push(s[pos]));
        }
    }
}

/// A string literal ends behind its start and within the text; where it does
/// not match, it is at its first character.
pub proof fn lemma_string_literal_bounds(s: Seq<char>, pos: int)
    ensures
        string_literal(s, pos) matches Parsed::Done { end, .. } ==> 0 <= pos && pos + 2 <= end
            <= s.len(),
        string_literal(s, pos) matches Parsed::Unmatched { at } ==> at == pos && 0 <= pos
            < s.len(),
{
    lemma_string_tail_bounds(s, pos + 1, Seq::empty());
}

/// A list of string literals ends at or behind its start and within the text.
pub proof fn lemma_more_strings_bounds(s: Seq<char>, pos: int, acc: Seq<Seq<char>>)
    requires
        0 <= pos <= s.len(),
    ensures
        within(more_strings(s, pos, acc), pos, s.len() as int),
        !(more_strings(s, pos, acc) is Unmatched),
    decreases s.len() - pos,
{
    lemma_skip_blanks(s, pos);
    match symbol(s, skip_blanks(s, pos), ',') {
        Parsed::Done { end: comma, .. } => {
            lemma_skip_blanks(s, comma);
            lemma_string_literal_bounds(s, skip_blanks(s, comma));
            match string_literal(s, skip_blanks(s, comma)) {
                Parsed::Done { end, value } => {
                    lemma_more_strings_bounds(s, end, acc.push(value));
                },
                _ => {},
            }
        },
        _ => {},
    }
}

/// An array of string literals ends behind its start and within the text.
pub proof fn lemma_string_array_bounds(s: Seq<char>, pos: int)
    ensures
        string_array(s, pos) matches Parsed::Done { end, .. } ==> 0 <= pos && pos + 2 <= end
            <= s.len(),
        string_array(s, pos) matches Parsed::Unmatched { at } ==> 0 <= pos <= at < s.len(),
{
    if symbol(s, pos, '[') is Done {
        lemma_skip_blanks(s, pos + 1);
        let start = skip_blanks(s, pos + 1);
        lemma_string_literal_bounds(s, start);
        match string_literal(s, start) {
            Parsed::Done { end, value } => {
                lemma_more_strings_bounds(s, end, seq![value]);
            },
            _ => {},
        }
        match string_list(s, start) {
            Parsed::Done { end: last, .. } => {
                lemma_skip_blanks(s, last);
            },
            _ => {},
        }
    }
}

/// The content of a string literal that stands for `t`: a backslash before
/// every backslash and every double quote, and every other character as it is.
pub open spec fn escaped(t: Seq<char>) -> Seq<char>
    decreases t.len(),
{
    if t.len() == 0 {
        Seq::empty()
    } else if t[0] == '\\' || t[0] == '"' {
        seq!['\\', t[0]] + escaped(t.drop_first())
    } else {
        seq![t[0]] + escaped(t.drop_first())
    }
}

/// The string literal that stands for `t`.
pub open spec fn quoted(t: Seq<char>) -> Seq<char> {
    seq!['"'] + escaped(t) + seq!['"']
}

/// Behind the opening quote, the escaped form of `t` and a closing quote are
/// read as `t`, whatever was read before and whatever follows.
pub proof fn lemma_string_tail_reads_back(s: Seq<char>, pos: int, acc: Seq<char>, t: Seq<char>)
    requires
        has_at(s, pos, escaped(t) + seq!['"']),
    ensures
        string_tail(s, pos, acc) == (Parsed::Done {
            end: pos + escaped(t).len() + 1,
            value: acc + t,
        }),
    decreases t.len(),
{
    let rest = escaped(t) + seq!['"'];
    assert forall|i: int| 0 <= i < rest.len() implies s[pos + i] == rest[i] by {
        assert(s.subrange(pos, pos + rest.len())[i] == rest[i]);
    }
    if t.len() == 0 {
        assert(s[pos] == rest[0]);
        assert(acc + t =~= acc);
    } else {
        let tail = t.drop_first();
        let next = escaped(tail) + seq!['"'];
        if t[0] == '\\' || t[0] == '"' {
            assert(s[pos] == rest[0]);
            assert(s[pos + 1] == rest[1]);
            assert(s.subrange(pos + 2, pos + 2 + next.len()) =~= next) by {
                assert forall|i: int| 0 <= i < next.len() implies s[pos + 2 + i] == next[i] by {
                    assert(s[pos + (i + 2)] == rest[i + 2]);
                }
            }
            lemma_string_tail_reads_back(s, pos + 2, acc.push(t[0]), tail);
            assert(acc.push(t[0]) + tail =~= acc + t);
        } else {
            assert(s[pos] == rest[0]);
            assert(s.subrange(pos + 1, pos + 1 + next.len()) =~= next) by {
                assert forall|i: int| 0 <= i < next.len() implies s[pos + 1 + i] == next[i] by {
                    assert(s[pos + (i + 1)] == rest[i + 1]);
                }
            }
            lemma_string_tail_reads_back(s, pos + 1, acc.push(t[0]), tail);
            assert(acc.push(t[0]) + tail =~= acc + t);
        }
    }
}

/// Decoding the quoted and escaped form of a text gives the text back: where
/// `quoted(t)` stands in a text, a string literal is read there, its value
/// is `t`, and it ends where `quoted(t)` ends.
pub proof fn lemma_string_literal_reads_back(s: Seq<char>, pos: int, t: Seq<char>)
    requires
        has_at(s, pos, quoted(t)),
    ensures
        string_literal(s, pos) == (Parsed::Done { end: pos + quoted(t).len(), value: t }),
{
    let whole = quoted(t);
    let rest = escaped(t) + seq!['"'];
    assert forall|i: int| 0 <= i < whole.len() implies s[pos + i] == whole[i] by {
        assert(s.subrange(pos, pos + whole.len())[i] == whole[i]);
    }
    assert(s[pos] == whole[0]);
    assert(s.subrange(pos + 1, pos + 1 + rest.len()) =~= rest) by {
        assert forall|i: int| 0 <= i < rest.len() implies s[pos + 1 + i] == rest[i] by {
            assert(s[pos + (i + 1)] == whole[i + 1]);
        }
    }
    lemma_string_tail_reads_back(s, pos + 1, Seq::empty(), t);
    assert(Seq::<char>::empty() + t =~= t);
}

/// The quoted and escaped form of a text, parsed on its own, gives the text
/// back and leaves nothing unread.
pub proof fn lemma_quoted_reads_back(t: Seq<char>)
    ensures
        string_literal(quoted(t), 0) == (Parsed::Done { end: quoted(t).len() as int, value: t }),
{
    assert(quoted(t).subrange(0, quoted(t).len() as int) =~= quoted(t));
    lemma_string_literal_reads_back(quoted(t), 0, t);
}

/// One space before a character that is no blank is all the blanks there.
pub proof fn lemma_one_space(s: Seq<char>, pos: int)
    requires
        0 <= pos < s.len(),
        s[pos] == ' ',
        pos + 1 < s.len() ==> !is_blank(s[pos + 1]),
    ensures
        skip_blanks(s, pos) == pos + 1,
        blanks(s, pos) == (Parsed::Done { end: pos + 1, value: () }),
{
    assert(skip_blanks(s, pos) == skip_blanks(s, pos + 1));
    assert(skip_blanks(s, pos + 1) == pos + 1);
}

/// A keyword does not stand where the text has another character than the
/// keyword at some place.
pub proof fn lemma_keyword_differs(s: Seq<char>, pos: int, word: Seq<char>, i: int)
    requires
        0 <= i < word.len(),
        0 <= pos,
        pos + i < s.len() ==> s[pos + i] != word[i],
    ensures
        keyword(s, pos, word) == (Parsed::<()>::Unmatched { at: pos }),
{
    if has_at(s, pos, word) {
        lemma_has_at_index(s, pos, word, i);
    }
}

/// An array that holds blanks only is read as the array of no elements.
pub proof fn lemma_empty_array(s: Seq<char>, pos: int)
    requires
        0 <= pos < s.len(),
        s[pos] == '[',
        0 <= skip_blanks(s, pos + 1) < s.len(),
        s[skip_blanks(s, pos + 1)] == ']',
    ensures
        string_array(s, pos) == (Parsed::Done {
            end: skip_blanks(s, pos + 1) + 1,
            value: Seq::<Seq<char>>::empty(),
        }),
{
    let close = skip_blanks(s, pos + 1);
    assert(string_literal(s, close) is Unmatched);
    assert(skip_blanks(s, close) == close);
}

/// Computes `skip_blanks`.
pub fn skip_blanks_at(s: &[char], from: usize) -> (end: usize)
    requires
        from <= s@.len(),
    ensures
        end == skip_blanks(s@, from as int),
        from <= end <= s@.len(),
{
    let mut i: usize = from;
    while i < s.len() && (s[i] == ' ' || s[i] == '\t' || s[i] == '\n' || s[i] == '\r')
        invariant
            from <= i <= s@.len(),
            skip_blanks(s@, from as int) == skip_blanks(s@, i as int),
        decreases s@.len() - i,
    {
        i += 1;
    }
    i
}

/// Reads at least one blank at `pos`.
pub fn blanks_at(s: &[char], pos: usize) -> (r: Step<()>)
    requires
        pos <= s@.len(),
    ensures
        step_view(r) == blanks(s@, pos as int),
        within(step_view(r), pos as int, s@.len() as int),
{
    let end = skip_blanks_at(s, pos);
    if end > pos {
        Ok((end, ()))
    } else {
        Err(Stop::Unmatched(pos))
    }
}

/// Reads the character `c` at `pos`.
pub fn symbol_at(s: &[char], pos: usize, c: char) -> (r: Step<()>)
    requires
        pos <= s@.len(),
    ensures
        step_view(r) == symbol(s@, pos as int, c),
        within(step_view(r), pos as int, s@.len() as int),
{
    if pos >= s.len() {
        Err(Stop::Incomplete)
    } else if s[pos] == c {
        Ok((pos + 1, ()))
    } else {
        Err(Stop::Unmatched(pos))
    }
}

/// Reads the text `word` at `pos`.
pub fn keyword_at(s: &[char], pos: usize, word: &str) -> (r: Step<()>)
    requires
        pos <= s@.len(),
    ensures
        step_view(r) == keyword(s@, pos as int, word@),
        within(step_view(r), pos as int, s@.len() as int),
{
    if stands_at(s, pos, word) {
        let n = word.unicode_len();
        assert(pos + n <= s@.len() == s.len());
        Ok((pos + n, ()))
    } else {
        Err(Stop::Unmatched(pos))
    }
}

/// Reads a string literal at `pos`.
pub fn string_literal_at(s: &[char], pos: usize) -> (r: Step<String>)
    requires
        pos <= s@.len(),
    ensures
        step_view(r) == string_literal(s@, pos as int),
        within(step_view(r), pos as int, s@.len() as int),
{
    if pos >= s.len() {
        return Err(Stop::Incomplete);
    }
    if s[pos] != '"' {
        return Err(Stop::Unmatched(pos));
    }
    let mut value = String::new();
    let mut i: usize = pos + 1;
    loop
        invariant
            pos < i <= s@.len(),
            string_literal(s@, pos as int) == string_tail(s@, i as int, value@),
        decreases s@.len() - i,
    {
        if i >= s.len() {
            return Err(Stop::Incomplete);
        }
        let c = s[i];
        if c == '"' {
            return Ok((i + 1, value));
        }
        if c == '\\' {
            if i + 1 >= s.len() {
                return Err(Stop::Incomplete);
            }
            let next = s[i + 1];
            if next == '\\' || next == '"' {
                value.push(next);
                i += 2;
            } else {
                value.push('\\');
                i += 1;
            }
        } else {
            value.push(c);
            i += 1;
        }
    }
}

/// Reads an array of string literals at `pos`.
#[verifier::loop_isolation(false)]
pub fn string_array_at(s: &[char], pos: usize) -> (r: Step<Vec<String>>)
    requires
        pos <= s@.len(),
    ensures
        step_view(r) == string_array(s@, pos as int),
        within(step_view(r), pos as int, s@.len() as int),
{
    let open = match symbol_at(s, pos, '[') {
        Ok((end, _)) => end,
        Err(stop) => {
            return Err(stop);
        },
    };
    let start = skip_blanks_at(s, open);
    let mut items: Vec<String> = Vec::new();
    let mut last: usize = start;
    match string_literal_at(s, start) {
        Ok((end, value)) => {
            items.push(value);
            last = end;
            assert(items.deep_view() =~= seq![value@]);
            let mut more = true;
            while more
                invariant
                    start <= last <= s@.len(),
                    more ==> string_list(s@, start as int) == more_strings(
                        s@,
                        last as int,
                        items.deep_view(),
                    ),
                    !more ==> string_list(s@, start as int) == (Parsed::Done {
                        end: last as int,
                        value: items.deep_view(),
                    }),
                decreases
                        s@.len() - last,
                        if more {
                            1int
                        } else {
                            0int
                        },
            {
                let before = skip_blanks_at(s, last);
                match symbol_at(s, before, ',') {
                    Ok((comma, _)) => {
                        let behind = skip_blanks_at(s, comma);
                        match string_literal_at(s, behind) {
                            Ok((end, value)) => {
                                let ghost read = items.deep_view();
                                items.push(value);
                                assert(items.deep_view() =~= read.push(value@));
                                last = end;
                            },
                            Err(Stop::Incomplete) => {
                                return Err(Stop::Incomplete);
                            },
                            Err(Stop::Unmatched(_)) => {
                                more = false;
                            },
                        }
                    },
                    Err(Stop::Incomplete) => {
                        return Err(Stop::Incomplete);
                    },
                    Err(Stop::Unmatched(_)) => {
                        more = false;
                    },
                }
            }
        },
        Err(Stop::Incomplete) => {
            return Err(Stop::Incomplete);
        },
        Err(Stop::Unmatched(_)) => {
            assert(items.deep_view() =~= Seq::<Seq<char>>::empty());
        },
    }
    let close = skip_blanks_at(s, last);
    match symbol_at(s, close, ']') {
        Ok((end, _)) => Ok((end, items)),
        Err(stop) => Err(stop),
    }
}

} // verus!

//! Character-level helpers shared by the protocol decoder and the script parser.
//!
//! Text is modelled as `Seq<char>`. Executable code works on `&[char]` with
//! positions, so that every index is a character index.

use vstd::prelude::*;
use vstd::utf8::{decode_utf8, valid_utf8};

verus! {

/// Whether `c` is white space: whether it has the Unicode property
/// `White_Space`. These are the controls from tab to carriage return, the
/// space, next line, the no-break space, the Ogham space mark, the spaces
/// from en quad to hair space, the line and the paragraph separator, the
/// narrow no-break space, the medium mathematical space and the ideographic space.
pub open spec fn white_space(c: char) -> bool {
    let code = c as u32;
    ||| 0x09 <= code <= 0x0D
    ||| code == 0x20
    ||| code == 0x85
    ||| code == 0xA0
    ||| code == 0x1680
    ||| 0x2000 <= code <= 0x200A
    ||| code == 0x2028
    ||| code == 0x2029
    ||| code == 0x202F
    ||| code == 0x205F
    ||| code == 0x3000
}

/// The upper-case form that the standard library gives to a text (`str::to_uppercase`).
pub uninterp spec fn uppercase(s: Seq<char>) -> Seq<char>;

/// The text that `String::from_utf8_lossy` makes of a byte string.
pub uninterp spec fn lossy_text(bytes: Seq<u8>) -> Seq<char>;

/// `char::is_whitespace` says whether a character has the Unicode property
/// `White_Space`, which `white_space` spells out.
pub assume_specification[ char::is_whitespace ](c: char) -> (b: bool)
    ensures
        b == white_space(c),
;

/// `str::to_uppercase` returns the upper-case equivalent of the text as a new
/// string; the mapping is left abstract, under the name `uppercase`.
pub assume_specification[ str::to_uppercase ](s: &str) -> (r: String)
    ensures
        r@ == uppercase(s@),
;

/// `String::push` appends one character to the end of the string.
pub assume_specification[ String::push ](s: &mut String, c: char)
    ensures
        final(s)@ == old(s)@.push(c),
;

/// `String::from_utf8_lossy` decodes bytes as UTF-8 and replaces what is not
/// valid by U+FFFD. On valid UTF-8 the result is the decoded text; on other
/// input the result is only named.
#[verifier::external_body]
pub(crate) fn lossy_string(bytes: &[u8]) -> (r: String)
    ensures
        r@ == lossy_text(bytes@),
        valid_utf8(bytes@) ==> r@ == decode_utf8(bytes@),
{
    String::from_utf8_lossy(bytes).into_owned()
}

/// The text that a byte string is read as: what it decodes to where it is
/// valid UTF-8, and what `String::from_utf8_lossy` makes of it where it is not.
pub open spec fn text_of(bytes: Seq<u8>) -> Seq<char> {
    if valid_utf8(bytes) {
        decode_utf8(bytes)
    } else {
        lossy_text(bytes)
    }
}

/// The text that `bytes` are read as.
pub fn read_text(bytes: &[u8]) -> (r: String)
    ensures
        r@ == text_of(bytes@),
        valid_utf8(bytes@) ==> r@ == decode_utf8(bytes@),
{
    lossy_string(bytes)
}

/// The characters of `s`, in order.
pub fn chars_of(s: &str) -> (v: Vec<char>)
    ensures
        v@ == s@,
{
    let mut v: Vec<char> = Vec::new();
    for c in it: s.chars()
        invariant
            it.seq() == s@,
            v@ == it.seq().take(it.index() as int),
    {
        v.push(c);
    }
    v
}

/// The string made of the characters `v[from..to]`.
pub fn string_of(v: &[char], from: usize, to: usize) -> (s: String)
    requires
        from <= to <= v@.len(),
    ensures
        s@ == v@.subrange(from as int, to as int),
{
    let mut s = String::new();
    let mut i: usize = from;
    while i < to
        invariant
            from <= i <= to <= v@.len(),
            s@ == v@.subrange(from as int, i as int),
        decreases to - i,
    {
        s.push(v[i]);
        i += 1;
    }
    s
}

/// Whether `t` stands in `s` at position `pos`.
pub open spec fn has_at(s: Seq<char>, pos: int, t: Seq<char>) -> bool {
    &&& 0 <= pos
    &&& pos + t.len() <= s.len()
    &&& s.subrange(pos, pos + t.len()) == t
}

/// Whether `t` occurs somewhere in `s`.
pub open spec fn occurs_in(s: Seq<char>, t: Seq<char>) -> bool {
    exists|i: int| has_at(s, i, t)
}

/// The first position at or after `from` that holds `c`, or `s.len()`.
pub open spec fn first_position(s: Seq<char>, from: int, c: char) -> int
    decreases s.len() - from,
{
    if 0 <= from < s.len() && s[from] != c {
        first_position(s, from + 1, c)
    } else {
        from
    }
}

/// One more than the last position before `to` that holds `c`, or 0.
pub open spec fn last_position_end(s: Seq<char>, to: int, c: char) -> int
    decreases to,
{
    if 0 < to <= s.len() && s[to - 1] != c {
        last_position_end(s, to - 1, c)
    } else {
        to
    }
}

/// The first position at or after `from` that holds no white space.
pub open spec fn skip_white(s: Seq<char>, from: int) -> int
    decreases s.len() - from,
{
    if 0 <= from < s.len() && white_space(s[from]) {
        skip_white(s, from + 1)
    } else {
        from
    }
}

/// The first position at or after `from` that holds white space, or `s.len()`.
pub open spec fn skip_word(s: Seq<char>, from: int) -> int
    decreases s.len() - from,
{
    if 0 <= from < s.len() && !white_space(s[from]) {
        skip_word(s, from + 1)
    } else {
        from
    }
}

/// The end of `s[from..to]` once trailing white space is dropped.
pub open spec fn drop_trailing_white(s: Seq<char>, from: int, to: int) -> int
    decreases to - from,
{
    if from < to <= s.len() && white_space(s[to - 1]) {
        drop_trailing_white(s, from, to - 1)
    } else {
        to
    }
}

/// `s` without leading and trailing white space.
pub open spec fn trimmed(s: Seq<char>) -> Seq<char> {
    let from = skip_white(s, 0);
    s.subrange(from, drop_trailing_white(s, from, s.len() as int))
}

/// The maximal runs of characters of `s[from..]` that are not white space, in order.
pub open spec fn words_from(s: Seq<char>, from: int) -> Seq<Seq<char>>
    decreases s.len() - from,
{
    let start = skip_white(s, from);
    let end = skip_word(s, start);
    if 0 <= from <= start < end <= s.len() {
        seq![s.subrange(start, end)] + words_from(s, end)
    } else {
        seq![]
    }
}

/// The words of `s`: what `split_whitespace` yields.
pub open spec fn words(s: Seq<char>) -> Seq<Seq<char>> {
    words_from(s, 0)
}

/// White space is skipped forward, up to a character that is none.
pub proof fn lemma_skip_white_bounds(s: Seq<char>, from: int)
    requires
        0 <= from <= s.len(),
    ensures
        from <= skip_white(s, from) <= s.len(),
        skip_white(s, from) < s.len() ==> !white_space(s[skip_white(s, from)]),
        forall|i: int| from <= i < skip_white(s, from) ==> white_space(s[i]),
    decreases s.len() - from,
{
    if from < s.len() && white_space(s[from]) {
        lemma_skip_white_bounds(s, from + 1);
    }
}

/// A word is skipped forward, up to white space or the end of the text.
pub proof fn lemma_skip_word_bounds(s: Seq<char>, from: int)
    requires
        0 <= from <= s.len(),
    ensures
        from <= skip_word(s, from) <= s.len(),
        skip_word(s, from) < s.len() ==> white_space(s[skip_word(s, from)]),
        forall|i: int| from <= i < skip_word(s, from) ==> !white_space(s[i]),
    decreases s.len() - from,
{
    if from < s.len() && !white_space(s[from]) {
        lemma_skip_word_bounds(s, from + 1);
    }
}

/// Trailing white space is dropped backward, down to a character that is none.
pub proof fn lemma_drop_trailing_white_bounds(s: Seq<char>, from: int, to: int)
    requires
        0 <= from <= to <= s.len(),
    ensures
        from <= drop_trailing_white(s, from, to) <= to,
        from < drop_trailing_white(s, from, to) ==> !white_space(
            s[drop_trailing_white(s, from, to) - 1],
        ),
        forall|i: int| drop_trailing_white(s, from, to) <= i < to ==> white_space(s[i]),
    decreases to - from,
{
    if from < to && white_space(s[to - 1]) {
        lemma_drop_trailing_white_bounds(s, from, to - 1);
    }
}

/// The first position of a character holds it, and no position before does.
pub proof fn lemma_first_position_bounds(s: Seq<char>, from: int, c: char)
    requires
        0 <= from <= s.len(),
    ensures
        from <= first_position(s, from, c) <= s.len(),
        first_position(s, from, c) < s.len() ==> s[first_position(s, from, c)] == c,
        forall|i: int| from <= i < first_position(s, from, c) ==> s[i] != c,
    decreases s.len() - from,
{
    if from < s.len() && s[from] != c {
        lemma_first_position_bounds(s, from + 1, c);
    }
}

/// The first position of a character is where it stands with none before it.
pub proof fn lemma_first_position_is(s: Seq<char>, from: int, at: int, c: char)
    requires
        0 <= from <= at < s.len(),
        s[at] == c,
        forall|i: int| from <= i < at ==> s[i] != c,
    ensures
        first_position(s, from, c) == at,
    decreases at - from,
{
    if from < at {
        lemma_first_position_is(s, from + 1, at, c);
    }
}

/// The last position of a character holds it, and no position behind does.
pub proof fn lemma_last_position_bounds(s: Seq<char>, to: int, c: char)
    requires
        0 <= to <= s.len(),
    ensures
        0 <= last_position_end(s, to, c) <= to,
        0 < last_position_end(s, to, c) ==> s[last_position_end(s, to, c) - 1] == c,
        forall|i: int| last_position_end(s, to, c) <= i < to ==> s[i] != c,
    decreases to,
{
    if 0 < to && s[to - 1] != c {
        lemma_last_position_bounds(s, to - 1, c);
    }
}

/// The last position of a character is where it stands with none behind it.
pub proof fn lemma_last_position_is(s: Seq<char>, at: int, to: int, c: char)
    requires
        0 <= at < to <= s.len(),
        s[at] == c,
        forall|i: int| at < i < to ==> s[i] != c,
    ensures
        last_position_end(s, to, c) == at + 1,
    decreases to - at,
{
    if at + 1 < to {
        lemma_last_position_is(s, at, to - 1, c);
    }
}

/// White space before a character that is none is skipped up to it.
pub proof fn lemma_skip_white_is(s: Seq<char>, from: int, at: int)
    requires
        0 <= from <= at <= s.len(),
        forall|i: int| from <= i < at ==> white_space(s[i]),
        at < s.len() ==> !white_space(s[at]),
    ensures
        skip_white(s, from) == at,
    decreases at - from,
{
    if from < at {
        lemma_skip_white_is(s, from + 1, at);
    }
}

/// White space behind a character that is none is dropped down to it.
pub proof fn lemma_drop_trailing_white_is(s: Seq<char>, from: int, at: int, to: int)
    requires
        0 <= from <= at <= to <= s.len(),
        forall|i: int| at <= i < to ==> white_space(s[i]),
        from < at ==> !white_space(s[at - 1]),
    ensures
        drop_trailing_white(s, from, to) == at,
    decreases to - at,
{
    if at < to {
        lemma_drop_trailing_white_is(s, from, at, to - 1);
    }
}

/// A text with white space around it is trimmed to the text: where `core`
/// neither begins nor ends with white space and `before` and `behind` hold
/// nothing else, what is left of the three in a row is `core`.
pub proof fn lemma_trimmed_is(before: Seq<char>, core: Seq<char>, behind: Seq<char>)
    requires
        forall|i: int| 0 <= i < before.len() ==> white_space(before[i]),
        forall|i: int| 0 <= i < behind.len() ==> white_space(behind[i]),
        core.len() > 0 ==> !white_space(core[0]) && !white_space(core.last()),
    ensures
        trimmed(before + core + behind) == core,
{
    let s = before + core + behind;
    let a = before.len() as int;
    let b = a + core.len();
    assert forall|i: int| 0 <= i < a implies white_space(s[i]) by {
        assert(s[i] == before[i]);
    }
    assert forall|i: int| b <= i < s.len() implies white_space(s[i]) by {
        assert(s[i] == behind[i - b]);
    }
    if core.len() > 0 {
        assert(s[a] == core[0]);
        assert(s[b - 1] == core.last());
        lemma_skip_white_is(s, 0, a);
        lemma_drop_trailing_white_is(s, a, b, s.len() as int);
        assert(s.subrange(a, b) =~= core);
    } else {
        lemma_skip_white_is(s, 0, s.len() as int);
        assert(drop_trailing_white(s, s.len() as int, s.len() as int) == s.len());
        assert(s.subrange(s.len() as int, s.len() as int) =~= core);
    }
}

/// What is left of a text without the white space around it neither begins
/// nor ends with white space, and what was dropped is white space only.
pub proof fn lemma_trimmed(s: Seq<char>)
    ensures
        trimmed(s).len() > 0 ==> !white_space(trimmed(s)[0]) && !white_space(trimmed(s).last()),
        exists|from: int, to: int|
            {
                &&& 0 <= from <= to <= s.len()
                &&& trimmed(s) == #[trigger] s.subrange(from, to)
                &&& forall|i: int| 0 <= i < from ==> white_space(s[i])
                &&& forall|i: int| to <= i < s.len() ==> white_space(s[i])
            },
{
    let from = skip_white(s, 0);
    lemma_skip_white_bounds(s, 0);
    let to = drop_trailing_white(s, from, s.len() as int);
    lemma_drop_trailing_white_bounds(s, from, s.len() as int);
    if from < to {
        assert(trimmed(s)[0] == s[from]);
        assert(trimmed(s).last() == s[to - 1]);
    }
    assert(trimmed(s) == s.subrange(from, to));
}

/// Every word of a text holds at least one character and no white space.
pub proof fn lemma_words_hold_no_white_space(s: Seq<char>, from: int)
    requires
        0 <= from <= s.len(),
    ensures
        forall|k: int|
            0 <= k < words_from(s, from).len() ==> (#[trigger] words_from(s, from)[k]).len() > 0,
        forall|k: int, i: int|
            0 <= k < words_from(s, from).len() && 0 <= i < words_from(s, from)[k].len()
                ==> !white_space(#[trigger] words_from(s, from)[k][i]),
    decreases s.len() - from,
{
    let start = skip_white(s, from);
    lemma_skip_white_bounds(s, from);
    let end = skip_word(s, start);
    lemma_skip_word_bounds(s, start);
    if start < end {
        lemma_words_hold_no_white_space(s, end);
        let first = s.subrange(start, end);
        let rest = words_from(s, end);
        let all = words_from(s, from);
        assert(all == seq![first] + rest);
        assert forall|k: int| 0 <= k < all.len() implies (#[trigger] all[k]).len() > 0 by {
            if k > 0 {
                assert(all[k] == rest[k - 1]);
            }
        }
        assert forall|k: int, i: int| 0 <= k < all.len() && 0 <= i < all[k].len() implies !white_space(
            #[trigger] all[k][i],
        ) by {
            if k > 0 {
                assert(all[k] == rest[k - 1]);
            } else {
                assert(all[0][i] == s[start + i]);
            }
        }
    }
}

/// Where a text stands, each of its characters stands.
pub proof fn lemma_has_at_index(s: Seq<char>, pos: int, t: Seq<char>, i: int)
    requires
        has_at(s, pos, t),
        0 <= i < t.len(),
    ensures
        0 <= pos + i < s.len(),
        s[pos + i] == t[i],
{
    assert(s.subrange(pos, pos + t.len())[i] == t[i]);
}

/// Where two texts stand one behind the other, each of them stands.
pub proof fn lemma_has_at_parts(s: Seq<char>, pos: int, a: Seq<char>, b: Seq<char>)
    requires
        has_at(s, pos, a + b),
    ensures
        has_at(s, pos, a),
        has_at(s, pos + a.len(), b),
{
    let whole = a + b;
    assert forall|i: int| 0 <= i < a.len() implies s[pos + i] == a[i] by {
        lemma_has_at_index(s, pos, whole, i);
    }
    assert(s.subrange(pos, pos + a.len()) =~= a);
    assert forall|i: int| 0 <= i < b.len() implies s[pos + a.len() + i] == b[i] by {
        lemma_has_at_index(s, pos, whole, a.len() + i);
    }
    assert(s.subrange(pos + a.len(), pos + a.len() + b.len()) =~= b);
}

/// Two texts that stand one behind the other stand as one.
pub proof fn lemma_has_at_joined(s: Seq<char>, pos: int, a: Seq<char>, b: Seq<char>)
    requires
        has_at(s, pos, a),
        has_at(s, pos + a.len(), b),
    ensures
        has_at(s, pos, a + b),
{
    assert forall|i: int| 0 <= i < (a + b).len() implies s[pos + i] == (a + b)[i] by {
        if i < a.len() {
            lemma_has_at_index(s, pos, a, i);
        } else {
            lemma_has_at_index(s, pos + a.len(), b, i - a.len());
        }
    }
    assert(s.subrange(pos, pos + (a + b).len()) =~= a + b);
}

/// Computes `skip_white`.
pub fn skip_white_at(s: &[char], from: usize) -> (end: usize)
    requires
        from <= s@.len(),
    ensures
        end == skip_white(s@, from as int),
        from <= end <= s@.len(),
{
    let mut i: usize = from;
    while i < s.len() && s[i].is_whitespace()
        invariant
            from <= i <= s@.len(),
            skip_white(s@, from as int) == skip_white(s@, i as int),
        decreases s@.len() - i,
    {
        i += 1;
    }
    i
}

/// Computes `skip_word`.
pub fn skip_word_at(s: &[char], from: usize) -> (end: usize)
    requires
        from <= s@.len(),
    ensures
        end == skip_word(s@, from as int),
        from <= end <= s@.len(),
{
    let mut i: usize = from;
    while i < s.len() && !s[i].is_whitespace()
        invariant
            from <= i <= s@.len(),
            skip_word(s@, from as int) == skip_word(s@, i as int),
        decreases s@.len() - i,
    {
        i += 1;
    }
    i
}

/// Computes `drop_trailing_white`.
pub fn drop_trailing_white_at(s: &[char], from: usize, to: usize) -> (end: usize)
    requires
        from <= to <= s@.len(),
    ensures
        end == drop_trailing_white(s@, from as int, to as int),
        from <= end <= to,
{
    let mut i: usize = to;
    while from < i && s[i - 1].is_whitespace()
        invariant
            from <= i <= to <= s@.len(),
            drop_trailing_white(s@, from as int, to as int) == drop_trailing_white(
                s@,
                from as int,
                i as int,
            ),
        decreases i - from,
    {
        i -= 1;
    }
    i
}

/// The characters of `line` without leading and trailing white space.
pub fn trimmed_chars(line: &str) -> (v: Vec<char>)
    ensures
        v@ == trimmed(line@),
{
    let all = chars_of(line);
    let from = skip_white_at(all.as_slice(), 0);
    let to = drop_trailing_white_at(all.as_slice(), from, all.len());
    let mut v: Vec<char> = Vec::new();
    let mut i: usize = from;
    while i < to
        invariant
            from <= i <= to <= all@.len(),
            v@ == all@.subrange(from as int, i as int),
        decreases to - i,
    {
        v.push(all[i]);
        i += 1;
    }
    v
}

/// `line` without leading and trailing white space, as `str::trim` gives it.
pub fn trim(line: &str) -> (r: String)
    ensures
        r@ == trimmed(line@),
{
    let all = chars_of(line);
    let from = skip_white_at(all.as_slice(), 0);
    let to = drop_trailing_white_at(all.as_slice(), from, all.len());
    string_of(all.as_slice(), from, to)
}

/// The words of `text`, split at white space, as `str::split_whitespace` gives them.
pub fn split_words(text: &str) -> (r: Vec<String>)
    ensures
        r.deep_view() == words(text@),
{
    let s = chars_of(text);
    let mut out: Vec<String> = Vec::new();
    let mut pos: usize = 0;
    loop
        invariant
            pos <= s@.len(),
            s@ == text@,
            words(text@) == out.deep_view() + words_from(s@, pos as int),
        ensures
            out.deep_view() == words(text@),
        decreases s@.len() - pos,
    {
        let start = skip_white_at(s.as_slice(), pos);
        let end = skip_word_at(s.as_slice(), start);
        if start >= end {
            assert(words_from(s@, pos as int) == Seq::<Seq<char>>::empty());
            break ;
        }
        let word = string_of(s.as_slice(), start, end);
        proof {
            assert(words_from(s@, pos as int) == seq![s@.subrange(start as int, end as int)]
                + words_from(s@, end as int));
        }
        let ghost before = out.deep_view();
        out.push(word);
        assert(out.deep_view() == before.push(word@));
        pos = end;
    }
    out
}

/// Whether `t` stands in `s` at position `pos`.
pub fn stands_at(s: &[char], pos: usize, t: &str) -> (b: bool)
    requires
        pos <= s@.len(),
    ensures
        b == has_at(s@, pos as int, t@),
{
    let n = t.unicode_len();
    if n > s.len() - pos {
        return false;
    }
    let mut i: usize = 0;
    while i < n
        invariant
            i <= n,
            n == t@.len(),
            pos + n <= s@.len() <= usize::MAX,
            forall|j: int| 0 <= j < i ==> s@[pos + j] == t@[j],
        decreases n - i,
    {
        if s[pos + i] != t.get_char(i) {
            assert(s@.subrange(pos as int, pos + n)[i as int] != t@[i as int]);
            return false;
        }
        i += 1;
    }
    assert(s@.subrange(pos as int, pos + n) =~= t@);
    true
}

/// Whether `s` is the text `t`.
pub fn is_text(s: &[char], t: &str) -> (b: bool)
    ensures
        b == (s@ == t@),
{
    let n = t.unicode_len();
    if s.len() != n {
        return false;
    }
    let b = stands_at(s, 0, t);
    assert(s@.subrange(0, n as int) =~= s@);
    b
}

/// Whether two texts hold the same characters.
pub fn same_text(a: &str, b: &str) -> (r: bool)
    ensures
        r == (a@ == b@),
{
    let x = chars_of(a);
    let y = chars_of(b);
    if x.len() != y.len() {
        assert(a@.len() != b@.len());
        return false;
    }
    let mut i: usize = 0;
    while i < x.len()
        invariant
            i <= x@.len(),
            x@ == a@,
            y@ == b@,
            x@.len() == y@.len(),
            forall|j: int| 0 <= j < i ==> x@[j] == y@[j],
        decreases x@.len() - i,
    {
        if x[i] != y[i] {
            assert(a@[i as int] != b@[i as int]);
            return false;
        }
        i += 1;
    }
    assert(x@ =~= y@);
    true
}

/// Whether `s` begins with `t`.
pub fn begins_with(s: &[char], t: &str) -> (b: bool)
    ensures
        b == has_at(s@, 0, t@),
{
    stands_at(s, 0, t)
}

/// Whether `t` occurs somewhere in `s`.
pub fn contains_text(s: &[char], t: &str) -> (b: bool)
    ensures
        b == occurs_in(s@, t@),
{
    let mut i: usize = 0;
    while i < s.len()
        invariant
            i <= s@.len(),
            forall|j: int| 0 <= j < i ==> !has_at(s@, j, t@),
        decreases s@.len() - i,
    {
        if stands_at(s, i, t) {
            return true;
        }
        i += 1;
    }
    stands_at(s, i, t)
}

/// Computes `first_position`.
pub fn first_position_at(s: &[char], from: usize, c: char) -> (end: usize)
    requires
        from <= s@.len(),
    ensures
        end == first_position(s@, from as int, c),
        from <= end <= s@.len(),
{
    let mut i: usize = from;
    while i < s.len() && s[i] != c
        invariant
            from <= i <= s@.len(),
            first_position(s@, from as int, c) == first_position(s@, i as int, c),
        decreases s@.len() - i,
    {
        i += 1;
    }
    i
}

/// Computes `last_position_end`.
pub fn last_position_end_at(s: &[char], to: usize, c: char) -> (end: usize)
    requires
        to <= s@.len(),
    ensures
        end == last_position_end(s@, to as int, c),
        end <= to,
{
    let mut i: usize = to;
    while 0 < i && s[i - 1] != c
        invariant
            i <= to <= s@.len(),
            last_position_end(s@, to as int, c) == last_position_end(s@, i as int, c),
        decreases i,
    {
        i -= 1;
    }
    i
}

} // verus!

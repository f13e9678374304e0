//! What a parser hands back: where it stopped and what it read, or why it gave up.

use vstd::prelude::*;

verus! {

/// The mathematical result of running a parser on a text from a given position.
#[verifier::reject_recursive_types(T)]
pub ghost enum Parsed<T> {
    /// The parser read `value` and stopped before position `end`.
    Done { end: int, value: T },
    /// No production matched; the text from position `at` on is what was left unread.
    Unmatched { at: int },
    /// The text ended where one more character was needed.
    Incomplete,
}

/// Why a parser that works on positions gave up.
#[derive(Debug, PartialEq, Eq, Clone, Copy)]
pub enum Stop {
    /// The text ended where one more character was needed.
    Incomplete,
    /// No production matched at this position.
    Unmatched(usize),
}

/// A parser's result over positions: the end position and the value read.
pub type Step<T> = Result<(usize, T), Stop>;

/// Why parsing failed, with the unread remainder of the input.
#[derive(Debug, PartialEq, Eq, Clone, Copy)]
pub enum ParseError<'a> {
    /// The input ended where one more character was needed.
    Incomplete,
    /// No production matched; the unread remainder is attached.
    Unmatched(&'a str),
}

/// The mathematical result that a positional result stands for.
pub open spec fn step_view<T: DeepView>(r: Step<T>) -> Parsed<T::V> {
    match r {
        Ok((end, value)) => Parsed::Done { end: end as int, value: value.deep_view() },
        Err(Stop::Incomplete) => Parsed::Incomplete,
        Err(Stop::Unmatched(at)) => Parsed::Unmatched { at: at as int },
    }
}

/// The failure of `p` as the failure of a parser of another type.
pub open spec fn failure<T, U>(p: Parsed<T>) -> Parsed<U>
    recommends
        !(p is Done),
{
    match p {
        Parsed::Unmatched { at } => Parsed::Unmatched { at },
        _ => Parsed::Incomplete,
    }
}

/// The first of two alternatives, or the second where the first did not
/// match. A text that ends too early ends the choice: the second is then
/// not tried.
pub open spec fn otherwise<T>(first: Parsed<T>, second: Parsed<T>) -> Parsed<T> {
    if first is Unmatched {
        second
    } else {
        first
    }
}

/// `p`, where only a result that ends behind `pos` and within a text of length
/// `len` counts as a match: what is repeated has to consume something.
pub open spec fn advancing<T>(p: Parsed<T>, pos: int, len: nat) -> Parsed<T> {
    match p {
        Parsed::Done { end, .. } => if pos < end <= len {
            p
        } else {
            Parsed::Unmatched { at: pos }
        },
        _ => p,
    }
}

/// `p` with `value` in place of what it read.
pub open spec fn giving<T, U>(p: Parsed<T>, value: U) -> Parsed<U> {
    match p {
        Parsed::Done { end, .. } => Parsed::Done { end, value },
        Parsed::Unmatched { at } => Parsed::Unmatched { at },
        Parsed::Incomplete => Parsed::Incomplete,
    }
}

/// Whether every position that `p` mentions lies in `lo..=hi`.
pub open spec fn within<T>(p: Parsed<T>, lo: int, hi: int) -> bool {
    match p {
        Parsed::Done { end, .. } => lo <= end <= hi,
        Parsed::Unmatched { at } => lo <= at <= hi,
        Parsed::Incomplete => true,
    }
}

/// Whether the public result `r` on `input` says what `p` says: the same
/// value, and as remainder the input from the position that `p` names.
pub open spec fn agrees<'a, T: DeepView>(
    r: Result<(&'a str, T), ParseError<'a>>,
    input: Seq<char>,
    p: Parsed<T::V>,
) -> bool {
    match r {
        Ok((rest, value)) => p == (Parsed::Done {
            end: input.len() - rest@.len(),
            value: value.deep_view(),
        }) && rest@ == input.skip(input.len() - rest@.len()),
        Err(ParseError::Incomplete) => p == Parsed::<T::V>::Incomplete,
        Err(ParseError::Unmatched(rest)) => p == (Parsed::<T::V>::Unmatched {
            at: input.len() - rest@.len(),
        }) && rest@ == input.skip(input.len() - rest@.len()),
    }
}

/// Turns positions into remainders of `input`.
pub fn finish<'a, T: DeepView>(input: &'a str, r: Step<T>) -> (out: Result<
    (&'a str, T),
    ParseError<'a>,
>)
    requires
        within(step_view(r), 0, input@.len() as int),
    ensures
        agrees(out, input@, step_view(r)),
        r matches Ok((_, value)) ==> (out matches Ok((_, same)) && same == value),
{
    let n = input.unicode_len();
    match r {
        Ok((end, value)) => {
            let rest = input.substring_char(end, n);
            Ok((rest, value))
        },
        Err(Stop::Incomplete) => Err(ParseError::Incomplete),
        Err(Stop::Unmatched(at)) => {
            let rest = input.substring_char(at, n);
            Err(ParseError::Unmatched(rest))
        },
    }
}

} // verus!

//! The parser of the script language.
//!
//! The grammar is stated over sequences of characters and positions
//! (`lexical`, `condition`, `expression`); the functions of this module read
//! from the start of a text and hand back what they read with the unread
//! remainder. `ast` holds the tree that a script is read into, and `writer`
//! the canonical text of a tree with the law that it is read back as it was.

pub mod ast;
pub mod condition;
pub mod expression;
pub mod lexical;
pub mod writer;

use vstd::prelude::*;
use crate::parser::ast::{
    well_formed_body, well_formed_condition, well_formed_expression, well_formed_flags,
    Condition, Expression, ExpressionView, Flag, If, StringComparisonType, StringCondition,
};
use crate::parser::condition::{
    comparison, comparison_at, condition, condition_at, condition_list, condition_list_at,
    lemma_condition_is_well_formed, lemma_condition_list_is_well_formed, string_condition,
    string_condition_at,
};
use crate::parser::expression::{
    clause, clause_at, conditional, conditional_at, expression, expression_at, expression_list,
    expression_list_at, flag_command, flag_command_at, flags, flags_at,
    lemma_clause_is_well_formed, lemma_conditional_is_well_formed,
    lemma_expression_is_well_formed, lemma_expression_list_is_well_formed,
    lemma_expression_sound, lemma_flag_command_is_well_formed, lemma_flags_are_well_formed,
    requirement, requirement_at,
};
use crate::parser::lexical::{
    blanks, skip_blanks, skip_blanks_at, string_array, string_array_at, string_literal,
    string_literal_at,
};
use crate::outcome::{agrees, failure, finish, ParseError, Parsed, Stop};
use crate::text::chars_of;

verus! {

/// The blanks at `pos`, as many as there are.
pub open spec fn blank_run(s: Seq<char>, pos: int) -> Parsed<Seq<char>> {
    Parsed::Done { end: skip_blanks(s, pos), value: s.subrange(pos, skip_blanks(s, pos)) }
}

/// The blanks at `pos`, at least one.
pub open spec fn blank_run1(s: Seq<char>, pos: int) -> Parsed<Seq<char>> {
    match blanks(s, pos) {
        Parsed::Done { end, .. } => Parsed::Done { end, value: s.subrange(pos, end) },
        other => failure(other),
    }
}

/// A whole script: statements up to the end of the text, with blanks as they
/// come behind the last. Where a text that is no statement follows, the
/// script fails as a statement fails there.
pub open spec fn script(s: Seq<char>) -> Parsed<Seq<ExpressionView>> {
    match expression_list(s, 0, Seq::empty()) {
        Parsed::Done { end, value } => if skip_blanks(s, end) >= s.len() {
            Parsed::Done { end: s.len() as int, value }
        } else {
            failure(expression(s, end))
        },
        other => failure(other),
    }
}

/// Reads the blanks at the start of `input`, as many as there are.
pub fn multispace0<'a>(input: &'a str) -> (r: Result<(&'a str, &'a str), ParseError<'a>>)
    ensures
        agrees(r, input@, blank_run(input@, 0)),
{
    let s = chars_of(input);
    let end = skip_blanks_at(s.as_slice(), 0);
    let n = input.unicode_len();
    Ok((input.substring_char(end, n), input.substring_char(0, end)))
}

/// Reads the blanks at the start of `input`, at least one.
pub fn multispace1<'a>(input: &'a str) -> (r: Result<(&'a str, &'a str), ParseError<'a>>)
    ensures
        agrees(r, input@, blank_run1(input@, 0)),
{
    let s = chars_of(input);
    let end = skip_blanks_at(s.as_slice(), 0);
    let n = input.unicode_len();
    if end > 0 {
        Ok((input.substring_char(end, n), input.substring_char(0, end)))
    } else {
        Err(ParseError::Unmatched(input.substring_char(0, n)))
    }
}

/// Reads a string literal from the start of `input`.
pub fn parse_string<'a>(input: &'a str) -> (r: Result<(&'a str, String), ParseError<'a>>)
    ensures
        agrees(r, input@, string_literal(input@, 0)),
{
    let s = chars_of(input);
    finish(input, string_literal_at(s.as_slice(), 0))
}

/// Reads an array of string literals from the start of `input`.
pub fn parse_string_array<'a>(input: &'a str) -> (r: Result<
    (&'a str, Vec<String>),
    ParseError<'a>,
>)
    ensures
        agrees(r, input@, string_array(input@, 0)),
{
    let s = chars_of(input);
    finish(input, string_array_at(s.as_slice(), 0))
}

/// Reads a `require` from the start of `input`.
pub fn parse_require<'a>(input: &'a str) -> (r: Result<(&'a str, Vec<String>), ParseError<'a>>)
    ensures
        agrees(r, input@, requirement(input@, 0)),
{
    let s = chars_of(input);
    finish(input, requirement_at(s.as_slice(), 0))
}

/// Reads the kind of a comparison from the start of `input`.
pub fn parse_string_comparison_type<'a>(input: &'a str) -> (r: Result<
    (&'a str, StringComparisonType),
    ParseError<'a>,
>)
    ensures
        agrees(r, input@, comparison(input@, 0)),
{
    let s = chars_of(input);
    finish(input, comparison_at(s.as_slice(), 0))
}

/// Reads a comparison from the start of `input`.
pub fn parse_string_condition<'a>(input: &'a str) -> (r: Result<
    (&'a str, StringCondition),
    ParseError<'a>,
>)
    ensures
        agrees(r, input@, string_condition(input@, 0)),
{
    let s = chars_of(input);
    finish(input, string_condition_at(s.as_slice(), 0))
}

/// Reads a list of conditions in parentheses from the start of `input`.
pub fn parse_condition_list<'a>(input: &'a str) -> (r: Result<
    (&'a str, Vec<Condition>),
    ParseError<'a>,
>)
    ensures
        agrees(r, input@, condition_list(input@, 0)),
        r matches Ok((_, items)) ==> items@.len() >= 1 && forall|i: int|
            0 <= i < items@.len() ==> well_formed_condition(#[trigger] items.deep_view()[i]),
{
    let s = chars_of(input);
    proof {
        lemma_condition_list_is_well_formed(s@, 0);
    }
    finish(input, condition_list_at(s.as_slice(), 0))
}

/// Reads a condition from the start of `input`.
pub fn parse_condition<'a>(input: &'a str) -> (r: Result<(&'a str, Condition), ParseError<'a>>)
    ensures
        agrees(r, input@, condition(input@, 0)),
        r matches Ok((_, found)) ==> well_formed_condition(found@),
{
    let s = chars_of(input);
    proof {
        lemma_condition_is_well_formed(s@, 0);
    }
    finish(input, condition_at(s.as_slice(), 0))
}

/// Reads a clause under the keyword `if_type` (`if` or `elsif`) from the
/// start of `input`.
pub fn simple_if<'a>(if_type: &str, input: &'a str) -> (r: Result<
    (&'a str, (Condition, Vec<Expression>)),
    ParseError<'a>,
>)
    ensures
        agrees(r, input@, clause(input@, 0, if_type@)),
        r matches Ok((_, found)) ==> well_formed_condition(found.0@) && well_formed_body(
            found.1.deep_view(),
        ),
{
    let s = chars_of(input);
    proof {
        lemma_clause_is_well_formed(s@, 0, if_type@);
    }
    finish(input, clause_at(s.as_slice(), 0, if_type))
}

/// Reads an `if` with its clauses from the start of `input`.
pub fn parse_if<'a>(input: &'a str) -> (r: Result<(&'a str, If), ParseError<'a>>)
    ensures
        agrees(r, input@, conditional(input@, 0)),
        r matches Ok((_, found)) ==> well_formed_expression(ExpressionView::If(found@)),
{
    let s = chars_of(input);
    proof {
        lemma_conditional_is_well_formed(s@, 0);
    }
    finish(input, conditional_at(s.as_slice(), 0))
}

/// Reads flags from the start of `input`.
pub fn parse_flags<'a>(input: &'a str) -> (r: Result<(&'a str, Vec<Flag>), ParseError<'a>>)
    ensures
        agrees(r, input@, flags(input@, 0)),
        r matches Ok((_, found)) ==> well_formed_flags(found.deep_view()),
{
    let s = chars_of(input);
    proof {
        lemma_flags_are_well_formed(s@, 0);
    }
    finish(input, flags_at(s.as_slice(), 0))
}

/// Reads a command on flags under the keyword `command` from the start of `input`.
pub fn flag_command_on<'a>(command: &str, input: &'a str) -> (r: Result<
    (&'a str, Vec<Flag>),
    ParseError<'a>,
>)
    ensures
        agrees(r, input@, flag_command(input@, 0, command@)),
        r matches Ok((_, found)) ==> well_formed_flags(found.deep_view()),
{
    let s = chars_of(input);
    proof {
        lemma_flag_command_is_well_formed(s@, 0, command@);
    }
    finish(input, flag_command_at(s.as_slice(), 0, command))
}

/// Reads a statement from the start of `input`.
pub fn parse_expression<'a>(input: &'a str) -> (r: Result<(&'a str, Expression), ParseError<'a>>)
    ensures
        agrees(r, input@, expression(input@, 0)),
        r matches Ok((_, found)) ==> well_formed_expression(found@),
{
    let s = chars_of(input);
    proof {
        lemma_expression_is_well_formed(s@, 0);
    }
    finish(input, expression_at(s.as_slice(), 0))
}

/// Reads statements from the start of `input`, as many as match.
pub fn parse_expression_list<'a>(input: &'a str) -> (r: Result<
    (&'a str, Vec<Expression>),
    ParseError<'a>,
>)
    ensures
        agrees(r, input@, expression_list(input@, 0, Seq::empty())),
        r matches Ok((_, found)) ==> well_formed_body(found.deep_view()),
{
    let s = chars_of(input);
    proof {
        lemma_expression_list_is_well_formed(s@, 0, Seq::empty());
    }
    finish(input, expression_list_at(s.as_slice(), 0))
}

/// Reads a whole script: every statement of `input`, or the failure at the
/// first text that is no statement.
pub fn parse_script<'a>(input: &'a str) -> (r: Result<Vec<Expression>, ParseError<'a>>)
    ensures
        match r {
            Ok(statements) => script(input@) == (Parsed::Done {
                end: input@.len() as int,
                value: statements.deep_view(),
            }) && well_formed_body(statements.deep_view()),
            Err(ParseError::Incomplete) => script(input@) == Parsed::<
                Seq<ExpressionView>,
            >::Incomplete,
            Err(ParseError::Unmatched(rest)) => script(input@) == (Parsed::<
                Seq<ExpressionView>,
            >::Unmatched { at: input@.len() - rest@.len() }) && rest@ == input@.skip(
                input@.len() - rest@.len(),
            ),
        },
{
    let s = chars_of(input);
    let n = input.unicode_len();
    proof {
        lemma_expression_list_is_well_formed(s@, 0, Seq::empty());
    }
    match expression_list_at(s.as_slice(), 0) {
        Ok((end, statements)) => {
            if skip_blanks_at(s.as_slice(), end) >= s.len() {
                Ok(statements)
            } else {
                proof {
                    lemma_expression_sound(s@, end as int);
                }
                match expression_at(s.as_slice(), end) {
                    Err(Stop::Unmatched(at)) => Err(
                        ParseError::Unmatched(input.substring_char(at, n)),
                    ),
                    _ => Err(ParseError::Incomplete),
                }
            }
        },
        Err(Stop::Unmatched(at)) => Err(ParseError::Unmatched(input.substring_char(at, n))),
        Err(Stop::Incomplete) => Err(ParseError::Incomplete),
    }
}

} // verus!

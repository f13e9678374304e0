//! The conditions of a script: tests on a header or an address, and lists of
//! conditions under `allof` and `anyof`, nested to any depth.

use vstd::prelude::*;
use crate::parser::ast::{
    lemma_all_of_view, well_formed_condition, Condition, ConditionView, StringComparisonType,
    StringCondition, StringConditionView,
};
use crate::parser::lexical::{
    blanks, blanks_at, keyword, keyword_at, lemma_keyword_differs, lemma_skip_blanks,
    lemma_string_literal_bounds, skip_blanks, skip_blanks_at, string_literal,
    string_literal_at, symbol, symbol_at,
};
use crate::outcome::{
    advancing, failure, giving, otherwise, step_view, within, Parsed, Step, Stop,
};

verus! {

/// The kind of a comparison at `pos`: `:is`, `:contains`, `:matches` or `:regex`.
pub open spec fn comparison(s: Seq<char>, pos: int) -> Parsed<StringComparisonType> {
    otherwise(
        giving(keyword(s, pos, ":is"@), StringComparisonType::Is),
        otherwise(
            giving(keyword(s, pos, ":contains"@), StringComparisonType::Contains),
            otherwise(
                giving(keyword(s, pos, ":matches"@), StringComparisonType::Matches),
                giving(keyword(s, pos, ":regex"@), StringComparisonType::Regex),
            ),
        ),
    )
}

/// A comparison at `pos`: its kind, then the source and the value as string
/// literals, each behind at least one blank.
pub open spec fn string_condition(s: Seq<char>, pos: int) -> Parsed<StringConditionView> {
    match comparison(s, pos) {
        Parsed::Done { end: kind_end, value: comparison_type } => match blanks(s, kind_end) {
            Parsed::Done { end: source_start, .. } => match string_literal(s, source_start) {
                Parsed::Done { end: source_end, value: source } => match blanks(s, source_end) {
                    Parsed::Done { end: value_start, .. } => match string_literal(
                        s,
                        value_start,
                    ) {
                        Parsed::Done { end, value } => Parsed::Done {
                            end,
                            value: StringConditionView { comparison_type, source, value },
                        },
                        other => failure(other),
                    },
                    other => failure(other),
                },
                other => failure(other),
            },
            other => failure(other),
        },
        other => failure(other),
    }
}

/// A test at `pos`: the keyword `word`, at least one blank, a comparison.
pub open spec fn field_test(s: Seq<char>, pos: int, word: Seq<char>) -> Parsed<StringConditionView> {
    match keyword(s, pos, word) {
        Parsed::Done { end: word_end, .. } => match blanks(s, word_end) {
            Parsed::Done { end: start, .. } => string_condition(s, start),
            other => failure(other),
        },
        other => failure(other),
    }
}

/// A test on a header at `pos`.
pub open spec fn header_test(s: Seq<char>, pos: int) -> Parsed<ConditionView> {
    match field_test(s, pos, "header"@) {
        Parsed::Done { end, value } => Parsed::Done { end, value: ConditionView::Header(value) },
        other => failure(other),
    }
}

/// A test on an address at `pos`.
pub open spec fn address_test(s: Seq<char>, pos: int) -> Parsed<ConditionView> {
    match field_test(s, pos, "address"@) {
        Parsed::Done { end, value } => Parsed::Done { end, value: ConditionView::Address(value) },
        other => failure(other),
    }
}

/// A condition at `pos`: a test on a header, a test on an address, a list
/// under `allof` or a list under `anyof`, tried in this order.
pub open spec fn condition(s: Seq<char>, pos: int) -> Parsed<ConditionView>
    decreases s.len() - pos, 2int,
{
    otherwise(
        header_test(s, pos),
        otherwise(
            address_test(s, pos),
            otherwise(group(s, pos, "allof"@, true), group(s, pos, "anyof"@, false)),
        ),
    )
}

/// A list of conditions under the keyword `word` at `pos`; `all` says
/// whether all of them have to hold.
pub open spec fn group(s: Seq<char>, pos: int, word: Seq<char>, all: bool) -> Parsed<
    ConditionView,
>
    decreases s.len() - pos, 1int,
{
    match keyword(s, pos, word) {
        Parsed::Done { end: word_end, .. } => {
            proof {
                lemma_skip_blanks(s, word_end);
            }
            match condition_list(s, skip_blanks(s, word_end)) {
                Parsed::Done { end, value } => Parsed::Done {
                    end,
                    value: if all {
                        ConditionView::AllOf(value)
                    } else {
                        ConditionView::AnyOf(value)
                    },
                },
                other => failure(other),
            }
        },
        other => failure(other),
    }
}

/// One or more conditions in parentheses at `pos`, with commas between them
/// and blanks as they come.
pub open spec fn condition_list(s: Seq<char>, pos: int) -> Parsed<Seq<ConditionView>>
    decreases s.len() - pos, 0int,
{
    match symbol(s, pos, '(') {
        Parsed::Done { end: open, .. } => {
            proof {
                lemma_skip_blanks(s, open);
            }
            match advancing(condition(s, skip_blanks(s, open)), pos, s.len()) {
                Parsed::Done { end: first_end, value: first } => match more_conditions(
                    s,
                    first_end,
                    seq![first],
                ) {
                    Parsed::Done { end: last, value } => match symbol(
                        s,
                        skip_blanks(s, last),
                        ')',
                    ) {
                        Parsed::Done { end, .. } => Parsed::Done { end, value },
                        other => failure(other),
                    },
                    other => failure(other),
                },
                other => failure(other),
            }
        },
        other => failure(other),
    }
}

/// The conditions that follow the first of a list, each behind a comma with
/// blanks around it as they come. The list ends before a comma that no
/// condition follows. `acc` holds the conditions read before `pos`.
pub open spec fn more_conditions(s: Seq<char>, pos: int, acc: Seq<ConditionView>) -> Parsed<
    Seq<ConditionView>,
>
    decreases s.len() - pos, 3int,
{
    match symbol(s, skip_blanks(s, pos), ',') {
        Parsed::Done { end: comma, .. } => {
            proof {
                lemma_skip_blanks(s, pos);
                lemma_skip_blanks(s, comma);
            }
            match advancing(condition(s, skip_blanks(s, comma)), pos, s.len()) {
                Parsed::Done { end, value } => more_conditions(s, end, acc.push(value)),
                Parsed::Unmatched { .. } => Parsed::Done { end: pos, value: acc },
                Parsed::Incomplete => Parsed::Incomplete,
            }
        },
        Parsed::Unmatched { .. } => Parsed::Done { end: pos, value: acc },
        Parsed::Incomplete => Parsed::Incomplete,
    }
}

/// Whether `p`, read from `pos` in a text of length `len`, names positions
/// of the text only, none before `pos`, and has consumed something if it matched.
pub open spec fn sound<T>(p: Parsed<T>, pos: int, len: nat) -> bool {
    &&& within(p, pos, len as int)
    &&& p matches Parsed::Done { end, .. } ==> pos < end
}

/// A comparison stays within the text and consumes something.
pub proof fn lemma_string_condition_sound(s: Seq<char>, pos: int)
    requires
        0 <= pos <= s.len(),
    ensures
        sound(string_condition(s, pos), pos, s.len()),
{
    match comparison(s, pos) {
        Parsed::Done { end: kind_end, .. } => {
            lemma_skip_blanks(s, kind_end);
            match blanks(s, kind_end) {
                Parsed::Done { end: source_start, .. } => {
                    lemma_string_literal_bounds(s, source_start);
                    match string_literal(s, source_start) {
                        Parsed::Done { end: source_end, .. } => {
                            lemma_skip_blanks(s, source_end);
                            match blanks(s, source_end) {
                                Parsed::Done { end: value_start, .. } => {
                                    lemma_string_literal_bounds(s, value_start);
                                },
                                _ => {},
                            }
                        },
                        _ => {},
                    }
                },
                _ => {},
            }
        },
        _ => {},
    }
}

/// A test stays within the text and consumes something.
pub proof fn lemma_field_test_sound(s: Seq<char>, pos: int, word: Seq<char>)
    requires
        0 <= pos <= s.len(),
    ensures
        sound(field_test(s, pos, word), pos, s.len()),
{
    match keyword(s, pos, word) {
        Parsed::Done { end: word_end, .. } => {
            lemma_skip_blanks(s, word_end);
            match blanks(s, word_end) {
                Parsed::Done { end: start, .. } => {
                    lemma_string_condition_sound(s, start);
                },
                _ => {},
            }
        },
        _ => {},
    }
}

/// A condition stays within the text and consumes something.
pub proof fn lemma_condition_sound(s: Seq<char>, pos: int)
    requires
        0 <= pos <= s.len(),
    ensures
        sound(condition(s, pos), pos, s.len()),
    decreases s.len() - pos, 2int,
{
    lemma_field_test_sound(s, pos, "header"@);
    lemma_field_test_sound(s, pos, "address"@);
    lemma_group_sound(s, pos, "allof"@, true);
    lemma_group_sound(s, pos, "anyof"@, false);
}

/// A list under a keyword stays within the text and consumes something.
pub proof fn lemma_group_sound(s: Seq<char>, pos: int, word: Seq<char>, all: bool)
    requires
        0 <= pos <= s.len(),
    ensures
        sound(group(s, pos, word, all), pos, s.len()),
    decreases s.len() - pos, 1int,
{
    match keyword(s, pos, word) {
        Parsed::Done { end: word_end, .. } => {
            lemma_skip_blanks(s, word_end);
            lemma_condition_list_sound(s, skip_blanks(s, word_end));
        },
        _ => {},
    }
}

/// A list of conditions stays within the text, consumes something, and holds
/// at least one condition.
pub proof fn lemma_condition_list_sound(s: Seq<char>, pos: int)
    requires
        0 <= pos <= s.len(),
    ensures
        sound(condition_list(s, pos), pos, s.len()),
        condition_list(s, pos) matches Parsed::Done { value, .. } ==> value.len() >= 1,
    decreases s.len() - pos, 0int,
{
    match symbol(s, pos, '(') {
        Parsed::Done { end: open, .. } => {
            lemma_skip_blanks(s, open);
            lemma_condition_sound(s, skip_blanks(s, open));
            match condition(s, skip_blanks(s, open)) {
                Parsed::Done { end: first_end, value: first } => {
                    lemma_more_conditions_sound(s, first_end, seq![first]);
                    match more_conditions(s, first_end, seq![first]) {
                        Parsed::Done { end: last, .. } => {
                            lemma_skip_blanks(s, last);
                        },
                        _ => {},
                    }
                },
                _ => {},
            }
        },
        _ => {},
    }
}

/// The rest of a list of conditions stays within the text, never fails to
/// match, and keeps what was read before it.
pub proof fn lemma_more_conditions_sound(s: Seq<char>, pos: int, acc: Seq<ConditionView>)
    requires
        0 <= pos <= s.len(),
    ensures
        within(more_conditions(s, pos, acc), pos, s.len() as int),
        !(more_conditions(s, pos, acc) is Unmatched),
        more_conditions(s, pos, acc) matches Parsed::Done { value, .. } ==> value.len()
            >= acc.len() && value.take(acc.len() as int) == acc,
    decreases s.len() - pos, 3int,
{
    lemma_skip_blanks(s, pos);
    match symbol(s, skip_blanks(s, pos), ',') {
        Parsed::Done { end: comma, .. } => {
            lemma_skip_blanks(s, comma);
            lemma_condition_sound(s, skip_blanks(s, comma));
            match condition(s, skip_blanks(s, comma)) {
                Parsed::Done { end, value } => {
                    lemma_more_conditions_sound(s, end, acc.push(value));
                    match more_conditions(s, end, acc.push(value)) {
                        Parsed::Done { value: all, .. } => {
                            assert(all.take(acc.len() as int) =~= all.take(
                                acc.len() as int + 1,
                            ).take(acc.len() as int));
                            assert(acc.push(value).take(acc.len() as int) =~= acc);
                        },
                        _ => {},
                    }
                },
                _ => {},
            }
        },
        _ => {
            assert(acc.take(acc.len() as int) =~= acc);
        },
    }
}

/// A condition that matched ends behind its start: the demand that what is
/// repeated consumes something never turns a condition down.
pub proof fn lemma_condition_advances(s: Seq<char>, pos: int, from: int)
    requires
        0 <= from <= pos <= s.len(),
    ensures
        advancing(condition(s, pos), from, s.len()) == condition(s, pos),
{
    lemma_condition_sound(s, pos);
}

/// A list of conditions that holds blanks only is refused: a list under
/// `allof` or `anyof` has at least one element.
pub proof fn lemma_empty_condition_list_is_refused(s: Seq<char>, pos: int)
    requires
        0 <= pos < s.len(),
        s[pos] == '(',
        0 <= skip_blanks(s, pos + 1) < s.len(),
        s[skip_blanks(s, pos + 1)] == ')',
    ensures
        condition_list(s, pos) is Unmatched,
{
    reveal_strlit("header");
    reveal_strlit("address");
    reveal_strlit("allof");
    reveal_strlit("anyof");
    let close = skip_blanks(s, pos + 1);
    lemma_keyword_differs(s, close, "header"@, 0);
    lemma_keyword_differs(s, close, "address"@, 0);
    lemma_keyword_differs(s, close, "allof"@, 0);
    lemma_keyword_differs(s, close, "anyof"@, 0);
    assert(group(s, close, "allof"@, true) is Unmatched);
    assert(group(s, close, "anyof"@, false) is Unmatched);
    assert(condition(s, close) is Unmatched);
}

/// Every condition that the parser reads is well formed: no list under
/// `allof` or `anyof` is empty, at any depth.
pub proof fn lemma_condition_is_well_formed(s: Seq<char>, pos: int)
    requires
        0 <= pos <= s.len(),
    ensures
        condition(s, pos) matches Parsed::Done { value, .. } ==> well_formed_condition(value),
    decreases s.len() - pos, 2int,
{
    lemma_group_is_well_formed(s, pos, "allof"@, true);
    lemma_group_is_well_formed(s, pos, "anyof"@, false);
}

/// Every list under a keyword that the parser reads is well formed.
pub proof fn lemma_group_is_well_formed(s: Seq<char>, pos: int, word: Seq<char>, all: bool)
    requires
        0 <= pos <= s.len(),
    ensures
        group(s, pos, word, all) matches Parsed::Done { value, .. } ==> well_formed_condition(
            value,
        ),
    decreases s.len() - pos, 1int,
{
    match keyword(s, pos, word) {
        Parsed::Done { end: word_end, .. } => {
            lemma_skip_blanks(s, word_end);
            lemma_condition_list_is_well_formed(s, skip_blanks(s, word_end));
        },
        _ => {},
    }
}

/// Every list of conditions that the parser reads holds at least one
/// condition, and well-formed conditions only.
pub proof fn lemma_condition_list_is_well_formed(s: Seq<char>, pos: int)
    requires
        0 <= pos <= s.len(),
    ensures
        condition_list(s, pos) matches Parsed::Done { value, .. } ==> value.len() >= 1
            && forall|i: int| 0 <= i < value.len() ==> well_formed_condition(#[trigger] value[i]),
    decreases s.len() - pos, 0int,
{
    match symbol(s, pos, '(') {
        Parsed::Done { end: open, .. } => {
            lemma_skip_blanks(s, open);
            let start = skip_blanks(s, open);
            lemma_condition_sound(s, start);
            lemma_condition_is_well_formed(s, start);
            match condition(s, start) {
                Parsed::Done { end: first_end, value: first } => {
                    lemma_more_conditions_are_well_formed(s, first_end, seq![first]);
                    lemma_more_conditions_sound(s, first_end, seq![first]);
                },
                _ => {},
            }
        },
        _ => {},
    }
}

/// The conditions that the parser adds to a list are well formed.
pub proof fn lemma_more_conditions_are_well_formed(
    s: Seq<char>,
    pos: int,
    acc: Seq<ConditionView>,
)
    requires
        0 <= pos <= s.len(),
        forall|i: int| 0 <= i < acc.len() ==> well_formed_condition(#[trigger] acc[i]),
    ensures
        more_conditions(s, pos, acc) matches Parsed::Done { value, .. } ==> forall|i: int|
            0 <= i < value.len() ==> well_formed_condition(#[trigger] value[i]),
    decreases s.len() - pos, 3int,
{
    lemma_skip_blanks(s, pos);
    match symbol(s, skip_blanks(s, pos), ',') {
        Parsed::Done { end: comma, .. } => {
            lemma_skip_blanks(s, comma);
            let start = skip_blanks(s, comma);
            lemma_condition_sound(s, start);
            lemma_condition_is_well_formed(s, start);
            match condition(s, start) {
                Parsed::Done { end, value } => {
                    let longer = acc.push(value);
                    assert forall|i: int| 0 <= i < longer.len() implies well_formed_condition(
                        #[trigger] longer[i],
                    ) by {
                        if i < acc.len() {
                            assert(longer[i] == acc[i]);
                        }
                    }
                    lemma_more_conditions_are_well_formed(s, end, longer);
                },
                _ => {},
            }
        },
        _ => {},
    }
}

/// Reads the kind of a comparison at `pos`.
pub fn comparison_at(s: &[char], pos: usize) -> (r: Step<StringComparisonType>)
    requires
        pos <= s@.len(),
    ensures
        step_view(r) == comparison(s@, pos as int),
        within(step_view(r), pos as int, s@.len() as int),
{
    match keyword_at(s, pos, ":is") {
        Ok((end, _)) => {
            return Ok((end, StringComparisonType::Is));
        },
        Err(_) => {},
    }
    match keyword_at(s, pos, ":contains") {
        Ok((end, _)) => {
            return Ok((end, StringComparisonType::Contains));
        },
        Err(_) => {},
    }
    match keyword_at(s, pos, ":matches") {
        Ok((end, _)) => {
            return Ok((end, StringComparisonType::Matches));
        },
        Err(_) => {},
    }
    match keyword_at(s, pos, ":regex") {
        Ok((end, _)) => Ok((end, StringComparisonType::Regex)),
        Err(stop) => Err(stop),
    }
}

/// Reads a comparison at `pos`.
pub fn string_condition_at(s: &[char], pos: usize) -> (r: Step<StringCondition>)
    requires
        pos <= s@.len(),
    ensures
        step_view(r) == string_condition(s@, pos as int),
        within(step_view(r), pos as int, s@.len() as int),
{
    let (kind_end, comparison_type) = match comparison_at(s, pos) {
        Ok(found) => found,
        Err(stop) => {
            return Err(stop);
        },
    };
    let source_start = match blanks_at(s, kind_end) {
        Ok((end, _)) => end,
        Err(stop) => {
            return Err(stop);
        },
    };
    let (source_end, source) = match string_literal_at(s, source_start) {
        Ok(found) => found,
        Err(stop) => {
            return Err(stop);
        },
    };
    let value_start = match blanks_at(s, source_end) {
        Ok((end, _)) => end,
        Err(stop) => {
            return Err(stop);
        },
    };
    match string_literal_at(s, value_start) {
        Ok((end, value)) => Ok((end, StringCondition { comparison_type, source, value })),
        Err(stop) => Err(stop),
    }
}

/// Reads a test under the keyword `word` at `pos`.
pub fn field_test_at(s: &[char], pos: usize, word: &str) -> (r: Step<StringCondition>)
    requires
        pos <= s@.len(),
    ensures
        step_view(r) == field_test(s@, pos as int, word@),
        within(step_view(r), pos as int, s@.len() as int),
{
    let word_end = match keyword_at(s, pos, word) {
        Ok((end, _)) => end,
        Err(stop) => {
            return Err(stop);
        },
    };
    let start = match blanks_at(s, word_end) {
        Ok((end, _)) => end,
        Err(stop) => {
            return Err(stop);
        },
    };
    string_condition_at(s, start)
}

/// Reads a condition at `pos`.
pub fn condition_at(s: &[char], pos: usize) -> (r: Step<Condition>)
    requires
        pos <= s@.len(),
    ensures
        step_view(r) == condition(s@, pos as int),
        within(step_view(r), pos as int, s@.len() as int),
    decreases s@.len() - pos, 2int,
{
    match field_test_at(s, pos, "header") {
        Ok((end, found)) => {
            return Ok((end, Condition::Header(found)));
        },
        Err(Stop::Incomplete) => {
            return Err(Stop::Incomplete);
        },
        Err(Stop::Unmatched(_)) => {},
    }
    match field_test_at(s, pos, "address") {
        Ok((end, found)) => {
            return Ok((end, Condition::Address(found)));
        },
        Err(Stop::Incomplete) => {
            return Err(Stop::Incomplete);
        },
        Err(Stop::Unmatched(_)) => {},
    }
    match group_at(s, pos, "allof", true) {
        Ok(found) => {
            return Ok(found);
        },
        Err(Stop::Incomplete) => {
            return Err(Stop::Incomplete);
        },
        Err(Stop::Unmatched(_)) => {},
    }
    group_at(s, pos, "anyof", false)
}

/// Reads a list of conditions under the keyword `word` at `pos`.
pub fn group_at(s: &[char], pos: usize, word: &str, all: bool) -> (r: Step<Condition>)
    requires
        pos <= s@.len(),
    ensures
        step_view(r) == group(s@, pos as int, word@, all),
        within(step_view(r), pos as int, s@.len() as int),
    decreases s@.len() - pos, 1int,
{
    let word_end = match keyword_at(s, pos, word) {
        Ok((end, _)) => end,
        Err(stop) => {
            return Err(stop);
        },
    };
    let start = skip_blanks_at(s, word_end);
    match condition_list_at(s, start) {
        Ok((end, items)) => {
            proof {
                lemma_all_of_view(items);
            }
            if all {
                Ok((end, Condition::AllOf(items)))
            } else {
                Ok((end, Condition::AnyOf(items)))
            }
        },
        Err(stop) => Err(stop),
    }
}

/// Reads a list of conditions in parentheses at `pos`.
#[verifier::loop_isolation(false)]
pub fn condition_list_at(s: &[char], pos: usize) -> (r: Step<Vec<Condition>>)
    requires
        pos <= s@.len(),
    ensures
        step_view(r) == condition_list(s@, pos as int),
        within(step_view(r), pos as int, s@.len() as int),
        r matches Ok((_, items)) ==> items@.len() >= 1,
    decreases s@.len() - pos, 0int,
{
    let open = match symbol_at(s, pos, '(') {
        Ok((end, _)) => end,
        Err(stop) => {
            return Err(stop);
        },
    };
    let start = skip_blanks_at(s, open);
    let (first_end, first) = match condition_at(s, start) {
        Ok(found) => found,
        Err(stop) => {
            proof {
                lemma_condition_sound(s@, start as int);
            }
            return Err(stop);
        },
    };
    proof {
        lemma_condition_sound(s@, start as int);
    }
    let mut items: Vec<Condition> = Vec::new();
    items.push(first);
    assert(items.deep_view() =~= seq![first.deep_view()]);
    let mut last: usize = first_end;
    let mut more = true;
    while more
        invariant
            pos < last <= s@.len(),
            items@.len() >= 1,
            more ==> more_conditions(s@, first_end as int, seq![first.deep_view()])
                == more_conditions(s@, last as int, items.deep_view()),
            !more ==> more_conditions(s@, first_end as int, seq![first.deep_view()])
                == (Parsed::Done { end: last as int, value: items.deep_view() }),
        decreases
                s@.len() - last,
                if more {
                    1int
                } else {
                    0int
                },
    {
        let before = skip_blanks_at(s, last);
        match symbol_at(s, before, ',') {
            Ok((comma, _)) => {
                let behind = skip_blanks_at(s, comma);
                proof {
                    lemma_condition_sound(s@, behind as int);
                }
                match condition_at(s, behind) {
                    Ok((end, found)) => {
                        let ghost read = items.deep_view();
                        items.push(found);
                        assert(items.deep_view() =~= read.push(found.deep_view()));
                        last = end;
                    },
                    Err(Stop::Incomplete) => {
                        return Err(Stop::Incomplete);
                    },
                    Err(Stop::Unmatched(_)) => {
                        more = false;
                    },
                }
            },
            Err(Stop::Incomplete) => {
                return Err(Stop::Incomplete);
            },
            Err(Stop::Unmatched(_)) => {
                more = false;
            },
        }
    }
    let close = skip_blanks_at(s, last);
    match symbol_at(s, close, ')') {
        Ok((end, _)) => Ok((end, items)),
        Err(stop) => Err(stop),
    }
}

} // verus!

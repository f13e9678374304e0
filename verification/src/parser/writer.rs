//! Scripts written out as text, and the law that ties the parsers to it:
//! what is written out is read back as it was.
//!
//! The text is canonical: one space where a blank is wanted or customary, none
//! elsewhere. The parsers accept more; the law says that they accept at least
//! this, that they read every tree back whatever its depth, and that they
//! keep the order of every list.

use vstd::prelude::*;
use crate::outcome::Parsed;
use crate::parser::ast::{
    flag_names, flags_of, well_formed_body, well_formed_clauses, well_formed_condition,
    well_formed_expression, well_formed_flag, ConditionView, ExpressionView, FlagView, IfView,
    StringComparisonType, StringConditionView,
};
use crate::parser::condition::{
    comparison, condition, field_test, group, more_conditions, string_condition,
};
use crate::parser::expression::{
    action, block, clause, conditional, else_ifs, else_part, expression, expression_list,
    file_into, flag_command, requirement,
};
use crate::parser::lexical::{
    is_blank, keyword, lemma_keyword_differs, lemma_one_space, lemma_skip_blanks,
    lemma_string_literal_reads_back, more_strings, quoted, skip_blanks, string_array,
    string_list, string_literal,
};
use crate::parser::script;
use crate::text::{has_at, lemma_has_at_index, lemma_has_at_joined, lemma_has_at_parts};

verus! {

/// The keyword of a kind of comparison.
pub open spec fn comparison_word(kind: StringComparisonType) -> Seq<char> {
    match kind {
        StringComparisonType::Is => ":is"@,
        StringComparisonType::Contains => ":contains"@,
        StringComparisonType::Matches => ":matches"@,
        StringComparisonType::Regex => ":regex"@,
    }
}

/// A comparison written out: its keyword, the source and the value, with one
/// space between them.
pub open spec fn written_comparison(t: StringConditionView) -> Seq<char> {
    comparison_word(t.comparison_type) + seq![' '] + quoted(t.source) + seq![' '] + quoted(
        t.value,
    )
}

/// A condition written out.
pub open spec fn written_condition(c: ConditionView) -> Seq<char>
    decreases c,
{
    match c {
        ConditionView::Header(t) => "header"@ + seq![' '] + written_comparison(t),
        ConditionView::Address(t) => "address"@ + seq![' '] + written_comparison(t),
        ConditionView::AllOf(cs) => "allof"@ + seq![' ', '('] + written_conditions(cs, false)
            + seq![')'],
        ConditionView::AnyOf(cs) => "anyof"@ + seq![' ', '('] + written_conditions(cs, false)
            + seq![')'],
    }
}

/// Conditions written out one behind the other, with a comma and a space
/// between them, and also before the first where `leading` says so.
pub open spec fn written_conditions(cs: Seq<ConditionView>, leading: bool) -> Seq<char>
    decreases cs,
{
    if cs.len() == 0 {
        Seq::empty()
    } else {
        (if leading {
            seq![',', ' ']
        } else {
            Seq::empty()
        }) + written_condition(cs[0]) + written_conditions(cs.drop_first(), true)
    }
}

/// A condition written out begins with `h` or `a`.
pub proof fn lemma_written_condition_begins(c: ConditionView)
    ensures
        written_condition(c).len() >= 1,
        written_condition(c)[0] == 'h' || written_condition(c)[0] == 'a',
{
    reveal_strlit("header");
    reveal_strlit("address");
    reveal_strlit("allof");
    reveal_strlit("anyof");
}

/// The kind of a comparison is read back from its keyword.
pub proof fn lemma_comparison_reads_back(s: Seq<char>, pos: int, kind: StringComparisonType)
    requires
        has_at(s, pos, comparison_word(kind)),
    ensures
        comparison(s, pos) == (Parsed::Done {
            end: pos + comparison_word(kind).len(),
            value: kind,
        }),
{
    reveal_strlit(":is");
    reveal_strlit(":contains");
    reveal_strlit(":matches");
    reveal_strlit(":regex");
    lemma_has_at_index(s, pos, comparison_word(kind), 1);
    match kind {
        StringComparisonType::Is => {},
        StringComparisonType::Contains => {
            lemma_keyword_differs(s, pos, ":is"@, 1);
        },
        StringComparisonType::Matches => {
            lemma_keyword_differs(s, pos, ":is"@, 1);
            lemma_keyword_differs(s, pos, ":contains"@, 1);
        },
        StringComparisonType::Regex => {
            lemma_keyword_differs(s, pos, ":is"@, 1);
            lemma_keyword_differs(s, pos, ":contains"@, 1);
            lemma_keyword_differs(s, pos, ":matches"@, 1);
        },
    }
}

/// A comparison written out is read back as it was.
pub proof fn lemma_string_condition_reads_back(s: Seq<char>, pos: int, t: StringConditionView)
    requires
        has_at(s, pos, written_comparison(t)),
    ensures
        string_condition(s, pos) == (Parsed::Done {
            end: pos + written_comparison(t).len(),
            value: t,
        }),
{
    let word = comparison_word(t.comparison_type);
    let source = quoted(t.source);
    let value = quoted(t.value);
    let space = seq![' '];
    lemma_has_at_parts(s, pos, word + space + source + space, value);
    lemma_has_at_parts(s, pos, word + space + source, space);
    lemma_has_at_parts(s, pos, word + space, source);
    lemma_has_at_parts(s, pos, word, space);
    lemma_comparison_reads_back(s, pos, t.comparison_type);
    let q1 = pos + word.len();
    lemma_has_at_index(s, q1, space, 0);
    let q2 = q1 + 1;
    lemma_has_at_index(s, q2, source, 0);
    lemma_one_space(s, q1);
    lemma_string_literal_reads_back(s, q2, t.source);
    let q3 = q2 + source.len();
    assert((word + space + source).len() == word.len() + 1 + source.len());
    lemma_has_at_index(s, q3, space, 0);
    let q4 = q3 + 1;
    assert((word + space + source + space).len() == word.len() + 1 + source.len() + 1);
    lemma_has_at_index(s, q4, value, 0);
    lemma_one_space(s, q3);
    lemma_string_literal_reads_back(s, q4, t.value);
}

/// A test written out is read back as it was.
pub proof fn lemma_field_test_reads_back(s: Seq<char>, pos: int, word: Seq<char>, t: StringConditionView)
    requires
        has_at(s, pos, word + seq![' '] + written_comparison(t)),
    ensures
        field_test(s, pos, word) == (Parsed::Done {
            end: pos + (word + seq![' '] + written_comparison(t)).len(),
            value: t,
        }),
{
    reveal_strlit(":is");
    reveal_strlit(":contains");
    reveal_strlit(":matches");
    reveal_strlit(":regex");
    let space = seq![' '];
    let rest = written_comparison(t);
    lemma_has_at_parts(s, pos, word + space, rest);
    lemma_has_at_parts(s, pos, word, space);
    let q1 = pos + word.len();
    lemma_has_at_index(s, q1, space, 0);
    assert((word + space).len() == word.len() + 1);
    assert(rest[0] == ':') by {
        assert(comparison_word(t.comparison_type)[0] == ':');
    }
    lemma_has_at_index(s, q1 + 1, rest, 0);
    lemma_one_space(s, q1);
    lemma_string_condition_reads_back(s, q1 + 1, t);
}

/// A condition written out is read back as it was: where the text of a
/// well-formed condition stands, the parser reads that condition, with its
/// lists in their order and its nesting as deep as it is, and ends where the
/// text ends.
pub proof fn lemma_condition_reads_back(s: Seq<char>, pos: int, c: ConditionView)
    requires
        well_formed_condition(c),
        has_at(s, pos, written_condition(c)),
    ensures
        condition(s, pos) == (Parsed::Done { end: pos + written_condition(c).len(), value: c }),
    decreases c, 1int,
{
    reveal_strlit("header");
    reveal_strlit("address");
    reveal_strlit("allof");
    reveal_strlit("anyof");
    lemma_written_condition_begins(c);
    lemma_has_at_index(s, pos, written_condition(c), 0);
    match c {
        ConditionView::Header(t) => {
            lemma_field_test_reads_back(s, pos, "header"@, t);
        },
        ConditionView::Address(t) => {
            lemma_keyword_differs(s, pos, "header"@, 0);
            lemma_field_test_reads_back(s, pos, "address"@, t);
        },
        ConditionView::AllOf(cs) => {
            lemma_has_at_index(s, pos, written_condition(c), 1);
            lemma_keyword_differs(s, pos, "header"@, 0);
            lemma_keyword_differs(s, pos, "address"@, 1);
            lemma_group_reads_back(s, pos, "allof"@, true, cs);
        },
        ConditionView::AnyOf(cs) => {
            lemma_has_at_index(s, pos, written_condition(c), 1);
            lemma_keyword_differs(s, pos, "header"@, 0);
            lemma_keyword_differs(s, pos, "address"@, 1);
            lemma_keyword_differs(s, pos, "allof"@, 1);
            lemma_group_reads_back(s, pos, "anyof"@, false, cs);
        },
    }
}

/// A list under a keyword, written out, is read back as it was.
pub proof fn lemma_group_reads_back(
    s: Seq<char>,
    pos: int,
    word: Seq<char>,
    all: bool,
    cs: Seq<ConditionView>,
)
    requires
        cs.len() >= 1,
        forall|i: int| 0 <= i < cs.len() ==> well_formed_condition(#[trigger] cs[i]),
        has_at(s, pos, word + seq![' ', '('] + written_conditions(cs, false) + seq![')']),
    ensures
        group(s, pos, word, all) == (Parsed::Done {
            end: pos + (word + seq![' ', '('] + written_conditions(cs, false) + seq![')']).len(),
            value: if all {
                ConditionView::AllOf(cs)
            } else {
                ConditionView::AnyOf(cs)
            },
        }),
    decreases cs, 0int,
{
    let open = seq![' ', '('];
    let list = written_conditions(cs, false);
    let close = seq![')'];
    lemma_has_at_parts(s, pos, word + open + list, close);
    lemma_has_at_parts(s, pos, word + open, list);
    lemma_has_at_parts(s, pos, word, open);
    let q1 = pos + word.len();
    lemma_has_at_index(s, q1, open, 0);
    lemma_has_at_index(s, q1, open, 1);
    lemma_one_space(s, q1);
    let q2 = q1 + 2;
    assert((word + open).len() == word.len() + 2);
    // the first condition
    let first = written_condition(cs[0]);
    let rest = written_conditions(cs.drop_first(), true);
    assert(list == Seq::<char>::empty() + first + rest);
    assert(Seq::<char>::empty() + first =~= first);
    lemma_has_at_parts(s, q2, first, rest);
    lemma_written_condition_begins(cs[0]);
    lemma_has_at_index(s, q2, first, 0);
    assert(skip_blanks(s, q2) == q2);
    lemma_condition_reads_back(s, q2, cs[0]);
    let q3 = q2 + first.len();
    // the others
    assert(has_at(s, q3, rest + close)) by {
        assert forall|i: int| 0 <= i < (rest + close).len() implies s[q3 + i] == (rest + close)[i] by {
            if i < rest.len() {
                lemma_has_at_index(s, q3, rest, i);
            } else {
                lemma_has_at_index(s, pos + (word + open + list).len(), close, 0);
            }
        }
        assert(s.subrange(q3, q3 + (rest + close).len()) =~= rest + close);
    }
    lemma_more_conditions_read_back(s, q3, seq![cs[0]], cs.drop_first());
    assert(seq![cs[0]] + cs.drop_first() =~= cs);
    let q4 = q3 + rest.len();
    lemma_has_at_index(s, q4, close, 0);
    assert(skip_blanks(s, q4) == q4);
}

/// The conditions behind the first of a list, written out with the closing
/// parenthesis behind them, are read back as they were.
pub proof fn lemma_more_conditions_read_back(
    s: Seq<char>,
    pos: int,
    acc: Seq<ConditionView>,
    cs: Seq<ConditionView>,
)
    requires
        forall|i: int| 0 <= i < cs.len() ==> well_formed_condition(#[trigger] cs[i]),
        has_at(s, pos, written_conditions(cs, true) + seq![')']),
    ensures
        more_conditions(s, pos, acc) == (Parsed::Done {
            end: pos + written_conditions(cs, true).len(),
            value: acc + cs,
        }),
    decreases cs, 0int,
{
    let close = seq![')'];
    if cs.len() == 0 {
        lemma_has_at_index(s, pos, written_conditions(cs, true) + close, 0);
        assert(skip_blanks(s, pos) == pos);
        assert(acc + cs =~= acc);
    } else {
        let comma = seq![',', ' '];
        let first = written_condition(cs[0]);
        let rest = written_conditions(cs.drop_first(), true);
        let whole = written_conditions(cs, true);
        assert(whole == comma + first + rest);
        lemma_has_at_parts(s, pos, whole, close);
        lemma_has_at_parts(s, pos, comma + first, rest);
        lemma_has_at_parts(s, pos, comma, first);
        lemma_has_at_index(s, pos, comma, 0);
        lemma_has_at_index(s, pos, comma, 1);
        assert(skip_blanks(s, pos) == pos);
        lemma_written_condition_begins(cs[0]);
        lemma_has_at_index(s, pos + 2, first, 0);
        lemma_one_space(s, pos + 1);
        lemma_condition_reads_back(s, pos + 2, cs[0]);
        let q3 = pos + 2 + first.len();
        assert((comma + first).len() == 2 + first.len());
        assert(has_at(s, q3, rest + close)) by {
            assert forall|i: int| 0 <= i < (rest + close).len() implies s[q3 + i] == (rest
                + close)[i] by {
                if i < rest.len() {
                    lemma_has_at_index(s, q3, rest, i);
                } else {
                    lemma_has_at_index(s, pos + whole.len(), close, 0);
                }
            }
            assert(s.subrange(q3, q3 + (rest + close).len()) =~= rest + close);
        }
        lemma_more_conditions_read_back(s, q3, acc.push(cs[0]), cs.drop_first());
        assert(acc.push(cs[0]) + cs.drop_first() =~= acc + cs);
    }
}

/// String literals written out one behind the other, with a comma and a
/// space between them, and also before the first where `leading` says so.
pub open spec fn written_strings(items: Seq<Seq<char>>, leading: bool) -> Seq<char>
    decreases items.len(),
{
    if items.len() == 0 {
        Seq::empty()
    } else {
        (if leading {
            seq![',', ' ']
        } else {
            Seq::empty()
        }) + quoted(items[0]) + written_strings(items.drop_first(), true)
    }
}

/// An array of string literals written out.
pub open spec fn written_array(items: Seq<Seq<char>>) -> Seq<char> {
    seq!['['] + written_strings(items, false) + seq![']']
}

/// The string literals behind the first of a list, written out with the
/// closing bracket behind them, are read back as they were.
pub proof fn lemma_more_strings_read_back(
    s: Seq<char>,
    pos: int,
    acc: Seq<Seq<char>>,
    items: Seq<Seq<char>>,
)
    requires
        has_at(s, pos, written_strings(items, true) + seq![']']),
    ensures
        more_strings(s, pos, acc) == (Parsed::Done {
            end: pos + written_strings(items, true).len(),
            value: acc + items,
        }),
    decreases items.len(),
{
    let close = seq![']'];
    if items.len() == 0 {
        lemma_has_at_index(s, pos, written_strings(items, true) + close, 0);
        assert(skip_blanks(s, pos) == pos);
        assert(acc + items =~= acc);
    } else {
        let comma = seq![',', ' '];
        let first = quoted(items[0]);
        let rest = written_strings(items.drop_first(), true);
        let whole = written_strings(items, true);
        assert(whole == comma + first + rest);
        lemma_has_at_parts(s, pos, whole, close);
        lemma_has_at_parts(s, pos, comma + first, rest);
        lemma_has_at_parts(s, pos, comma, first);
        lemma_has_at_index(s, pos, comma, 0);
        lemma_has_at_index(s, pos, comma, 1);
        assert(skip_blanks(s, pos) == pos);
        lemma_has_at_index(s, pos + 2, first, 0);
        lemma_one_space(s, pos + 1);
        lemma_string_literal_reads_back(s, pos + 2, items[0]);
        let next = pos + 2 + first.len();
        assert((comma + first).len() == 2 + first.len());
        lemma_has_at_joined(s, next, rest, close);
        lemma_more_strings_read_back(s, next, acc.push(items[0]), items.drop_first());
        assert(acc.push(items[0]) + items.drop_first() =~= acc + items);
    }
}

/// An array of string literals written out is read back as it was, with
/// every element in its place; an array of no elements is read back too.
pub proof fn lemma_array_reads_back(s: Seq<char>, pos: int, items: Seq<Seq<char>>)
    requires
        has_at(s, pos, written_array(items)),
    ensures
        string_array(s, pos) == (Parsed::Done {
            end: pos + written_array(items).len(),
            value: items,
        }),
{
    let open = seq!['['];
    let list = written_strings(items, false);
    let close = seq![']'];
    lemma_has_at_parts(s, pos, open + list, close);
    lemma_has_at_parts(s, pos, open, list);
    lemma_has_at_index(s, pos, open, 0);
    let start = pos + 1;
    let end = start + list.len();
    assert((open + list).len() == 1 + list.len());
    lemma_has_at_index(s, end, close, 0);
    if items.len() == 0 {
        assert(skip_blanks(s, start) == start);
        assert(string_list(s, start) == Parsed::Done { end: start, value: items }) by {
            assert(items =~= Seq::<Seq<char>>::empty());
        }
    } else {
        let first = quoted(items[0]);
        let rest = written_strings(items.drop_first(), true);
        assert(list == Seq::<char>::empty() + first + rest);
        assert(Seq::<char>::empty() + first =~= first);
        lemma_has_at_parts(s, start, first, rest);
        lemma_has_at_index(s, start, first, 0);
        assert(skip_blanks(s, start) == start);
        lemma_string_literal_reads_back(s, start, items[0]);
        let next = start + first.len();
        lemma_has_at_joined(s, next, rest, close);
        lemma_more_strings_read_back(s, next, seq![items[0]], items.drop_first());
        assert(seq![items[0]] + items.drop_first() =~= items);
    }
    assert(skip_blanks(s, end) == end);
}

/// A `require` written out is read back as it was.
pub proof fn lemma_requirement_reads_back(s: Seq<char>, pos: int, names: Seq<Seq<char>>)
    requires
        has_at(s, pos, "require "@ + written_array(names) + seq![';']),
    ensures
        requirement(s, pos) == (Parsed::Done {
            end: pos + ("require "@ + written_array(names) + seq![';']).len(),
            value: names,
        }),
{
    let word = "require "@;
    let array = written_array(names);
    let close = seq![';'];
    lemma_has_at_parts(s, pos, word + array, close);
    lemma_has_at_parts(s, pos, word, array);
    let start = pos + word.len();
    lemma_has_at_index(s, start, array, 0);
    assert(skip_blanks(s, start) == start);
    lemma_array_reads_back(s, start, names);
    lemma_has_at_index(s, start + array.len(), close, 0);
}

/// A `fileinto` written out is read back as it was.
pub proof fn lemma_file_into_reads_back(s: Seq<char>, pos: int, folder: Seq<char>)
    requires
        has_at(s, pos, "fileinto"@ + seq![' '] + quoted(folder) + seq![';']),
    ensures
        file_into(s, pos) == (Parsed::Done {
            end: pos + ("fileinto"@ + seq![' '] + quoted(folder) + seq![';']).len(),
            value: folder,
        }),
{
    let word = "fileinto"@;
    let space = seq![' '];
    let name = quoted(folder);
    let close = seq![';'];
    lemma_has_at_parts(s, pos, word + space + name, close);
    lemma_has_at_parts(s, pos, word + space, name);
    lemma_has_at_parts(s, pos, word, space);
    let q1 = pos + word.len();
    lemma_has_at_index(s, q1, space, 0);
    assert((word + space).len() == word.len() + 1);
    lemma_has_at_index(s, q1 + 1, name, 0);
    lemma_one_space(s, q1);
    lemma_string_literal_reads_back(s, q1 + 1, folder);
    lemma_has_at_index(s, q1 + 1 + name.len(), close, 0);
}

/// The names of well-formed flags stand for the flags.
pub proof fn lemma_flag_names_read_back(flags: Seq<FlagView>)
    requires
        forall|i: int| 0 <= i < flags.len() ==> well_formed_flag(#[trigger] flags[i]),
    ensures
        flags_of(flag_names(flags)) == flags,
{
    assert(flags_of(flag_names(flags)) =~= flags);
}

/// A command on flags written out is read back as it was.
pub proof fn lemma_flag_command_reads_back(
    s: Seq<char>,
    pos: int,
    word: Seq<char>,
    found: Seq<FlagView>,
)
    requires
        forall|i: int| 0 <= i < found.len() ==> well_formed_flag(#[trigger] found[i]),
        has_at(s, pos, word + seq![' '] + written_array(flag_names(found)) + seq![';']),
    ensures
        flag_command(s, pos, word) == (Parsed::Done {
            end: pos + (word + seq![' '] + written_array(flag_names(found)) + seq![';']).len(),
            value: found,
        }),
{
    let space = seq![' '];
    let array = written_array(flag_names(found));
    let close = seq![';'];
    lemma_has_at_parts(s, pos, word + space + array, close);
    lemma_has_at_parts(s, pos, word + space, array);
    lemma_has_at_parts(s, pos, word, space);
    let q1 = pos + word.len();
    lemma_has_at_index(s, q1, space, 0);
    assert((word + space).len() == word.len() + 1);
    lemma_has_at_index(s, q1 + 1, array, 0);
    lemma_one_space(s, q1);
    assert(string_literal(s, q1 + 1) is Unmatched);
    lemma_array_reads_back(s, q1 + 1, flag_names(found));
    lemma_flag_names_read_back(found);
    let end = q1 + 1 + array.len();
    lemma_has_at_index(s, end, close, 0);
    assert(skip_blanks(s, end) == end);
}

/// A statement written out.
pub open spec fn written_expression(e: ExpressionView) -> Seq<char>
    decreases e, 0int,
{
    match e {
        ExpressionView::Require(names) => "require "@ + written_array(names) + seq![';'],
        ExpressionView::If(i) => written_clause("if"@, i.condition, i.expressions)
            + written_else_ifs(i.else_ifs) + written_else(i.else_block),
        ExpressionView::FileInto(folder) => "fileinto"@ + seq![' '] + quoted(folder) + seq![';'],
        ExpressionView::AddFlag(found) => "addflag"@ + seq![' '] + written_array(
            flag_names(found),
        ) + seq![';'],
        ExpressionView::RemoveFlag(found) => "removeflag"@ + seq![' '] + written_array(
            flag_names(found),
        ) + seq![';'],
        ExpressionView::SetFlag(found) => "setflag"@ + seq![' '] + written_array(
            flag_names(found),
        ) + seq![';'],
        ExpressionView::Discard => "discard;"@,
        ExpressionView::Keep => "keep;"@,
        ExpressionView::Stop => "stop;"@,
    }
}

/// Statements written out, each behind one space.
pub open spec fn written_body(es: Seq<ExpressionView>) -> Seq<char>
    decreases es, 0int,
{
    if es.len() == 0 {
        Seq::empty()
    } else {
        seq![' '] + written_expression(es[0]) + written_body(es.drop_first())
    }
}

/// A block written out: its statements between braces, with one space
/// before the closing brace.
pub open spec fn written_block(body: Seq<ExpressionView>) -> Seq<char>
    decreases body, 1int,
{
    seq!['{'] + written_body(body) + seq![' ', '}']
}

/// A clause written out: the keyword, the condition and the block, with one
/// space between them.
pub open spec fn written_clause(
    word: Seq<char>,
    tested: ConditionView,
    body: Seq<ExpressionView>,
) -> Seq<char>
    decreases body, 2int,
{
    word + seq![' '] + written_condition(tested) + seq![' '] + written_block(body)
}

/// The `elsif` clauses written out, each behind one space.
pub open spec fn written_else_ifs(clauses: Seq<(ConditionView, Seq<ExpressionView>)>) -> Seq<
    char,
>
    decreases clauses, 0int,
{
    if clauses.len() == 0 {
        Seq::empty()
    } else {
        seq![' '] + written_clause("elsif"@, clauses[0].0, clauses[0].1) + written_else_ifs(
            clauses.drop_first(),
        )
    }
}

/// The `else` block written out behind one space; nothing where the block is empty.
pub open spec fn written_else(body: Seq<ExpressionView>) -> Seq<char>
    decreases body, 2int,
{
    if body.len() == 0 {
        Seq::empty()
    } else {
        seq![' '] + "else"@ + seq![' '] + written_block(body)
    }
}

/// Whether `c` is a character that a statement written out begins with.
pub open spec fn begins_statement(c: char) -> bool {
    c == 'r' || c == 'i' || c == 'a' || c == 's' || c == 'd' || c == 'k' || c == 'f'
}

/// Whether a statement or a clause can end at `end`: the next character
/// behind the blanks there, if there is one, is no `e`, so that neither
/// `elsif` nor `else` follows.
pub open spec fn ends_statement(s: Seq<char>, end: int) -> bool {
    skip_blanks(s, end) >= s.len() || s[skip_blanks(s, end)] != 'e'
}

/// Whether a list of statements can end at `end`: behind the blanks there,
/// the text ends or a closing brace stands.
pub open spec fn ends_body(s: Seq<char>, end: int) -> bool {
    skip_blanks(s, end) >= s.len() || s[skip_blanks(s, end)] == '}'
}

/// A statement written out begins with a letter that no blank is and no `e`.
pub proof fn lemma_written_expression_begins(e: ExpressionView)
    ensures
        written_expression(e).len() >= 1,
        begins_statement(written_expression(e)[0]),
{
    reveal_strlit("require ");
    reveal_strlit("if");
    reveal_strlit("fileinto");
    reveal_strlit("addflag");
    reveal_strlit("removeflag");
    reveal_strlit("setflag");
    reveal_strlit("discard;");
    reveal_strlit("keep;");
    reveal_strlit("stop;");
    match e {
        ExpressionView::If(i) => {
            assert(written_clause("if"@, i.condition, i.expressions)[0] == 'i');
        },
        _ => {},
    }
}

/// No statement stands where the text ends or where a character stands that
/// no statement begins with.
pub proof fn lemma_no_statement(s: Seq<char>, pos: int)
    requires
        0 <= pos,
        skip_blanks(s, pos) >= s.len() || !begins_statement(s[skip_blanks(s, pos)]),
    ensures
        expression(s, pos) is Unmatched,
{
    reveal_strlit("require ");
    reveal_strlit("if");
    reveal_strlit("fileinto");
    reveal_strlit("addflag");
    reveal_strlit("removeflag");
    reveal_strlit("setflag");
    reveal_strlit("discard;");
    reveal_strlit("keep;");
    reveal_strlit("stop;");
    lemma_skip_blanks(s, pos);
    let start = skip_blanks(s, pos);
    lemma_keyword_differs(s, start, "require "@, 0);
    lemma_keyword_differs(s, start, "if"@, 0);
    lemma_keyword_differs(s, start, "fileinto"@, 0);
    lemma_keyword_differs(s, start, "addflag"@, 0);
    lemma_keyword_differs(s, start, "removeflag"@, 0);
    lemma_keyword_differs(s, start, "setflag"@, 0);
    lemma_keyword_differs(s, start, "discard;"@, 0);
    lemma_keyword_differs(s, start, "keep;"@, 0);
    lemma_keyword_differs(s, start, "stop;"@, 0);
    assert(clause(s, start, "if"@) is Unmatched);
    assert(conditional(s, start) is Unmatched);
    assert(action(s, start) is Unmatched);
}

/// A statement without an `if` that is no `require`, written out, is no
/// `require` and no `if` to the parser.
pub proof fn lemma_action_alone(s: Seq<char>, pos: int, e: ExpressionView)
    requires
        !(e is Require),
        !(e is If),
        has_at(s, pos, written_expression(e)),
    ensures
        requirement(s, pos) is Unmatched,
        conditional(s, pos) is Unmatched,
        skip_blanks(s, pos) == pos,
{
    reveal_strlit("require ");
    reveal_strlit("if");
    reveal_strlit("fileinto");
    reveal_strlit("addflag");
    reveal_strlit("removeflag");
    reveal_strlit("setflag");
    reveal_strlit("discard;");
    reveal_strlit("keep;");
    reveal_strlit("stop;");
    lemma_written_expression_begins(e);
    lemma_has_at_index(s, pos, written_expression(e), 0);
    lemma_has_at_index(s, pos, written_expression(e), 2);
    lemma_keyword_differs(s, pos, "require "@, 2);
    lemma_keyword_differs(s, pos, "if"@, 0);
    assert(clause(s, pos, "if"@) is Unmatched);
    assert(conditional(s, pos) is Unmatched);
}

/// An action written out is read back as it was.
pub proof fn lemma_action_reads_back(s: Seq<char>, pos: int, e: ExpressionView)
    requires
        !(e is Require),
        !(e is If),
        well_formed_expression(e),
        has_at(s, pos, written_expression(e)),
    ensures
        action(s, pos) == (Parsed::Done { end: pos + written_expression(e).len(), value: e }),
{
    reveal_strlit("fileinto");
    reveal_strlit("addflag");
    reveal_strlit("removeflag");
    reveal_strlit("setflag");
    reveal_strlit("discard;");
    reveal_strlit("keep;");
    reveal_strlit("stop;");
    lemma_written_expression_begins(e);
    lemma_has_at_index(s, pos, written_expression(e), 0);
    lemma_has_at_index(s, pos, written_expression(e), 1);
    match e {
        ExpressionView::AddFlag(found) => {
            lemma_flag_command_reads_back(s, pos, "addflag"@, found);
        },
        ExpressionView::RemoveFlag(found) => {
            lemma_keyword_differs(s, pos, "addflag"@, 0);
            lemma_flag_command_reads_back(s, pos, "removeflag"@, found);
        },
        ExpressionView::SetFlag(found) => {
            lemma_keyword_differs(s, pos, "addflag"@, 0);
            lemma_keyword_differs(s, pos, "removeflag"@, 0);
            lemma_flag_command_reads_back(s, pos, "setflag"@, found);
        },
        ExpressionView::Discard => {
            lemma_keyword_differs(s, pos, "addflag"@, 0);
            lemma_keyword_differs(s, pos, "removeflag"@, 0);
            lemma_keyword_differs(s, pos, "setflag"@, 0);
        },
        ExpressionView::Keep => {
            lemma_keyword_differs(s, pos, "addflag"@, 0);
            lemma_keyword_differs(s, pos, "removeflag"@, 0);
            lemma_keyword_differs(s, pos, "setflag"@, 0);
            lemma_keyword_differs(s, pos, "discard;"@, 0);
        },
        ExpressionView::Stop => {
            lemma_keyword_differs(s, pos, "addflag"@, 0);
            lemma_keyword_differs(s, pos, "removeflag"@, 0);
            lemma_keyword_differs(s, pos, "setflag"@, 1);
            lemma_keyword_differs(s, pos, "discard;"@, 0);
            lemma_keyword_differs(s, pos, "keep;"@, 0);
        },
        ExpressionView::FileInto(folder) => {
            lemma_keyword_differs(s, pos, "addflag"@, 0);
            lemma_keyword_differs(s, pos, "removeflag"@, 0);
            lemma_keyword_differs(s, pos, "setflag"@, 0);
            lemma_keyword_differs(s, pos, "discard;"@, 0);
            lemma_keyword_differs(s, pos, "keep;"@, 0);
            lemma_keyword_differs(s, pos, "stop;"@, 0);
            lemma_file_into_reads_back(s, pos, folder);
        },
        _ => {},
    }
}

/// Where a space, a text and another text stand one behind the other, the
/// space stands first, and each text stands in its place.
pub proof fn lemma_spaced_parts(s: Seq<char>, pos: int, first: Seq<char>, rest: Seq<char>)
    requires
        has_at(s, pos, seq![' '] + first + rest),
    ensures
        0 <= pos < s.len(),
        s[pos] == ' ',
        has_at(s, pos + 1, first),
        has_at(s, pos + 1 + first.len(), rest),
        (seq![' '] + first + rest).len() == 1 + first.len() + rest.len(),
{
    let space = seq![' '];
    lemma_has_at_parts(s, pos, space + first, rest);
    lemma_has_at_parts(s, pos, space, first);
    lemma_has_at_index(s, pos, space, 0);
    assert((space + first).len() == 1 + first.len());
}

/// The statements behind the first of a well-formed list are well formed.
pub proof fn lemma_rest_of_body_well_formed(es: Seq<ExpressionView>)
    requires
        es.len() > 0,
        well_formed_body(es),
    ensures
        well_formed_expression(es[0]),
        well_formed_body(es.drop_first()),
{
    assert forall|k: int| 0 <= k < es.drop_first().len() implies well_formed_expression(
        #[trigger] es.drop_first()[k],
    ) by {
        assert(es.drop_first()[k] == es[k + 1]);
    }
}

/// The clauses behind the first of a well-formed list are well formed.
pub proof fn lemma_rest_of_clauses_well_formed(clauses: Seq<(ConditionView, Seq<ExpressionView>)>)
    requires
        clauses.len() > 0,
        well_formed_clauses(clauses),
    ensures
        well_formed_condition(clauses[0].0),
        well_formed_body(clauses[0].1),
        well_formed_clauses(clauses.drop_first()),
{
    assert forall|k: int| 0 <= k < clauses.drop_first().len() implies well_formed_condition(
        (#[trigger] clauses.drop_first()[k]).0,
    ) && well_formed_body(clauses.drop_first()[k].1) by {
        assert(clauses.drop_first()[k] == clauses[k + 1]);
    }
}

/// Behind a statement of a list, a statement can end: the next statement
/// begins with no `e`, and behind the last the list ends.
pub proof fn lemma_statement_can_end(s: Seq<char>, end: int, rest: Seq<ExpressionView>)
    requires
        has_at(s, end, written_body(rest)),
        ends_body(s, end + written_body(rest).len()),
    ensures
        ends_statement(s, end),
{
    if rest.len() == 0 {
        assert(written_body(rest) =~= Seq::<char>::empty());
    } else {
        let next = written_expression(rest[0]);
        let after = written_body(rest.drop_first());
        assert(written_body(rest) == seq![' '] + next + after);
        lemma_spaced_parts(s, end, next, after);
        lemma_written_expression_begins(rest[0]);
        lemma_has_at_index(s, end + 1, next, 0);
        lemma_one_space(s, end);
    }
}

/// A statement written out is read back as it was: where the text of a
/// well-formed statement stands and neither `elsif` nor `else` follows, the
/// parser reads that statement and ends where the text ends. An `if` keeps
/// its `elsif` clauses in their order, and has an empty `else` block where
/// none was written.
pub proof fn lemma_expression_reads_back(s: Seq<char>, pos: int, e: ExpressionView)
    requires
        well_formed_expression(e),
        has_at(s, pos, written_expression(e)),
        ends_statement(s, pos + written_expression(e).len()),
    ensures
        expression(s, pos) == (Parsed::Done { end: pos + written_expression(e).len(), value: e }),
    decreases e, 1int,
{
    lemma_written_expression_begins(e);
    lemma_has_at_index(s, pos, written_expression(e), 0);
    assert(skip_blanks(s, pos) == pos);
    match e {
        ExpressionView::Require(names) => {
            lemma_requirement_reads_back(s, pos, names);
        },
        ExpressionView::If(i) => {
            reveal_strlit("require ");
            reveal_strlit("if");
            lemma_keyword_differs(s, pos, "require "@, 0);
            lemma_conditional_reads_back(s, pos, e);
        },
        _ => {
            lemma_action_alone(s, pos, e);
            lemma_action_reads_back(s, pos, e);
        },
    }
}

/// The parts of a well-formed `if` are well formed.
pub proof fn lemma_if_parts_well_formed(i: IfView)
    requires
        well_formed_expression(ExpressionView::If(i)),
    ensures
        well_formed_condition(i.condition),
        well_formed_body(i.expressions),
        well_formed_clauses(i.else_ifs),
        well_formed_body(i.else_block),
{
}

/// Where a statement can end, neither `elsif` nor `else` is read.
pub proof fn lemma_no_else(s: Seq<char>, pos: int)
    requires
        0 <= pos,
        ends_statement(s, pos),
    ensures
        keyword(s, skip_blanks(s, pos), "elsif"@) is Unmatched,
        else_part(s, pos) is Unmatched,
{
    reveal_strlit("else");
    reveal_strlit("elsif");
    lemma_skip_blanks(s, pos);
    lemma_keyword_differs(s, skip_blanks(s, pos), "elsif"@, 0);
    lemma_keyword_differs(s, skip_blanks(s, pos), "else"@, 0);
}

/// An `else` block written out is read back as it was, and is no `elsif`.
pub proof fn lemma_else_reads_back(s: Seq<char>, pos: int, body: Seq<ExpressionView>)
    requires
        body.len() > 0,
        well_formed_body(body),
        has_at(s, pos, written_else(body)),
    ensures
        keyword(s, skip_blanks(s, pos), "elsif"@) is Unmatched,
        else_part(s, pos) == (Parsed::Done { end: pos + written_else(body).len(), value: body }),
    decreases body, 2int,
{
    reveal_strlit("else");
    reveal_strlit("elsif");
    let space = seq![' '];
    let word = "else"@;
    let rest = written_block(body);
    assert(written_else(body) == space + word + space + rest);
    lemma_has_at_parts(s, pos, space + word + space, rest);
    lemma_has_at_parts(s, pos, space + word, space);
    lemma_has_at_parts(s, pos, space, word);
    lemma_has_at_index(s, pos, space, 0);
    lemma_has_at_index(s, pos + 1, word, 0);
    lemma_has_at_index(s, pos + 1, word, 3);
    lemma_one_space(s, pos);
    lemma_keyword_differs(s, pos + 1, "elsif"@, 3);
    let q3 = pos + 1 + word.len();
    assert((space + word).len() == 1 + word.len());
    assert((space + word + space).len() == 1 + word.len() + 1);
    lemma_has_at_index(s, q3, space, 0);
    lemma_has_at_index(s, q3 + 1, rest, 0);
    lemma_one_space(s, q3);
    lemma_block_reads_back(s, q3 + 1, body);
}

/// An `if` written out is read back as it was.
#[verifier::rlimit(40)]
pub proof fn lemma_conditional_reads_back(s: Seq<char>, pos: int, e: ExpressionView)
    requires
        e is If,
        well_formed_expression(e),
        has_at(s, pos, written_expression(e)),
        ends_statement(s, pos + written_expression(e).len()),
    ensures
        conditional(s, pos) == (Parsed::Done {
            end: pos + written_expression(e).len(),
            value: e->If_0,
        }),
    decreases e, 0int,
{
    let i = e->If_0;
    let first = written_clause("if"@, i.condition, i.expressions);
    let others = written_else_ifs(i.else_ifs);
    let last = written_else(i.else_block);
    lemma_has_at_parts(s, pos, first + others, last);
    lemma_has_at_parts(s, pos, first, others);
    lemma_if_parts_well_formed(i);
    lemma_clause_reads_back(s, pos, "if"@, i.condition, i.expressions);
    let q1 = pos + first.len();
    let q2 = q1 + others.len();
    assert((first + others).len() == first.len() + others.len());
    let ghost none = Seq::<(ConditionView, Seq<ExpressionView>)>::empty();
    if i.else_block.len() == 0 {
        assert(i.else_block =~= Seq::<ExpressionView>::empty());
        lemma_no_else(s, q2);
    } else {
        lemma_else_reads_back(s, q2, i.else_block);
    }
    lemma_else_ifs_read_back(s, q1, none, i.else_ifs);
    assert(none + i.else_ifs =~= i.else_ifs);
    assert(clause(s, pos, "if"@) == Parsed::Done { end: q1, value: (i.condition, i.expressions) });
    assert(else_ifs(s, q1, none) == Parsed::Done { end: q2, value: i.else_ifs });
    assert(pos < q1 <= q2 <= s.len());
}

/// A clause written out is read back as it was.
pub proof fn lemma_clause_reads_back(
    s: Seq<char>,
    pos: int,
    word: Seq<char>,
    tested: ConditionView,
    body: Seq<ExpressionView>,
)
    requires
        well_formed_condition(tested),
        well_formed_body(body),
        has_at(s, pos, written_clause(word, tested, body)),
    ensures
        clause(s, pos, word) == (Parsed::Done {
            end: pos + written_clause(word, tested, body).len(),
            value: (tested, body),
        }),
        pos < pos + written_clause(word, tested, body).len() <= s.len(),
    decreases body, 2int,
{
    let space = seq![' '];
    let test = written_condition(tested);
    let rest = written_block(body);
    lemma_has_at_parts(s, pos, word + space + test + space, rest);
    lemma_has_at_parts(s, pos, word + space + test, space);
    lemma_has_at_parts(s, pos, word + space, test);
    lemma_has_at_parts(s, pos, word, space);
    let q1 = pos + word.len();
    lemma_has_at_index(s, q1, space, 0);
    assert((word + space).len() == word.len() + 1);
    lemma_written_condition_begins(tested);
    lemma_has_at_index(s, q1 + 1, test, 0);
    lemma_one_space(s, q1);
    lemma_condition_reads_back(s, q1 + 1, tested);
    let q2 = q1 + 1 + test.len();
    assert((word + space + test).len() == word.len() + 1 + test.len());
    lemma_has_at_index(s, q2, space, 0);
    assert((word + space + test + space).len() == word.len() + 1 + test.len() + 1);
    lemma_has_at_index(s, q2 + 1, rest, 0);
    lemma_one_space(s, q2);
    lemma_block_reads_back(s, q2 + 1, body);
}

/// A block written out is read back as it was.
pub proof fn lemma_block_reads_back(s: Seq<char>, pos: int, body: Seq<ExpressionView>)
    requires
        well_formed_body(body),
        has_at(s, pos, written_block(body)),
    ensures
        block(s, pos) == (Parsed::Done { end: pos + written_block(body).len(), value: body }),
    decreases body, 1int,
{
    let open = seq!['{'];
    let inner = written_body(body);
    let close = seq![' ', '}'];
    lemma_has_at_parts(s, pos, open + inner, close);
    lemma_has_at_parts(s, pos, open, inner);
    lemma_has_at_index(s, pos, open, 0);
    let end = pos + 1 + inner.len();
    assert((open + inner).len() == 1 + inner.len());
    lemma_has_at_index(s, end, close, 0);
    lemma_has_at_index(s, end, close, 1);
    lemma_one_space(s, end);
    lemma_body_reads_back(s, pos + 1, Seq::empty(), body);
    assert(Seq::<ExpressionView>::empty() + body =~= body);
}

/// Statements written out are read back as they were, in their order, where
/// the text ends or a closing brace stands behind them.
#[verifier::rlimit(40)]
pub proof fn lemma_body_reads_back(
    s: Seq<char>,
    pos: int,
    acc: Seq<ExpressionView>,
    es: Seq<ExpressionView>,
)
    requires
        well_formed_body(es),
        has_at(s, pos, written_body(es)),
        ends_body(s, pos + written_body(es).len()),
    ensures
        expression_list(s, pos, acc) == (Parsed::Done {
            end: pos + written_body(es).len(),
            value: acc + es,
        }),
    decreases es, 0int,
{
    if es.len() == 0 {
        lemma_no_statement(s, pos);
        assert(acc + es =~= acc);
    } else {
        let first = written_expression(es[0]);
        let rest = written_body(es.drop_first());
        assert(written_body(es) == seq![' '] + first + rest);
        lemma_spaced_parts(s, pos, first, rest);
        lemma_written_expression_begins(es[0]);
        lemma_has_at_index(s, pos + 1, first, 0);
        lemma_one_space(s, pos);
        let end = pos + 1 + first.len();
        lemma_statement_can_end(s, end, es.drop_first());
        lemma_rest_of_body_well_formed(es);
        lemma_expression_reads_back(s, pos + 1, es[0]);
        assert(expression(s, pos) == expression(s, pos + 1)) by {
            assert(skip_blanks(s, pos + 1) == pos + 1);
        }
        lemma_body_reads_back(s, end, acc.push(es[0]), es.drop_first());
        assert(acc.push(es[0]) + es.drop_first() =~= acc + es);
    }
}

/// The `elsif` clauses written out are read back as they were, in their
/// order, where no `elsif` follows them.
#[verifier::rlimit(40)]
pub proof fn lemma_else_ifs_read_back(
    s: Seq<char>,
    pos: int,
    acc: Seq<(ConditionView, Seq<ExpressionView>)>,
    clauses: Seq<(ConditionView, Seq<ExpressionView>)>,
)
    requires
        well_formed_clauses(clauses),
        has_at(s, pos, written_else_ifs(clauses)),
        keyword(s, skip_blanks(s, pos + written_else_ifs(clauses).len()), "elsif"@) is Unmatched,
    ensures
        else_ifs(s, pos, acc) == (Parsed::Done {
            end: pos + written_else_ifs(clauses).len(),
            value: acc + clauses,
        }),
    decreases clauses, 0int,
{
    if clauses.len() == 0 {
        assert(clause(s, skip_blanks(s, pos), "elsif"@) is Unmatched);
        assert(acc + clauses =~= acc);
    } else {
        let first = written_clause("elsif"@, clauses[0].0, clauses[0].1);
        let rest = written_else_ifs(clauses.drop_first());
        assert(written_else_ifs(clauses) == seq![' '] + first + rest);
        lemma_spaced_parts(s, pos, first, rest);
        assert(!is_blank(first[0])) by {
            reveal_strlit("elsif");
        }
        lemma_has_at_index(s, pos + 1, first, 0);
        lemma_one_space(s, pos);
        lemma_rest_of_clauses_well_formed(clauses);
        lemma_clause_reads_back(s, pos + 1, "elsif"@, clauses[0].0, clauses[0].1);
        let end = pos + 1 + first.len();
        lemma_else_ifs_read_back(s, end, acc.push(clauses[0]), clauses.drop_first());
        assert(acc.push(clauses[0]) + clauses.drop_first() =~= acc + clauses);
    }
}

/// A script written out is read back as it was: every well-formed list of
/// statements is what the parser makes of its text, and nothing is left unread.
pub proof fn lemma_script_reads_back(es: Seq<ExpressionView>)
    requires
        well_formed_body(es),
    ensures
        script(written_body(es)) == (Parsed::Done {
            end: written_body(es).len() as int,
            value: es,
        }),
{
    let s = written_body(es);
    assert(s.subrange(0, s.len() as int) =~= s);
    assert(skip_blanks(s, s.len() as int) == s.len());
    lemma_body_reads_back(s, 0, Seq::empty(), es);
    assert(Seq::<ExpressionView>::empty() + es =~= es);
}

} // verus!

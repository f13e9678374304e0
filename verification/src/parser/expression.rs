//! The statements of a script: `require`, the actions, and `if` with its
//! clauses; and scripts as lists of statements.

use vstd::prelude::*;
use crate::parser::ast::{
    flag_of, flags_of, lemma_flag_of_is_well_formed, lemma_if_view, well_formed_body,
    well_formed_clauses, well_formed_condition, well_formed_expression, well_formed_flag,
    well_formed_flags,
    Condition, ConditionView, Expression, ExpressionView, Flag, FlagView, If, IfView,
};
use crate::parser::condition::{
    condition, condition_at, lemma_condition_is_well_formed, lemma_condition_sound, sound,
};
use crate::parser::lexical::{
    blanks, blanks_at, keyword, keyword_at, lemma_skip_blanks, lemma_string_array_bounds,
    lemma_string_literal_bounds, skip_blanks, skip_blanks_at, string_array, string_array_at,
    string_literal, string_literal_at, symbol, symbol_at,
};
use crate::outcome::{
    advancing, failure, giving, otherwise, step_view, within, Parsed, Step, Stop,
};
use crate::text::{has_at, same_text};

verus! {

/// A `require` at `pos`: the keyword with its space, blanks as they come, an
/// array of names, a semicolon.
pub open spec fn requirement(s: Seq<char>, pos: int) -> Parsed<Seq<Seq<char>>> {
    match keyword(s, pos, "require "@) {
        Parsed::Done { end: word_end, .. } => match string_array(s, skip_blanks(s, word_end)) {
            Parsed::Done { end: array_end, value } => match symbol(s, array_end, ';') {
                Parsed::Done { end, .. } => Parsed::Done { end, value },
                other => failure(other),
            },
            other => failure(other),
        },
        other => failure(other),
    }
}

/// The flags at `pos`: one string literal, or an array of them.
pub open spec fn flags(s: Seq<char>, pos: int) -> Parsed<Seq<FlagView>> {
    match string_literal(s, pos) {
        Parsed::Done { end, value } => Parsed::Done { end, value: seq![flag_of(value)] },
        Parsed::Unmatched { .. } => match string_array(s, pos) {
            Parsed::Done { end, value } => Parsed::Done { end, value: flags_of(value) },
            other => failure(other),
        },
        Parsed::Incomplete => Parsed::Incomplete,
    }
}

/// A command on flags at `pos`: the keyword `word`, at least one blank, the
/// flags, blanks as they come, a semicolon.
pub open spec fn flag_command(s: Seq<char>, pos: int, word: Seq<char>) -> Parsed<Seq<FlagView>> {
    match keyword(s, pos, word) {
        Parsed::Done { end: word_end, .. } => match blanks(s, word_end) {
            Parsed::Done { end: start, .. } => match flags(s, start) {
                Parsed::Done { end: flags_end, value } => match symbol(
                    s,
                    skip_blanks(s, flags_end),
                    ';',
                ) {
                    Parsed::Done { end, .. } => Parsed::Done { end, value },
                    other => failure(other),
                },
                other => failure(other),
            },
            other => failure(other),
        },
        other => failure(other),
    }
}

/// A `fileinto` at `pos`: the keyword, at least one blank, the folder as a
/// string literal, a semicolon.
pub open spec fn file_into(s: Seq<char>, pos: int) -> Parsed<Seq<char>> {
    match keyword(s, pos, "fileinto"@) {
        Parsed::Done { end: word_end, .. } => match blanks(s, word_end) {
            Parsed::Done { end: start, .. } => match string_literal(s, start) {
                Parsed::Done { end: folder_end, value } => match symbol(s, folder_end, ';') {
                    Parsed::Done { end, .. } => Parsed::Done { end, value },
                    other => failure(other),
                },
                other => failure(other),
            },
            other => failure(other),
        },
        other => failure(other),
    }
}

/// A statement without an `if` at `pos`, from the third alternative on: the
/// commands on flags, the bare actions, and `fileinto`, tried in this order.
pub open spec fn action(s: Seq<char>, pos: int) -> Parsed<ExpressionView> {
    otherwise(
        match flag_command(s, pos, "addflag"@) {
            Parsed::Done { end, value } => Parsed::Done {
                end,
                value: ExpressionView::AddFlag(value),
            },
            other => failure(other),
        },
        otherwise(
            match flag_command(s, pos, "removeflag"@) {
                Parsed::Done { end, value } => Parsed::Done {
                    end,
                    value: ExpressionView::RemoveFlag(value),
                },
                other => failure(other),
            },
            otherwise(
                match flag_command(s, pos, "setflag"@) {
                    Parsed::Done { end, value } => Parsed::Done {
                        end,
                        value: ExpressionView::SetFlag(value),
                    },
                    other => failure(other),
                },
                otherwise(
                    giving(keyword(s, pos, "discard;"@), ExpressionView::Discard),
                    otherwise(
                        giving(keyword(s, pos, "keep;"@), ExpressionView::Keep),
                        otherwise(
                            giving(keyword(s, pos, "stop;"@), ExpressionView::Stop),
                            match file_into(s, pos) {
                                Parsed::Done { end, value } => Parsed::Done {
                                    end,
                                    value: ExpressionView::FileInto(value),
                                },
                                other => failure(other),
                            },
                        ),
                    ),
                ),
            ),
        ),
    )
}

/// A `require` at `pos` as a statement.
pub open spec fn require_statement(s: Seq<char>, pos: int) -> Parsed<ExpressionView> {
    match requirement(s, pos) {
        Parsed::Done { end, value } => Parsed::Done { end, value: ExpressionView::Require(value) },
        other => failure(other),
    }
}

/// The result of an `if` as the result of a statement.
pub open spec fn if_statement(p: Parsed<IfView>) -> Parsed<ExpressionView> {
    match p {
        Parsed::Done { end, value } => Parsed::Done { end, value: ExpressionView::If(value) },
        other => failure(other),
    }
}

/// A statement at `pos`, behind blanks as they come: a `require`, an `if`,
/// or an action, tried in this order.
pub open spec fn expression(s: Seq<char>, pos: int) -> Parsed<ExpressionView>
    decreases s.len() - pos, 4int,
{
    let start = skip_blanks(s, pos);
    otherwise(
        require_statement(s, start),
        otherwise(
            if_statement(
                {
                    proof {
                        lemma_skip_blanks(s, pos);
                    }
                    conditional(s, start)
                },
            ),
            action(s, start),
        ),
    )
}

/// Statements from `pos` on, as many as match. `acc` holds the statements
/// read before `pos`. The list ends before the first text that is no
/// statement; blanks behind the last statement are not consumed.
pub open spec fn expression_list(s: Seq<char>, pos: int, acc: Seq<ExpressionView>) -> Parsed<
    Seq<ExpressionView>,
>
    decreases s.len() - pos, 5int,
{
    match advancing(expression(s, pos), pos, s.len()) {
        Parsed::Done { end, value } => expression_list(s, end, acc.push(value)),
        Parsed::Unmatched { .. } => Parsed::Done { end: pos, value: acc },
        Parsed::Incomplete => Parsed::Incomplete,
    }
}

/// A block at `pos`: a brace, statements, blanks as they come, a brace.
pub open spec fn block(s: Seq<char>, pos: int) -> Parsed<Seq<ExpressionView>>
    decreases s.len() - pos, 0int,
{
    match symbol(s, pos, '{') {
        Parsed::Done { end: open, .. } => match expression_list(s, open, Seq::empty()) {
            Parsed::Done { end: last, value } => match symbol(s, skip_blanks(s, last), '}') {
                Parsed::Done { end, .. } => Parsed::Done { end, value },
                other => failure(other),
            },
            other => failure(other),
        },
        other => failure(other),
    }
}

/// A clause at `pos`: the keyword `word` (`if` or `elsif`), at least one
/// blank, a condition, at least one blank, a block.
pub open spec fn clause(s: Seq<char>, pos: int, word: Seq<char>) -> Parsed<
    (ConditionView, Seq<ExpressionView>),
>
    decreases s.len() - pos, 1int,
{
    match keyword(s, pos, word) {
        Parsed::Done { end: word_end, .. } => match blanks(s, word_end) {
            Parsed::Done { end: start, .. } => match condition(s, start) {
                Parsed::Done { end: condition_end, value: tested } => match blanks(
                    s,
                    condition_end,
                ) {
                    Parsed::Done { end: block_start, .. } => {
                        proof {
                            lemma_skip_blanks(s, word_end);
                            lemma_condition_sound(s, start);
                            lemma_skip_blanks(s, condition_end);
                        }
                        match block(s, block_start) {
                            Parsed::Done { end, value } => Parsed::Done {
                                end,
                                value: (tested, value),
                            },
                            other => failure(other),
                        }
                    },
                    other => failure(other),
                },
                other => failure(other),
            },
            other => failure(other),
        },
        other => failure(other),
    }
}

/// The `elsif` clauses from `pos` on, as many as match, each behind blanks
/// as they come. `acc` holds the clauses read before `pos`.
pub open spec fn else_ifs(
    s: Seq<char>,
    pos: int,
    acc: Seq<(ConditionView, Seq<ExpressionView>)>,
) -> Parsed<Seq<(ConditionView, Seq<ExpressionView>)>>
    decreases s.len() - pos, 2int,
{
    match advancing(
        {
            proof {
                lemma_skip_blanks(s, pos);
            }
            clause(s, skip_blanks(s, pos), "elsif"@)
        },
        pos,
        s.len(),
    ) {
        Parsed::Done { end, value } => else_ifs(s, end, acc.push(value)),
        Parsed::Unmatched { .. } => Parsed::Done { end: pos, value: acc },
        Parsed::Incomplete => Parsed::Incomplete,
    }
}

/// An `else` with its block at `pos`, with blanks as they come before and
/// behind the keyword.
pub open spec fn else_part(s: Seq<char>, pos: int) -> Parsed<Seq<ExpressionView>>
    decreases s.len() - pos, 1int,
{
    match keyword(s, skip_blanks(s, pos), "else"@) {
        Parsed::Done { end: word_end, .. } => {
            proof {
                lemma_skip_blanks(s, pos);
                lemma_skip_blanks(s, word_end);
            }
            block(s, skip_blanks(s, word_end))
        },
        other => failure(other),
    }
}

/// An `if` at `pos`: the `if` clause, the `elsif` clauses in source order,
/// and the `else` block. Where no `else` with a block follows, the `if` ends
/// behind its last clause and its `else` block is empty.
pub open spec fn conditional(s: Seq<char>, pos: int) -> Parsed<IfView>
    decreases s.len() - pos, 3int,
{
    match advancing(clause(s, pos, "if"@), pos, s.len()) {
        Parsed::Done { end: first_end, value: first } => match advancing(
            else_ifs(s, first_end, Seq::empty()),
            pos,
            s.len(),
        ) {
            Parsed::Done { end: clauses_end, value: clauses } => match else_part(s, clauses_end) {
                Parsed::Done { end, value } => Parsed::Done {
                    end,
                    value: IfView {
                        condition: first.0,
                        expressions: first.1,
                        else_ifs: clauses,
                        else_block: value,
                    },
                },
                Parsed::Unmatched { .. } => Parsed::Done {
                    end: clauses_end,
                    value: IfView {
                        condition: first.0,
                        expressions: first.1,
                        else_ifs: clauses,
                        else_block: Seq::empty(),
                    },
                },
                Parsed::Incomplete => Parsed::Incomplete,
            },
            other => failure(other),
        },
        other => failure(other),
    }
}

/// A `require` stays within the text and consumes something.
pub proof fn lemma_requirement_sound(s: Seq<char>, pos: int)
    requires
        0 <= pos <= s.len(),
    ensures
        sound(requirement(s, pos), pos, s.len()),
{
    match keyword(s, pos, "require "@) {
        Parsed::Done { end: word_end, .. } => {
            lemma_skip_blanks(s, word_end);
            lemma_string_array_bounds(s, skip_blanks(s, word_end));
        },
        _ => {},
    }
}

/// Flags stay within the text and consume something.
pub proof fn lemma_flags_sound(s: Seq<char>, pos: int)
    requires
        0 <= pos <= s.len(),
    ensures
        sound(flags(s, pos), pos, s.len()),
{
    lemma_string_literal_bounds(s, pos);
    lemma_string_array_bounds(s, pos);
}

/// A command on flags stays within the text and consumes something.
pub proof fn lemma_flag_command_sound(s: Seq<char>, pos: int, word: Seq<char>)
    requires
        0 <= pos <= s.len(),
    ensures
        sound(flag_command(s, pos, word), pos, s.len()),
{
    match keyword(s, pos, word) {
        Parsed::Done { end: word_end, .. } => {
            lemma_skip_blanks(s, word_end);
            match blanks(s, word_end) {
                Parsed::Done { end: start, .. } => {
                    lemma_flags_sound(s, start);
                    match flags(s, start) {
                        Parsed::Done { end: flags_end, .. } => {
                            lemma_skip_blanks(s, flags_end);
                        },
                        _ => {},
                    }
                },
                _ => {},
            }
        },
        _ => {},
    }
}

/// A `fileinto` stays within the text and consumes something.
pub proof fn lemma_file_into_sound(s: Seq<char>, pos: int)
    requires
        0 <= pos <= s.len(),
    ensures
        sound(file_into(s, pos), pos, s.len()),
{
    match keyword(s, pos, "fileinto"@) {
        Parsed::Done { end: word_end, .. } => {
            lemma_skip_blanks(s, word_end);
            match blanks(s, word_end) {
                Parsed::Done { end: start, .. } => {
                    lemma_string_literal_bounds(s, start);
                },
                _ => {},
            }
        },
        _ => {},
    }
}

/// An action stays within the text and consumes something.
pub proof fn lemma_action_sound(s: Seq<char>, pos: int)
    requires
        0 <= pos <= s.len(),
    ensures
        sound(action(s, pos), pos, s.len()),
{
    reveal_strlit("discard;");
    reveal_strlit("keep;");
    reveal_strlit("stop;");
    lemma_flag_command_sound(s, pos, "addflag"@);
    lemma_flag_command_sound(s, pos, "removeflag"@);
    lemma_flag_command_sound(s, pos, "setflag"@);
    lemma_file_into_sound(s, pos);
}

/// A statement stays within the text and consumes something.
pub proof fn lemma_expression_sound(s: Seq<char>, pos: int)
    requires
        0 <= pos <= s.len(),
    ensures
        sound(expression(s, pos), pos, s.len()),
    decreases s.len() - pos, 4int,
{
    lemma_skip_blanks(s, pos);
    let start = skip_blanks(s, pos);
    lemma_requirement_sound(s, start);
    lemma_conditional_sound(s, start);
    lemma_action_sound(s, start);
}

/// A list of statements stays within the text, never fails to match, and
/// keeps what was read before it.
pub proof fn lemma_expression_list_sound(s: Seq<char>, pos: int, acc: Seq<ExpressionView>)
    requires
        0 <= pos <= s.len(),
    ensures
        within(expression_list(s, pos, acc), pos, s.len() as int),
        !(expression_list(s, pos, acc) is Unmatched),
    decreases s.len() - pos, 5int,
{
    lemma_expression_sound(s, pos);
    match expression(s, pos) {
        Parsed::Done { end, value } => {
            lemma_expression_list_sound(s, end, acc.push(value));
        },
        _ => {},
    }
}

/// A block stays within the text and consumes something.
pub proof fn lemma_block_sound(s: Seq<char>, pos: int)
    requires
        0 <= pos <= s.len(),
    ensures
        sound(block(s, pos), pos, s.len()),
    decreases s.len() - pos, 0int,
{
    match symbol(s, pos, '{') {
        Parsed::Done { end: open, .. } => {
            lemma_expression_list_sound(s, open, Seq::empty());
            match expression_list(s, open, Seq::empty()) {
                Parsed::Done { end: last, .. } => {
                    lemma_skip_blanks(s, last);
                },
                _ => {},
            }
        },
        _ => {},
    }
}

/// A clause stays within the text and consumes something.
pub proof fn lemma_clause_sound(s: Seq<char>, pos: int, word: Seq<char>)
    requires
        0 <= pos <= s.len(),
    ensures
        sound(clause(s, pos, word), pos, s.len()),
    decreases s.len() - pos, 1int,
{
    match keyword(s, pos, word) {
        Parsed::Done { end: word_end, .. } => {
            lemma_skip_blanks(s, word_end);
            match blanks(s, word_end) {
                Parsed::Done { end: start, .. } => {
                    lemma_condition_sound(s, start);
                    match condition(s, start) {
                        Parsed::Done { end: condition_end, .. } => {
                            lemma_skip_blanks(s, condition_end);
                            match blanks(s, condition_end) {
                                Parsed::Done { end: block_start, .. } => {
                                    lemma_block_sound(s, block_start);
                                },
                                _ => {},
                            }
                        },
                        _ => {},
                    }
                },
                _ => {},
            }
        },
        _ => {},
    }
}

/// The `elsif` clauses stay within the text and never fail to match.
pub proof fn lemma_else_ifs_sound(
    s: Seq<char>,
    pos: int,
    acc: Seq<(ConditionView, Seq<ExpressionView>)>,
)
    requires
        0 <= pos <= s.len(),
    ensures
        within(else_ifs(s, pos, acc), pos, s.len() as int),
        !(else_ifs(s, pos, acc) is Unmatched),
    decreases s.len() - pos, 2int,
{
    lemma_skip_blanks(s, pos);
    lemma_clause_sound(s, skip_blanks(s, pos), "elsif"@);
    match clause(s, skip_blanks(s, pos), "elsif"@) {
        Parsed::Done { end, value } => {
            lemma_else_ifs_sound(s, end, acc.push(value));
        },
        _ => {},
    }
}

/// An `else` with its block stays within the text and consumes something.
pub proof fn lemma_else_part_sound(s: Seq<char>, pos: int)
    requires
        0 <= pos <= s.len(),
    ensures
        sound(else_part(s, pos), pos, s.len()),
    decreases s.len() - pos, 1int,
{
    lemma_skip_blanks(s, pos);
    match keyword(s, skip_blanks(s, pos), "else"@) {
        Parsed::Done { end: word_end, .. } => {
            reveal_strlit("else");
            lemma_skip_blanks(s, word_end);
            lemma_block_sound(s, skip_blanks(s, word_end));
        },
        _ => {},
    }
}

/// An `if` stays within the text and consumes something.
pub proof fn lemma_conditional_sound(s: Seq<char>, pos: int)
    requires
        0 <= pos <= s.len(),
    ensures
        sound(conditional(s, pos), pos, s.len()),
    decreases s.len() - pos, 3int,
{
    lemma_clause_sound(s, pos, "if"@);
    match clause(s, pos, "if"@) {
        Parsed::Done { end: first_end, .. } => {
            lemma_else_ifs_sound(s, first_end, Seq::empty());
            match else_ifs(s, first_end, Seq::empty()) {
                Parsed::Done { end: clauses_end, .. } => {
                    lemma_else_part_sound(s, clauses_end);
                },
                _ => {},
            }
        },
        _ => {},
    }
}

/// A statement or a clause that matched ends behind its start: the demand
/// that what is repeated consumes something never turns one down.
pub proof fn lemma_statements_advance(s: Seq<char>, pos: int, from: int, word: Seq<char>)
    requires
        0 <= from <= pos <= s.len(),
    ensures
        advancing(expression(s, pos), from, s.len()) == expression(s, pos),
        advancing(clause(s, pos, word), from, s.len()) == clause(s, pos, word),
        from < pos ==> advancing(else_ifs(s, pos, Seq::empty()), from, s.len()) == else_ifs(
            s,
            pos,
            Seq::empty(),
        ),
{
    lemma_expression_sound(s, pos);
    lemma_clause_sound(s, pos, word);
    lemma_else_ifs_sound(s, pos, Seq::empty());
}

/// An `if` that no `else` follows has an empty `else` block and ends behind
/// its last clause.
pub proof fn lemma_if_without_else(s: Seq<char>, pos: int)
    requires
        0 <= pos <= s.len(),
        clause(s, pos, "if"@) is Done,
        else_ifs(s, clause(s, pos, "if"@)->end, Seq::empty()) is Done,
        !has_at(
            s,
            skip_blanks(s, else_ifs(s, clause(s, pos, "if"@)->end, Seq::empty())->end),
            "else"@,
        ),
    ensures
        conditional(s, pos) == (Parsed::Done {
            end: else_ifs(s, clause(s, pos, "if"@)->end, Seq::empty())->end,
            value: IfView {
                condition: clause(s, pos, "if"@)->value.0,
                expressions: clause(s, pos, "if"@)->value.1,
                else_ifs: else_ifs(s, clause(s, pos, "if"@)->end, Seq::empty())->value,
                else_block: Seq::empty(),
            },
        }),
{
    lemma_clause_sound(s, pos, "if"@);
    lemma_else_ifs_sound(s, clause(s, pos, "if"@)->end, Seq::empty());
}

/// Every action that the parser reads is well formed.
pub proof fn lemma_action_is_well_formed(s: Seq<char>, pos: int)
    ensures
        action(s, pos) matches Parsed::Done { value, .. } ==> well_formed_expression(value),
{
    lemma_flag_command_is_well_formed(s, pos, "addflag"@);
    lemma_flag_command_is_well_formed(s, pos, "removeflag"@);
    lemma_flag_command_is_well_formed(s, pos, "setflag"@);
}

/// Every flag that the parser reads is well formed.
pub proof fn lemma_flags_are_well_formed(s: Seq<char>, pos: int)
    ensures
        flags(s, pos) matches Parsed::Done { value, .. } ==> well_formed_flags(value),
{
    match flags(s, pos) {
        Parsed::Done { value, .. } => {
            assert forall|k: int| 0 <= k < value.len() implies well_formed_flag(
                #[trigger] value[k],
            ) by {
                match string_literal(s, pos) {
                    Parsed::Done { value: name, .. } => {
                        lemma_flag_of_is_well_formed(name);
                    },
                    _ => {
                        let names = string_array(s, pos)->value;
                        lemma_flag_of_is_well_formed(names[k]);
                    },
                }
            }
        },
        _ => {},
    }
}

/// Every flag that a command on flags reads is well formed.
pub proof fn lemma_flag_command_is_well_formed(s: Seq<char>, pos: int, word: Seq<char>)
    ensures
        flag_command(s, pos, word) matches Parsed::Done { value, .. } ==> well_formed_flags(value),
{
    match flag_command(s, pos, word) {
        Parsed::Done { value, .. } => {
            let start = blanks(s, keyword(s, pos, word)->end)->end;
            assert(flags(s, start) is Done && flags(s, start)->value == value);
            lemma_flags_are_well_formed(s, start);
        },
        _ => {},
    }
}

/// Every statement that the parser reads is well formed: its conditions
/// hold no empty list and its flags are what their names stand for, at any depth.
pub proof fn lemma_expression_is_well_formed(s: Seq<char>, pos: int)
    requires
        0 <= pos <= s.len(),
    ensures
        expression(s, pos) matches Parsed::Done { value, .. } ==> well_formed_expression(value),
    decreases s.len() - pos, 4int,
{
    lemma_skip_blanks(s, pos);
    let start = skip_blanks(s, pos);
    lemma_conditional_is_well_formed(s, start);
    lemma_action_is_well_formed(s, start);
}

/// Every list of statements that the parser reads is well formed.
pub proof fn lemma_expression_list_is_well_formed(
    s: Seq<char>,
    pos: int,
    acc: Seq<ExpressionView>,
)
    requires
        0 <= pos <= s.len(),
        well_formed_body(acc),
    ensures
        expression_list(s, pos, acc) matches Parsed::Done { value, .. } ==> well_formed_body(
            value,
        ),
    decreases s.len() - pos, 5int,
{
    lemma_expression_sound(s, pos);
    lemma_expression_is_well_formed(s, pos);
    match expression(s, pos) {
        Parsed::Done { end, value } => {
            let longer = acc.push(value);
            assert(well_formed_body(longer)) by {
                assert forall|k: int| 0 <= k < longer.len() implies well_formed_expression(
                    #[trigger] longer[k],
                ) by {
                    if k < acc.len() {
                        assert(longer[k] == acc[k]);
                    }
                }
            }
            lemma_expression_list_is_well_formed(s, end, longer);
        },
        _ => {},
    }
}

/// Every block that the parser reads is well formed.
pub proof fn lemma_block_is_well_formed(s: Seq<char>, pos: int)
    requires
        0 <= pos <= s.len(),
    ensures
        block(s, pos) matches Parsed::Done { value, .. } ==> well_formed_body(value),
    decreases s.len() - pos, 0int,
{
    match symbol(s, pos, '{') {
        Parsed::Done { end: open, .. } => {
            lemma_expression_list_is_well_formed(s, open, Seq::empty());
        },
        _ => {},
    }
}

/// Every clause that the parser reads is well formed.
pub proof fn lemma_clause_is_well_formed(s: Seq<char>, pos: int, word: Seq<char>)
    requires
        0 <= pos <= s.len(),
    ensures
        clause(s, pos, word) matches Parsed::Done { value, .. } ==> well_formed_condition(value.0)
            && well_formed_body(value.1),
    decreases s.len() - pos, 1int,
{
    match keyword(s, pos, word) {
        Parsed::Done { end: word_end, .. } => {
            lemma_skip_blanks(s, word_end);
            match blanks(s, word_end) {
                Parsed::Done { end: start, .. } => {
                    lemma_condition_sound(s, start);
                    lemma_condition_is_well_formed(s, start);
                    match condition(s, start) {
                        Parsed::Done { end: condition_end, .. } => {
                            lemma_skip_blanks(s, condition_end);
                            match blanks(s, condition_end) {
                                Parsed::Done { end: block_start, .. } => {
                                    lemma_block_is_well_formed(s, block_start);
                                },
                                _ => {},
                            }
                        },
                        _ => {},
                    }
                },
                _ => {},
            }
        },
        _ => {},
    }
}

/// The `elsif` clauses that the parser reads are well formed.
pub proof fn lemma_else_ifs_are_well_formed(
    s: Seq<char>,
    pos: int,
    acc: Seq<(ConditionView, Seq<ExpressionView>)>,
)
    requires
        0 <= pos <= s.len(),
        well_formed_clauses(acc),
    ensures
        else_ifs(s, pos, acc) matches Parsed::Done { value, .. } ==> well_formed_clauses(value),
    decreases s.len() - pos, 2int,
{
    lemma_skip_blanks(s, pos);
    let start = skip_blanks(s, pos);
    lemma_clause_sound(s, start, "elsif"@);
    lemma_clause_is_well_formed(s, start, "elsif"@);
    match clause(s, start, "elsif"@) {
        Parsed::Done { end, value } => {
            let longer = acc.push(value);
            assert(well_formed_clauses(longer)) by {
                assert forall|k: int| 0 <= k < longer.len() implies well_formed_condition(
                    (#[trigger] longer[k]).0,
                ) && well_formed_body(longer[k].1) by {
                    if k < acc.len() {
                        assert(longer[k] == acc[k]);
                    }
                }
            }
            lemma_else_ifs_are_well_formed(s, end, longer);
        },
        _ => {},
    }
}

/// Every `if` that the parser reads is well formed.
pub proof fn lemma_conditional_is_well_formed(s: Seq<char>, pos: int)
    requires
        0 <= pos <= s.len(),
    ensures
        conditional(s, pos) matches Parsed::Done { value, .. } ==> well_formed_expression(
            ExpressionView::If(value),
        ),
    decreases s.len() - pos, 3int,
{
    lemma_clause_sound(s, pos, "if"@);
    lemma_clause_is_well_formed(s, pos, "if"@);
    match clause(s, pos, "if"@) {
        Parsed::Done { end: first_end, value: first } => {
            lemma_else_ifs_sound(s, first_end, Seq::empty());
            lemma_else_ifs_are_well_formed(s, first_end, Seq::empty());
            match else_ifs(s, first_end, Seq::empty()) {
                Parsed::Done { end: clauses_end, value: clauses } => {
                    lemma_skip_blanks(s, clauses_end);
                    match keyword(s, skip_blanks(s, clauses_end), "else"@) {
                        Parsed::Done { end: word_end, .. } => {
                            lemma_skip_blanks(s, word_end);
                            lemma_block_is_well_formed(s, skip_blanks(s, word_end));
                        },
                        _ => {},
                    }
                    match conditional(s, pos) {
                        Parsed::Done { value, .. } => {
                            assert(value.condition == first.0);
                            assert(value.expressions == first.1);
                            assert(value.else_ifs == clauses);
                            assert(well_formed_body(value.else_block));
                            assert(well_formed_body(value.expressions));
                            assert(well_formed_clauses(value.else_ifs));
                        },
                        _ => {},
                    }
                },
                _ => {},
            }
        },
        _ => {},
    }
}

/// Reads a `require` at `pos`.
pub fn requirement_at(s: &[char], pos: usize) -> (r: Step<Vec<String>>)
    requires
        pos <= s@.len(),
    ensures
        step_view(r) == requirement(s@, pos as int),
        within(step_view(r), pos as int, s@.len() as int),
{
    let word_end = match keyword_at(s, pos, "require ") {
        Ok((end, _)) => end,
        Err(stop) => {
            return Err(stop);
        },
    };
    let start = skip_blanks_at(s, word_end);
    let (array_end, names) = match string_array_at(s, start) {
        Ok(found) => found,
        Err(stop) => {
            return Err(stop);
        },
    };
    match symbol_at(s, array_end, ';') {
        Ok((end, _)) => Ok((end, names)),
        Err(stop) => Err(stop),
    }
}

/// The flag that `name` stands for.
pub fn flag_from(name: String) -> (flag: Flag)
    ensures
        flag@ == flag_of(name@),
{
    if same_text(name.as_str(), "\\Seen") {
        Flag::Seen
    } else if same_text(name.as_str(), "\\Flagged") {
        Flag::Flagged
    } else if same_text(name.as_str(), "\\Answered") {
        Flag::Answered
    } else if same_text(name.as_str(), "\\Deleted") {
        Flag::Deleted
    } else if same_text(name.as_str(), "\\Draft") {
        Flag::Draft
    } else if same_text(name.as_str(), "\\Recent") {
        Flag::Recent
    } else {
        Flag::Custom(name)
    }
}

/// The flags that `names` stand for, in order.
pub fn flags_from(names: Vec<String>) -> (r: Vec<Flag>)
    ensures
        r.deep_view() == flags_of(names.deep_view()),
{
    let mut out: Vec<Flag> = Vec::new();
    let mut i: usize = 0;
    while i < names.len()
        invariant
            i <= names@.len(),
            out@.len() == i,
            forall|j: int| 0 <= j < i ==> (#[trigger] out@[j])@ == flag_of(names@[j]@),
        decreases names@.len() - i,
    {
        out.push(flag_from(names[i].clone()));
        i += 1;
    }
    assert(out.deep_view() =~= flags_of(names.deep_view()));
    out
}

/// Reads flags at `pos`.
pub fn flags_at(s: &[char], pos: usize) -> (r: Step<Vec<Flag>>)
    requires
        pos <= s@.len(),
    ensures
        step_view(r) == flags(s@, pos as int),
        within(step_view(r), pos as int, s@.len() as int),
{
    match string_literal_at(s, pos) {
        Ok((end, name)) => {
            let mut out: Vec<Flag> = Vec::new();
            let flag = flag_from(name);
            out.push(flag);
            assert(out.deep_view() =~= seq![flag@]);
            Ok((end, out))
        },
        Err(Stop::Incomplete) => Err(Stop::Incomplete),
        Err(Stop::Unmatched(_)) => match string_array_at(s, pos) {
            Ok((end, names)) => Ok((end, flags_from(names))),
            Err(stop) => Err(stop),
        },
    }
}

/// Reads a command on flags under the keyword `word` at `pos`.
pub fn flag_command_at(s: &[char], pos: usize, word: &str) -> (r: Step<Vec<Flag>>)
    requires
        pos <= s@.len(),
    ensures
        step_view(r) == flag_command(s@, pos as int, word@),
        within(step_view(r), pos as int, s@.len() as int),
{
    let word_end = match keyword_at(s, pos, word) {
        Ok((end, _)) => end,
        Err(stop) => {
            return Err(stop);
        },
    };
    let start = match blanks_at(s, word_end) {
        Ok((end, _)) => end,
        Err(stop) => {
            return Err(stop);
        },
    };
    let (flags_end, found) = match flags_at(s, start) {
        Ok(found) => found,
        Err(stop) => {
            return Err(stop);
        },
    };
    let close = skip_blanks_at(s, flags_end);
    match symbol_at(s, close, ';') {
        Ok((end, _)) => Ok((end, found)),
        Err(stop) => Err(stop),
    }
}

/// Reads a `fileinto` at `pos`.
pub fn file_into_at(s: &[char], pos: usize) -> (r: Step<String>)
    requires
        pos <= s@.len(),
    ensures
        step_view(r) == file_into(s@, pos as int),
        within(step_view(r), pos as int, s@.len() as int),
{
    let word_end = match keyword_at(s, pos, "fileinto") {
        Ok((end, _)) => end,
        Err(stop) => {
            return Err(stop);
        },
    };
    let start = match blanks_at(s, word_end) {
        Ok((end, _)) => end,
        Err(stop) => {
            return Err(stop);
        },
    };
    let (folder_end, folder) = match string_literal_at(s, start) {
        Ok(found) => found,
        Err(stop) => {
            return Err(stop);
        },
    };
    match symbol_at(s, folder_end, ';') {
        Ok((end, _)) => Ok((end, folder)),
        Err(stop) => Err(stop),
    }
}

/// Reads an action at `pos`.
pub fn action_at(s: &[char], pos: usize) -> (r: Step<Expression>)
    requires
        pos <= s@.len(),
    ensures
        step_view(r) == action(s@, pos as int),
        within(step_view(r), pos as int, s@.len() as int),
{
    match flag_command_at(s, pos, "addflag") {
        Ok((end, found)) => {
            return Ok((end, Expression::AddFlag(found)));
        },
        Err(Stop::Incomplete) => {
            return Err(Stop::Incomplete);
        },
        Err(Stop::Unmatched(_)) => {},
    }
    match flag_command_at(s, pos, "removeflag") {
        Ok((end, found)) => {
            return Ok((end, Expression::RemoveFlag(found)));
        },
        Err(Stop::Incomplete) => {
            return Err(Stop::Incomplete);
        },
        Err(Stop::Unmatched(_)) => {},
    }
    match flag_command_at(s, pos, "setflag") {
        Ok((end, found)) => {
            return Ok((end, Expression::SetFlag(found)));
        },
        Err(Stop::Incomplete) => {
            return Err(Stop::Incomplete);
        },
        Err(Stop::Unmatched(_)) => {},
    }
    match keyword_at(s, pos, "discard;") {
        Ok((end, _)) => {
            return Ok((end, Expression::Discard));
        },
        Err(_) => {},
    }
    match keyword_at(s, pos, "keep;") {
        Ok((end, _)) => {
            return Ok((end, Expression::Keep));
        },
        Err(_) => {},
    }
    match keyword_at(s, pos, "stop;") {
        Ok((end, _)) => {
            return Ok((end, Expression::Stop));
        },
        Err(_) => {},
    }
    match file_into_at(s, pos) {
        Ok((end, folder)) => Ok((end, Expression::FileInto(folder))),
        Err(stop) => Err(stop),
    }
}

/// Reads a statement at `pos`.
pub fn expression_at(s: &[char], pos: usize) -> (r: Step<Expression>)
    requires
        pos <= s@.len(),
    ensures
        step_view(r) == expression(s@, pos as int),
        within(step_view(r), pos as int, s@.len() as int),
    decreases s@.len() - pos, 4int,
{
    let start = skip_blanks_at(s, pos);
    match requirement_at(s, start) {
        Ok((end, names)) => {
            return Ok((end, Expression::Require(names)));
        },
        Err(Stop::Incomplete) => {
            return Err(Stop::Incomplete);
        },
        Err(Stop::Unmatched(_)) => {},
    }
    match conditional_at(s, start) {
        Ok((end, found)) => {
            proof {
                lemma_if_view(found);
            }
            return Ok((end, Expression::If(found)));
        },
        Err(Stop::Incomplete) => {
            return Err(Stop::Incomplete);
        },
        Err(Stop::Unmatched(_)) => {},
    }
    action_at(s, start)
}

/// Reads statements from `pos` on, as many as match.
#[verifier::loop_isolation(false)]
pub fn expression_list_at(s: &[char], pos: usize) -> (r: Step<Vec<Expression>>)
    requires
        pos <= s@.len(),
    ensures
        step_view(r) == expression_list(s@, pos as int, Seq::empty()),
        within(step_view(r), pos as int, s@.len() as int),
    decreases s@.len() - pos, 5int,
{
    let mut items: Vec<Expression> = Vec::new();
    assert(items.deep_view() =~= Seq::<ExpressionView>::empty());
    let mut last: usize = pos;
    let mut more = true;
    while more
        invariant
            pos <= last <= s@.len(),
            more ==> expression_list(s@, pos as int, Seq::empty()) == expression_list(
                s@,
                last as int,
                items.deep_view(),
            ),
            !more ==> expression_list(s@, pos as int, Seq::empty()) == (Parsed::Done {
                end: last as int,
                value: items.deep_view(),
            }),
        decreases
                s@.len() - last,
                if more {
                    1int
                } else {
                    0int
                },
    {
        proof {
            lemma_expression_sound(s@, last as int);
        }
        match expression_at(s, last) {
            Ok((end, found)) => {
                let ghost read = items.deep_view();
                items.push(found);
                assert(items.deep_view() =~= read.push(found.deep_view()));
                last = end;
            },
            Err(Stop::Incomplete) => {
                return Err(Stop::Incomplete);
            },
            Err(Stop::Unmatched(_)) => {
                more = false;
            },
        }
    }
    Ok((last, items))
}

/// Reads a block at `pos`.
pub fn block_at(s: &[char], pos: usize) -> (r: Step<Vec<Expression>>)
    requires
        pos <= s@.len(),
    ensures
        step_view(r) == block(s@, pos as int),
        within(step_view(r), pos as int, s@.len() as int),
    decreases s@.len() - pos, 0int,
{
    let open = match symbol_at(s, pos, '{') {
        Ok((end, _)) => end,
        Err(stop) => {
            return Err(stop);
        },
    };
    let (last, found) = match expression_list_at(s, open) {
        Ok(found) => found,
        Err(stop) => {
            proof {
                lemma_expression_list_sound(s@, open as int, Seq::empty());
            }
            return Err(stop);
        },
    };
    let close = skip_blanks_at(s, last);
    match symbol_at(s, close, '}') {
        Ok((end, _)) => Ok((end, found)),
        Err(stop) => Err(stop),
    }
}

/// Reads a clause under the keyword `word` at `pos`.
pub fn clause_at(s: &[char], pos: usize, word: &str) -> (r: Step<(Condition, Vec<Expression>)>)
    requires
        pos <= s@.len(),
    ensures
        step_view(r) == clause(s@, pos as int, word@),
        within(step_view(r), pos as int, s@.len() as int),
    decreases s@.len() - pos, 1int,
{
    let word_end = match keyword_at(s, pos, word) {
        Ok((end, _)) => end,
        Err(stop) => {
            return Err(stop);
        },
    };
    let start = match blanks_at(s, word_end) {
        Ok((end, _)) => end,
        Err(stop) => {
            return Err(stop);
        },
    };
    let (condition_end, tested) = match condition_at(s, start) {
        Ok(found) => found,
        Err(stop) => {
            return Err(stop);
        },
    };
    let block_start = match blanks_at(s, condition_end) {
        Ok((end, _)) => end,
        Err(stop) => {
            return Err(stop);
        },
    };
    match block_at(s, block_start) {
        Ok((end, body)) => Ok((end, (tested, body))),
        Err(stop) => Err(stop),
    }
}

/// Reads an `if` at `pos`.
#[verifier::loop_isolation(false)]
pub fn conditional_at(s: &[char], pos: usize) -> (r: Step<If>)
    requires
        pos <= s@.len(),
    ensures
        step_view(r) == conditional(s@, pos as int),
        within(step_view(r), pos as int, s@.len() as int),
    decreases s@.len() - pos, 3int,
{
    proof {
        lemma_clause_sound(s@, pos as int, "if"@);
    }
    let (first_end, first) = match clause_at(s, pos, "if") {
        Ok(found) => found,
        Err(stop) => {
            return Err(stop);
        },
    };
    let (condition, expressions) = first;
    let mut else_ifs: Vec<(Condition, Vec<Expression>)> = Vec::new();
    assert(else_ifs.deep_view() =~= Seq::<(ConditionView, Seq<ExpressionView>)>::empty());
    let mut last: usize = first_end;
    let mut more = true;
    while more
        invariant
            pos < first_end <= last <= s@.len(),
            more ==> self::else_ifs(s@, first_end as int, Seq::empty()) == self::else_ifs(
                s@,
                last as int,
                else_ifs.deep_view(),
            ),
            !more ==> self::else_ifs(s@, first_end as int, Seq::empty()) == (Parsed::Done {
                end: last as int,
                value: else_ifs.deep_view(),
            }),
        decreases
                s@.len() - last,
                if more {
                    1int
                } else {
                    0int
                },
    {
        let start = skip_blanks_at(s, last);
        proof {
            lemma_clause_sound(s@, start as int, "elsif"@);
        }
        match clause_at(s, start, "elsif") {
            Ok((end, found)) => {
                let ghost read = else_ifs.deep_view();
                else_ifs.push(found);
                assert(else_ifs.deep_view() =~= read.push(found.deep_view()));
                last = end;
            },
            Err(Stop::Incomplete) => {
                return Err(Stop::Incomplete);
            },
            Err(Stop::Unmatched(_)) => {
                more = false;
            },
        }
    }
    let start = skip_blanks_at(s, last);
    let else_block = match keyword_at(s, start, "else") {
        Ok((word_end, _)) => {
            let block_start = skip_blanks_at(s, word_end);
            match block_at(s, block_start) {
                Ok((end, found)) => {
                    return Ok(
                        (end, If { condition, expressions, else_ifs, else_block: found }),
                    );
                },
                Err(Stop::Incomplete) => {
                    return Err(Stop::Incomplete);
                },
                Err(Stop::Unmatched(_)) => Vec::new(),
            }
        },
        Err(_) => Vec::new(),
    };
    assert(else_block.deep_view() =~= Seq::<ExpressionView>::empty());
    Ok((last, If { condition, expressions, else_ifs, else_block }))
}

} // verus!

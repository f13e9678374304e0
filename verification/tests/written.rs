// Scripts written out in the canonical way are read back as they were.

use sieve_client::parser::ast::{
    Condition, Expression, Flag, If, StringComparisonType, StringCondition,
};
use sieve_client::parser::{
    parse_condition, parse_expression, parse_expression_list, parse_script, parse_string_array,
};

fn quoted(text: &str) -> String {
    let mut out = String::from("\"");
    for c in text.chars() {
        if c == '\\' || c == '"' {
            out.push('\\');
        }
        out.push(c);
    }
    out.push('"');
    out
}

fn written_array(items: &[String]) -> String {
    let inner: Vec<String> = items.iter().map(|item| quoted(item)).collect();
    format!("[{}]", inner.join(", "))
}

fn written_comparison(test: &StringCondition) -> String {
    let word = match test.comparison_type {
        StringComparisonType::Is => ":is",
        StringComparisonType::Contains => ":contains",
        StringComparisonType::Matches => ":matches",
        StringComparisonType::Regex => ":regex",
    };
    format!("{} {} {}", word, quoted(&test.source), quoted(&test.value))
}

fn written_conditions(list: &[Condition]) -> String {
    let inner: Vec<String> = list.iter().map(written_condition).collect();
    inner.join(", ")
}

fn written_condition(condition: &Condition) -> String {
    match condition {
        Condition::Header(test) => format!("header {}", written_comparison(test)),
        Condition::Address(test) => format!("address {}", written_comparison(test)),
        Condition::AllOf(list) => format!("allof ({})", written_conditions(list)),
        Condition::AnyOf(list) => format!("anyof ({})", written_conditions(list)),
    }
}

fn flag_name(flag: &Flag) -> String {
    match flag {
        Flag::Seen => "\\Seen".to_string(),
        Flag::Flagged => "\\Flagged".to_string(),
        Flag::Answered => "\\Answered".to_string(),
        Flag::Deleted => "\\Deleted".to_string(),
        Flag::Draft => "\\Draft".to_string(),
        Flag::Recent => "\\Recent".to_string(),
        Flag::Custom(name) => name.clone(),
    }
}

fn written_flags(flags: &[Flag]) -> String {
    let names: Vec<String> = flags.iter().map(flag_name).collect();
    written_array(&names)
}

fn written_body(body: &[Expression]) -> String {
    let mut out = String::new();
    for statement in body {
        out.push(' ');
        out.push_str(&written_expression(statement));
    }
    out
}

fn written_block(body: &[Expression]) -> String {
    format!("{{{} }}", written_body(body))
}

fn written_expression(statement: &Expression) -> String {
    match statement {
        Expression::Require(names) => format!("require {};", written_array(names)),
        Expression::If(found) => {
            let mut out = format!(
                "if {} {}",
                written_condition(&found.condition),
                written_block(&found.expressions)
            );
            for (condition, body) in &found.else_ifs {
                out.push_str(&format!(
                    " elsif {} {}",
                    written_condition(condition),
                    written_block(body)
                ));
            }
            if !found.else_block.is_empty() {
                out.push_str(&format!(" else {}", written_block(&found.else_block)));
            }
            out
        }
        Expression::FileInto(folder) => format!("fileinto {};", quoted(folder)),
        Expression::AddFlag(flags) => format!("addflag {};", written_flags(flags)),
        Expression::RemoveFlag(flags) => format!("removeflag {};", written_flags(flags)),
        Expression::SetFlag(flags) => format!("setflag {};", written_flags(flags)),
        Expression::Discard => "discard;".to_string(),
        Expression::Keep => "keep;".to_string(),
        Expression::Stop => "stop;".to_string(),
    }
}

fn text(seed: usize) -> String {
    let samples = [
        "",
        "Subject",
        "a\\b",
        "say \"hi\"",
        "\\",
        "\"",
        "x, y",
        "[list]",
        "{n}",
        "else",
        "INBOX/Gerät – 草稿",
        "tab\there",
    ];
    samples[seed % samples.len()].to_string()
}

fn comparison(seed: usize) -> StringCondition {
    let kinds = [
        StringComparisonType::Is,
        StringComparisonType::Contains,
        StringComparisonType::Matches,
        StringComparisonType::Regex,
    ];
    StringCondition {
        comparison_type: kinds[seed % 4],
        source: text(seed / 4),
        value: text(seed / 3 + 1),
    }
}

fn condition(seed: usize, depth: usize) -> Condition {
    let mut others = Vec::new();
    if depth > 0 {
        for k in 0..(1 + seed % 3) {
            others.push(condition(seed * 7 + k * 5 + 1, depth - 1));
        }
    }
    match (depth, seed % 4) {
        (0, s) if s % 2 == 0 => Condition::Header(comparison(seed)),
        (0, _) => Condition::Address(comparison(seed)),
        (_, 0) => Condition::Header(comparison(seed)),
        (_, 1) => Condition::AllOf(others),
        (_, 2) => Condition::AnyOf(others),
        _ => Condition::Address(comparison(seed)),
    }
}

fn flags(seed: usize) -> Vec<Flag> {
    let all = [
        Flag::Seen,
        Flag::Flagged,
        Flag::Answered,
        Flag::Deleted,
        Flag::Draft,
        Flag::Recent,
        Flag::Custom("Muffin".to_string()),
        Flag::Custom("\\seen".to_string()),
        Flag::Custom("".to_string()),
    ];
    (0..(seed % 4))
        .map(|k| all[(seed + 2 * k) % all.len()].clone())
        .collect()
}

fn body(seed: usize, depth: usize) -> Vec<Expression> {
    (0..(seed % 4))
        .map(|k| statement(seed * 3 + k * 11 + 2, depth))
        .collect()
}

fn statement(seed: usize, depth: usize) -> Expression {
    match seed % 9 {
        0 => Expression::Require((0..(seed % 3)).map(|k| text(seed + k)).collect()),
        1 if depth > 0 => Expression::If(If {
            condition: condition(seed, 2),
            expressions: body(seed / 2, depth - 1),
            else_ifs: (0..(seed % 3))
                .map(|k| (condition(seed + k, 1), body(seed + k + 1, depth - 1)))
                .collect(),
            else_block: body(seed / 3, depth - 1),
        }),
        1 => Expression::Keep,
        2 => Expression::FileInto(text(seed)),
        3 => Expression::AddFlag(flags(seed)),
        4 => Expression::RemoveFlag(flags(seed / 2)),
        5 => Expression::SetFlag(flags(seed / 3)),
        6 => Expression::Discard,
        7 => Expression::Keep,
        _ => Expression::Stop,
    }
}

#[test]
fn arrays_are_read_back() {
    for seed in 0..40 {
        let items: Vec<String> = (0..(seed % 5)).map(|k| text(seed + k)).collect();
        let written = written_array(&items);
        assert_eq!(parse_string_array(&written), Ok(("", items)));
    }
}

#[test]
fn conditions_are_read_back() {
    for seed in 0..200 {
        for depth in 0..4 {
            let tree = condition(seed, depth);
            let written = written_condition(&tree);
            assert_eq!(parse_condition(&written), Ok(("", tree)), "{}", written);
        }
    }
}

#[test]
fn conditions_are_read_back_in_any_surroundings() {
    let tree = condition(5, 3);
    let written = format!("{} and more", written_condition(&tree));
    assert_eq!(parse_condition(&written), Ok((" and more", tree)));
}

#[test]
fn statements_are_read_back() {
    for seed in 0..300 {
        for depth in 0..3 {
            let tree = statement(seed, depth);
            let written = written_expression(&tree);
            assert_eq!(parse_expression(&written), Ok(("", tree)), "{}", written);
        }
    }
}

#[test]
fn scripts_are_read_back() {
    for seed in 0..120 {
        let script: Vec<Expression> = (0..(seed % 6))
            .map(|k| statement(seed + 13 * k, 2))
            .collect();
        let written = written_body(&script);
        assert_eq!(
            parse_expression_list(&written).map(|(rest, list)| (rest.len(), list.len())),
            Ok((0, script.len())),
            "{}",
            written
        );
        assert_eq!(parse_script(&written), Ok(script), "{}", written);
    }
}

#[test]
fn an_if_without_else_is_read_back_with_an_empty_else_block() {
    let tree = Expression::If(If {
        condition: condition(1, 2),
        expressions: vec![Expression::Keep],
        else_ifs: vec![
            (condition(2, 0), vec![Expression::Stop]),
            (condition(3, 1), vec![]),
            (condition(4, 0), vec![Expression::Discard]),
        ],
        else_block: vec![],
    });
    let written = written_expression(&tree);
    assert!(!written.contains("else {"));
    assert_eq!(parse_expression(&written), Ok(("", tree)));
}

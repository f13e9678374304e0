use sieve_client::parser::ast::{
    Condition, Expression, Flag, If, StringComparisonType, StringCondition,
};
use sieve_client::outcome::ParseError;
use sieve_client::parser::{
    flag_command_on, multispace1, parse_condition_list, parse_expression, parse_script,
    simple_if,
};
use sieve_client::parser::{
    multispace0 as blanks0, parse_condition as condition, parse_expression_list as statements,
    parse_flags as flags, parse_if as conditional, parse_require as requirement,
    parse_string as string, parse_string_array as array,
    parse_string_comparison_type as comparison,
};

fn test(kind: StringComparisonType, source: &str, value: &str) -> StringCondition {
    StringCondition {
        comparison_type: kind,
        source: source.to_string(),
        value: value.to_string(),
    }
}

#[test]
fn string_literals_know_two_escapes() {
    assert_eq!(string(r#""""#), Ok(("", "".to_string())));
    assert_eq!(string(r#""a" rest"#), Ok((" rest", "a".to_string())));
    assert_eq!(string(r#""\\""#), Ok(("", "\\".to_string())));
    assert_eq!(string(r#""\"""#), Ok(("", "\"".to_string())));
    assert_eq!(string(r#""\\\"\\""#), Ok(("", "\\\"\\".to_string())));
    assert_eq!(string("\"line\nbreak\""), Ok(("", "line\nbreak".to_string())));
    assert_eq!(string("\"ünï\""), Ok(("", "ünï".to_string())));
}

#[test]
fn any_other_backslash_is_a_literal_character() {
    assert_eq!(string(r#""a\xb""#), Ok(("", "a\\xb".to_string())));
    assert_eq!(string(r#""\n""#), Ok(("", "\\n".to_string())));
    assert_eq!(string(r#""\\n""#), Ok(("", "\\n".to_string())));
    assert_eq!(string(r#""C:\dir\""#), Err(ParseError::Incomplete));
    assert_eq!(string(r#""C:\dir\\""#), Ok(("", "C:\\dir\\".to_string())));
}

#[test]
fn string_literals_that_fail() {
    assert_eq!(string(""), Err(ParseError::Incomplete));
    assert_eq!(string("\""), Err(ParseError::Incomplete));
    assert_eq!(string("\"abc"), Err(ParseError::Incomplete));
    assert_eq!(string("\"abc\\"), Err(ParseError::Incomplete));
    assert_eq!(string("abc\""), Err(ParseError::Unmatched("abc\"")));
    assert_eq!(string(" \"a\""), Err(ParseError::Unmatched(" \"a\"")));
}

#[test]
fn quoting_and_decoding_round_trip() {
    for text in [
        "",
        "plain",
        "\\",
        "\"",
        "\\\"",
        "a\\b\"c",
        "\\\\\\",
        "\"\"\"",
        "say \"hi\" \\ bye",
        "ends with backslash\\",
    ] {
        let mut encoded = String::from("\"");
        for c in text.chars() {
            if c == '\\' || c == '"' {
                encoded.push('\\');
            }
            encoded.push(c);
        }
        encoded.push('"');
        assert_eq!(string(&encoded), Ok(("", text.to_string())));
    }
}

#[test]
fn blanks_are_four_characters() {
    assert_eq!(blanks0("abc"), Ok(("abc", "")));
    assert_eq!(blanks0(" \t\r\n x "), Ok(("x ", " \t\r\n ")));
    assert_eq!(blanks0("\u{a0}x"), Ok(("\u{a0}x", "")));
    assert_eq!(blanks0("\u{b}x"), Ok(("\u{b}x", "")));
    assert_eq!(multispace1(" x"), Ok(("x", " ")));
    assert_eq!(multispace1("\n\n"), Ok(("", "\n\n")));
    assert_eq!(multispace1("x"), Err(ParseError::Unmatched("x")));
    assert_eq!(multispace1(""), Err(ParseError::Unmatched("")));
}

#[test]
fn string_arrays_accept_zero_or_more_elements() {
    assert_eq!(array("[]"), Ok(("", vec![])));
    assert_eq!(array("[ \n ]"), Ok(("", vec![])));
    assert_eq!(array(r#"["a"]"#), Ok(("", vec!["a".to_string()])));
    assert_eq!(
        array("[\t\"a\"\n,\r\n\"b\" , \"c\" ]tail"),
        Ok((
            "tail",
            vec!["a".to_string(), "b".to_string(), "c".to_string()]
        ))
    );
}

#[test]
fn string_arrays_that_fail() {
    assert_eq!(array(""), Err(ParseError::Incomplete));
    assert_eq!(array("["), Err(ParseError::Incomplete));
    assert_eq!(array("[\"a\""), Err(ParseError::Incomplete));
    assert_eq!(array("[\"a\","), Err(ParseError::Incomplete));
    assert_eq!(array("[\"a\" "), Err(ParseError::Incomplete));
    assert_eq!(array("\"a\""), Err(ParseError::Unmatched("\"a\"")));
    assert_eq!(array("[\"a\", ]"), Err(ParseError::Unmatched(", ]")));
    assert_eq!(array("[,\"a\"]"), Err(ParseError::Unmatched(",\"a\"]")));
    assert_eq!(array("[\"a\" \"b\"]"), Err(ParseError::Unmatched("\"b\"]")));
    assert_eq!(array("[a]"), Err(ParseError::Unmatched("a]")));
}

#[test]
fn require_wants_its_space_and_its_semicolon() {
    assert_eq!(
        requirement("require    [\"a\"];x"),
        Ok(("x", vec!["a".to_string()]))
    );
    assert_eq!(requirement("require [];"), Ok(("", vec![])));
    assert_eq!(
        requirement("require[\"a\"];"),
        Err(ParseError::Unmatched("require[\"a\"];"))
    );
    assert_eq!(
        requirement("require\t[\"a\"];"),
        Err(ParseError::Unmatched("require\t[\"a\"];"))
    );
    assert_eq!(
        requirement("require [\"a\"] ;"),
        Err(ParseError::Unmatched(" ;"))
    );
    assert_eq!(requirement("require [\"a\"]"), Err(ParseError::Incomplete));
    assert_eq!(requirement("require "), Err(ParseError::Incomplete));
    assert_eq!(
        requirement("require \"a\";"),
        Err(ParseError::Unmatched("\"a\";"))
    );
}

#[test]
fn comparison_kinds() {
    assert_eq!(comparison(":regex"), Ok(("", StringComparisonType::Regex)));
    assert_eq!(comparison(":isx"), Ok(("x", StringComparisonType::Is)));
    assert_eq!(comparison(":Is"), Err(ParseError::Unmatched(":Is")));
    assert_eq!(comparison(":i"), Err(ParseError::Unmatched(":i")));
    assert_eq!(comparison(""), Err(ParseError::Unmatched("")));
}

#[test]
fn conditions_in_all_four_forms() {
    assert_eq!(
        condition("address :is \"from\" \"a@b.c\" rest"),
        Ok((
            " rest",
            Condition::Address(test(StringComparisonType::Is, "from", "a@b.c"))
        ))
    );
    assert_eq!(
        condition("header\t:regex\n\"Subject\"\r\n\"^x\""),
        Ok((
            "",
            Condition::Header(test(StringComparisonType::Regex, "Subject", "^x"))
        ))
    );
    assert_eq!(
        condition("anyof(header :is \"a\" \"b\")"),
        Ok((
            "",
            Condition::AnyOf(vec![Condition::Header(test(
                StringComparisonType::Is,
                "a",
                "b"
            ))])
        ))
    );
    assert_eq!(
        condition("allof  ( header :is \"a\" \"b\" , address :is \"c\" \"d\" )"),
        Ok((
            "",
            Condition::AllOf(vec![
                Condition::Header(test(StringComparisonType::Is, "a", "b")),
                Condition::Address(test(StringComparisonType::Is, "c", "d")),
            ])
        ))
    );
}

#[test]
fn nested_conditions_keep_depth_and_order() {
    assert_eq!(
        condition(
            r#"allof (header :contains "a" "b", anyof (header :is "c" "d", address :matches "e" "f"))"#
        ),
        Ok((
            "",
            Condition::AllOf(vec![
                Condition::Header(test(StringComparisonType::Contains, "a", "b")),
                Condition::AnyOf(vec![
                    Condition::Header(test(StringComparisonType::Is, "c", "d")),
                    Condition::Address(test(StringComparisonType::Matches, "e", "f")),
                ]),
            ])
        ))
    );
    assert_eq!(
        condition(r#"anyof (allof (anyof (header :is "a" "b")), header :is "c" "d")"#),
        Ok((
            "",
            Condition::AnyOf(vec![
                Condition::AllOf(vec![Condition::AnyOf(vec![Condition::Header(test(
                    StringComparisonType::Is,
                    "a",
                    "b"
                ))])]),
                Condition::Header(test(StringComparisonType::Is, "c", "d")),
            ])
        ))
    );
}

#[test]
fn condition_lists_reject_zero_elements() {
    assert_eq!(parse_condition_list("()"), Err(ParseError::Unmatched(")")));
    assert_eq!(parse_condition_list("(  )"), Err(ParseError::Unmatched(")")));
    assert_eq!(condition("allof ()"), Err(ParseError::Unmatched("allof ()")));
    assert_eq!(condition("anyof ()"), Err(ParseError::Unmatched(")")));
    assert_eq!(
        parse_condition_list("(header :is \"a\" \"b\",)"),
        Err(ParseError::Unmatched(",)"))
    );
    assert_eq!(
        parse_condition_list("(header :is \"a\" \"b\""),
        Err(ParseError::Incomplete)
    );
    assert_eq!(
        parse_condition_list("(header :is \"a\" \"b\")"),
        Ok((
            "",
            vec![Condition::Header(test(StringComparisonType::Is, "a", "b"))]
        ))
    );
}

#[test]
fn conditions_that_fail() {
    assert_eq!(condition(""), Err(ParseError::Unmatched("")));
    assert_eq!(condition("header"), Err(ParseError::Unmatched("header")));
    assert_eq!(
        condition("header:is \"a\" \"b\""),
        Err(ParseError::Unmatched("header:is \"a\" \"b\""))
    );
    assert_eq!(
        condition("header :is\"a\" \"b\""),
        Err(ParseError::Unmatched("header :is\"a\" \"b\""))
    );
    assert_eq!(condition("header :is "), Err(ParseError::Incomplete));
    assert_eq!(condition("header :is \"a\" "), Err(ParseError::Incomplete));
    assert_eq!(
        condition("Header :is \"a\" \"b\""),
        Err(ParseError::Unmatched("Header :is \"a\" \"b\""))
    );
    assert_eq!(condition("anyof x"), Err(ParseError::Unmatched("x")));
    assert_eq!(condition("anyof"), Err(ParseError::Incomplete));
    assert_eq!(condition("allof"), Err(ParseError::Incomplete));
}

#[test]
fn flags_are_matched_exactly() {
    assert_eq!(
        flags(r#"["\\Seen", "\\Flagged", "\\Answered", "\\Deleted", "\\Draft", "\\Recent"]"#),
        Ok((
            "",
            vec![
                Flag::Seen,
                Flag::Flagged,
                Flag::Answered,
                Flag::Deleted,
                Flag::Draft,
                Flag::Recent
            ]
        ))
    );
    assert_eq!(
        flags(r#"["\\seen", "\\SEEN", "Seen", "\\Seen ", "\\\\Seen", ""]"#),
        Ok((
            "",
            vec![
                Flag::Custom("\\seen".to_string()),
                Flag::Custom("\\SEEN".to_string()),
                Flag::Custom("Seen".to_string()),
                Flag::Custom("\\Seen ".to_string()),
                Flag::Custom("\\\\Seen".to_string()),
                Flag::Custom("".to_string()),
            ]
        ))
    );
    assert_eq!(flags(r#""\Seen""#), Ok(("", vec![Flag::Seen])));
    assert_eq!(flags("[]"), Ok(("", vec![])));
    assert_eq!(flags("x"), Err(ParseError::Unmatched("x")));
    assert_eq!(flags(""), Err(ParseError::Incomplete));
}

#[test]
fn flag_commands() {
    assert_eq!(
        flag_command_on("setflag", "setflag \"\\\\Seen\" ;x"),
        Ok(("x", vec![Flag::Seen]))
    );
    assert_eq!(
        flag_command_on("addflag", "addflag\"a\";"),
        Err(ParseError::Unmatched("\"a\";"))
    );
    assert_eq!(
        statements("addflag \"a\"; removeflag [\"b\"]; setflag [\"\\\\Draft\",\"c\"];"),
        Ok((
            "",
            vec![
                Expression::AddFlag(vec![Flag::Custom("a".to_string())]),
                Expression::RemoveFlag(vec![Flag::Custom("b".to_string())]),
                Expression::SetFlag(vec![Flag::Draft, Flag::Custom("c".to_string())]),
            ]
        ))
    );
}

#[test]
fn bare_actions_and_fileinto() {
    assert_eq!(
        statements("discard;keep;stop;"),
        Ok((
            "",
            vec![Expression::Discard, Expression::Keep, Expression::Stop]
        ))
    );
    assert_eq!(
        parse_expression("  fileinto \"INBOX/x\";rest"),
        Ok(("rest", Expression::FileInto("INBOX/x".to_string())))
    );
    assert_eq!(
        parse_expression("keep ;"),
        Err(ParseError::Unmatched("keep ;"))
    );
    assert_eq!(
        parse_expression("fileinto \"x\" ;"),
        Err(ParseError::Unmatched(" ;"))
    );
    assert_eq!(
        parse_expression("fileinto\"x\";"),
        Err(ParseError::Unmatched("\"x\";"))
    );
    assert_eq!(parse_expression("fileinto \"x\""), Err(ParseError::Incomplete));
    assert_eq!(parse_expression(""), Err(ParseError::Unmatched("")));
    assert_eq!(parse_expression("  "), Err(ParseError::Unmatched("")));
    assert_eq!(parse_expression("Keep;"), Err(ParseError::Unmatched("Keep;")));
}

#[test]
fn statement_lists_stop_before_what_is_no_statement() {
    assert_eq!(statements(""), Ok(("", vec![])));
    assert_eq!(statements("  \n"), Ok(("  \n", vec![])));
    assert_eq!(statements("keep; "), Ok((" ", vec![Expression::Keep])));
    assert_eq!(
        statements("keep; nonsense; stop;"),
        Ok((" nonsense; stop;", vec![Expression::Keep]))
    );
    assert_eq!(
        statements("keep; fileinto \"unterminated"),
        Err(ParseError::Incomplete)
    );
}

#[test]
fn if_without_else_has_an_empty_else_block() {
    let parsed = conditional("if header :is \"a\" \"b\" {keep;} stop;");
    assert_eq!(
        parsed,
        Ok((
            " stop;",
            If {
                condition: Condition::Header(test(StringComparisonType::Is, "a", "b")),
                expressions: vec![Expression::Keep],
                else_ifs: vec![],
                else_block: vec![],
            }
        ))
    );
    let empty = conditional("if header :is \"a\" \"b\" {}");
    assert_eq!(
        empty,
        Ok((
            "",
            If {
                condition: Condition::Header(test(StringComparisonType::Is, "a", "b")),
                expressions: vec![],
                else_ifs: vec![],
                else_block: vec![],
            }
        ))
    );
}

#[test]
fn elsif_clauses_keep_their_order() {
    let parsed = conditional(
        "if header :is \"a\" \"1\" { keep; }elsif header :is \"b\" \"2\" { stop; }\n\
         elsif header :is \"c\" \"3\" { discard; } elsif header :is \"d\" \"4\" { }else{ keep; stop; }",
    );
    assert_eq!(
        parsed,
        Ok((
            "",
            If {
                condition: Condition::Header(test(StringComparisonType::Is, "a", "1")),
                expressions: vec![Expression::Keep],
                else_ifs: vec![
                    (
                        Condition::Header(test(StringComparisonType::Is, "b", "2")),
                        vec![Expression::Stop]
                    ),
                    (
                        Condition::Header(test(StringComparisonType::Is, "c", "3")),
                        vec![Expression::Discard]
                    ),
                    (
                        Condition::Header(test(StringComparisonType::Is, "d", "4")),
                        vec![]
                    ),
                ],
                else_block: vec![Expression::Keep, Expression::Stop],
            }
        ))
    );
}

#[test]
fn nested_ifs() {
    let parsed = statements(
        "if header :is \"a\" \"1\" { if address :is \"b\" \"2\" { keep; } else { stop; } discard; }",
    );
    assert_eq!(
        parsed,
        Ok((
            "",
            vec![Expression::If(If {
                condition: Condition::Header(test(StringComparisonType::Is, "a", "1")),
                expressions: vec![
                    Expression::If(If {
                        condition: Condition::Address(test(StringComparisonType::Is, "b", "2")),
                        expressions: vec![Expression::Keep],
                        else_ifs: vec![],
                        else_block: vec![Expression::Stop],
                    }),
                    Expression::Discard,
                ],
                else_ifs: vec![],
                else_block: vec![],
            })]
        ))
    );
}

#[test]
fn ifs_that_fail() {
    assert_eq!(
        conditional("if header :is \"a\" \"b\"{keep;}"),
        Err(ParseError::Unmatched("{keep;}"))
    );
    assert_eq!(
        conditional("ifheader :is \"a\" \"b\" {keep;}"),
        Err(ParseError::Unmatched("header :is \"a\" \"b\" {keep;}"))
    );
    assert_eq!(
        conditional("if header :is \"a\" \"b\" {keep;"),
        Err(ParseError::Incomplete)
    );
    assert_eq!(
        conditional("if header :is \"a\" \"b\" {keep; nonsense }"),
        Err(ParseError::Unmatched("nonsense }"))
    );
    assert_eq!(
        conditional("if header :is \"a\" \"b\" {keep;} else"),
        Err(ParseError::Incomplete)
    );
    assert_eq!(
        conditional("if header :is \"a\" \"b\" {keep;} elsif"),
        Ok((
            " elsif",
            If {
                condition: Condition::Header(test(StringComparisonType::Is, "a", "b")),
                expressions: vec![Expression::Keep],
                else_ifs: vec![],
                else_block: vec![],
            }
        ))
    );
    assert_eq!(
        conditional("if header :is \"a\" \"b\" {keep;} else x"),
        Ok((
            " else x",
            If {
                condition: Condition::Header(test(StringComparisonType::Is, "a", "b")),
                expressions: vec![Expression::Keep],
                else_ifs: vec![],
                else_block: vec![],
            }
        ))
    );
    assert_eq!(
        simple_if("elsif", "elsif header :is \"a\" \"b\" {}"),
        Ok((
            "",
            (
                Condition::Header(test(StringComparisonType::Is, "a", "b")),
                vec![]
            )
        ))
    );
    assert_eq!(
        simple_if("if", "elsif header :is \"a\" \"b\" {}"),
        Err(ParseError::Unmatched("elsif header :is \"a\" \"b\" {}"))
    );
}

#[test]
fn end_to_end_scenario() {
    let source = r#"require ["fileinto"]; if header :contains "Subject" "urgent" { fileinto "Urgent"; } else { discard; }"#;
    let expected = vec![
        Expression::Require(vec!["fileinto".to_string()]),
        Expression::If(If {
            condition: Condition::Header(test(
                StringComparisonType::Contains,
                "Subject",
                "urgent",
            )),
            expressions: vec![Expression::FileInto("Urgent".to_string())],
            else_ifs: vec![],
            else_block: vec![Expression::Discard],
        }),
    ];
    assert_eq!(statements(source).map(|(_, list)| list.len()), Ok(2));
    assert_eq!(statements(source), Ok(("", expected)));
    assert_eq!(parse_script(source).map(|list| list.len()), Ok(2));
}

#[test]
fn whole_scripts() {
    assert_eq!(parse_script(""), Ok(vec![]));
    assert_eq!(parse_script(" \r\n\t"), Ok(vec![]));
    assert_eq!(
        parse_script("keep;\n stop;\n"),
        Ok(vec![Expression::Keep, Expression::Stop])
    );
    assert_eq!(
        parse_script("keep;\n nonsense;\n"),
        Err(ParseError::Unmatched("nonsense;\n"))
    );
    assert_eq!(
        parse_script("keep; require [\"a\""),
        Err(ParseError::Incomplete)
    );
    assert_eq!(
        parse_script("if header :is \"a\" \"b\" { keep; } else { stop; } }"),
        Err(ParseError::Unmatched("}"))
    );
    assert_eq!(
        parse_script("keep; fileinto \"a\" ;"),
        Err(ParseError::Unmatched(" ;"))
    );
}

#[test]
fn texts_with_characters_of_several_bytes() {
    assert_eq!(
        statements("fileinto \"Entwürfe – 草稿\"; keep;"),
        Ok((
            "",
            vec![
                Expression::FileInto("Entwürfe – 草稿".to_string()),
                Expression::Keep
            ]
        ))
    );
    assert_eq!(
        statements("keep; fileinto \"ä\" ü"),
        Ok((" fileinto \"ä\" ü", vec![Expression::Keep]))
    );
    assert_eq!(
        parse_script("keep; ünknown"),
        Err(ParseError::Unmatched("ünknown"))
    );
}

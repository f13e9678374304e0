use sieve_client::protocol::command::{
    check_script_request, delete_script_outcome, delete_script_request, get_script_request,
    list_scripts_line, list_scripts_request, parse_script_line, put_script_outcome,
    put_script_request, rename_script_outcome, rename_script_request, set_active_outcome,
    set_active_request, CheckScript, GetScript, Listing, Need, LITERAL_FRAMING,
};
use sieve_client::error::ManageSieveError;
use sieve_client::protocol::response::{
    classify, find_diagnostic, parse_literal_length, parse_trailing_literal_length, Diagnostic,
    ResponseLine, Status,
};

fn line(text: &str) -> ResponseLine {
    ResponseLine::read(text)
}

fn chars(text: &str) -> Vec<char> {
    text.chars().collect()
}

#[test]
fn classification_ignores_case() {
    for ok in ["OK done", "ok done", "Ok done", "oK", "  ok  \r\n"] {
        assert_eq!(classify(ok), Status::Okay);
    }
    for no in ["NO refused", "no refused", "No", "nO way"] {
        assert_eq!(classify(no), Status::No);
    }
    for bye in ["BYE", "bye now", "Bye", "bYe"] {
        assert_eq!(classify(bye), Status::Bye);
    }
    for other in ["", "O K", "HELLO", "\"OK\"", "{3}", "B YE"] {
        assert_eq!(classify(other), Status::Other);
    }
}

#[test]
fn response_line_is_trimmed_and_uppercased() {
    let read = line("  \t ok Fine \r\n");
    assert_eq!(read.to_text(), "ok Fine");
    assert_eq!(read.to_upper_text(), "OK FINE");
    assert!(!read.is_blank());
    assert!(line(" \r\n").is_blank());
    assert_eq!(line("straße").to_upper_text(), "STRASSE");
}

#[test]
fn requests_have_the_wire_format() {
    assert_eq!(list_scripts_request(), "LISTSCRIPTS\r\n");
    assert_eq!(get_script_request("main"), "GETSCRIPT \"main\"\r\n");
    assert_eq!(delete_script_request("old"), "DELETESCRIPT \"old\"\r\n");
    assert_eq!(
        rename_script_request("old", "new"),
        "RENAMESCRIPT \"old\" \"new\"\r\n"
    );
    assert_eq!(set_active_request("main"), "SETACTIVE \"main\"\r\n");
    assert_eq!(
        put_script_request("main", "keep;"),
        "PUTSCRIPT \"main\" {5}keep;"
    );
    assert_eq!(check_script_request("stop;\r\n"), "CHECKSCRIPT {7}stop;\r\n");
}

#[test]
fn literal_length_counts_bytes() {
    assert_eq!(
        put_script_request("m", "héllo"),
        "PUTSCRIPT \"m\" {6}héllo"
    );
    assert_eq!(put_script_request("m", "é"), "PUTSCRIPT \"m\" {2}é");
    assert_eq!(put_script_request("m", ""), "PUTSCRIPT \"m\" {0}");
    assert_eq!(check_script_request(""), "CHECKSCRIPT {0}");
    let long = "x".repeat(1234);
    assert_eq!(
        check_script_request(&long),
        format!("CHECKSCRIPT {{1234}}{}", long)
    );
    let stored = put_script_request("main", "keep;\r\n");
    assert!(stored.ends_with("}keep;\r\n"));
    assert!(!stored.contains("}\r\n"));
}

#[test]
fn literal_header_is_read() {
    assert_eq!(parse_literal_length(&chars("{11}")), Some(11));
    assert_eq!(parse_literal_length(&chars("{0}")), Some(0));
    assert_eq!(parse_literal_length(&chars("{+7}")), Some(7));
    assert_eq!(parse_literal_length(&chars("{007}")), Some(7));
    assert_eq!(parse_literal_length(&chars("{}")), None);
    assert_eq!(parse_literal_length(&chars("{")), None);
    assert_eq!(parse_literal_length(&chars("}")), None);
    assert_eq!(parse_literal_length(&chars("{+}")), None);
    assert_eq!(parse_literal_length(&chars("{-1}")), None);
    assert_eq!(parse_literal_length(&chars("{1 }")), None);
    assert_eq!(parse_literal_length(&chars("{abc}")), None);
    assert_eq!(parse_literal_length(&chars("{12} ")), None);
    assert_eq!(parse_literal_length(&chars("OK {12}")), None);
    assert_eq!(
        parse_literal_length(&chars("{99999999999999999999999999}")),
        None
    );
    assert_eq!(
        parse_literal_length(&chars(&format!("{{{}}}", usize::MAX))),
        Some(usize::MAX)
    );
}

#[test]
fn literal_framing_of_a_fetched_script() {
    // {10}\r\n, the ten bytes hello\r\nbye, \r\n, and OK
    let state = GetScript::begin("main");
    assert_eq!(state.need(), Some(Need::Line));
    let state = state.line(&line("{10}\r\n"));
    assert_eq!(state.need(), Some(Need::Bytes(10)));
    let content = b"hello\r\nbye".to_vec();
    assert_eq!(content.len(), 10);
    let state = state.bytes(content);
    assert_eq!(state.need(), Some(Need::Bytes(2)));
    assert_eq!(LITERAL_FRAMING, 2);
    let state = state.bytes(b"\r\n".to_vec());
    assert_eq!(state.need(), Some(Need::Line));
    let state = state.line(&line("OK\r\n"));
    assert_eq!(state.need(), None);
    assert_eq!(state, GetScript::Finished(Ok("hello\r\nbye".to_string())));
}

#[test]
fn a_literal_takes_exactly_the_bytes_announced() {
    // {11}\r\nhello\r\nbye\r\nOK\r\n: eleven bytes reach into the framing,
    // so the two bytes behind them are not the line end and no OK follows.
    let wire = b"hello\r\nbye\r\nOK\r\n";
    let state = GetScript::begin("main").line(&line("{11}\r\n"));
    assert_eq!(state.need(), Some(Need::Bytes(11)));
    let state = state.bytes(wire[..11].to_vec());
    assert_eq!(state.need(), Some(Need::Bytes(2)));
    let state = state.bytes(wire[11..13].to_vec());
    assert_eq!(state.need(), Some(Need::Line));
    let rest = String::from_utf8(wire[13..].to_vec()).unwrap();
    assert_eq!(rest, "K\r\n");
    let state = state.line(&line(&rest));
    assert_eq!(
        state,
        GetScript::Finished(Err(ManageSieveError::ServerError("K".to_string())))
    );
}

#[test]
fn events_that_were_not_asked_for_change_nothing() {
    let waiting = GetScript::begin("main").line(&line("{3}"));
    assert_eq!(waiting.need(), Some(Need::Bytes(3)));
    let still = waiting.line(&line("OK"));
    assert_eq!(still, GetScript::Content { length: 3 });
    let header = GetScript::begin("main").bytes(vec![1, 2, 3]);
    assert_eq!(header.need(), Some(Need::Line));
    let done = CheckScript::begin().line(&line("OK")).bytes(b"x");
    assert_eq!(done, CheckScript::Finished(Ok(None)));
    let begun = CheckScript::begin().bytes(b"x");
    assert_eq!(begun, CheckScript::Status);
}

#[test]
fn fetched_script_with_invalid_utf8_is_repaired() {
    let state = GetScript::begin("main").line(&line("{4}"));
    let state = state.bytes(vec![b'a', 0xff, b'b', 0xfe]);
    let state = state.bytes(b"\r\n".to_vec());
    let state = state.line(&line("ok"));
    assert_eq!(
        state,
        GetScript::Finished(Ok("a\u{fffd}b\u{fffd}".to_string()))
    );
}

#[test]
fn fetch_failures() {
    assert_eq!(
        GetScript::begin("main").line(&line("NO \"gone\"")),
        GetScript::Finished(Err(ManageSieveError::ScriptNotFound("main".to_string())))
    );
    assert_eq!(
        GetScript::begin("main").line(&line("bye \"shutting down\"\r\n")),
        GetScript::Finished(Err(ManageSieveError::ServerError(
            "bye \"shutting down\"".to_string()
        )))
    );
    assert_eq!(
        GetScript::begin("main").line(&line("OK")),
        GetScript::Finished(Err(ManageSieveError::InvalidResponse("OK".to_string())))
    );
    assert_eq!(
        GetScript::begin("main").line(&line("what")),
        GetScript::Finished(Err(ManageSieveError::InvalidResponse("what".to_string())))
    );
    assert_eq!(
        GetScript::begin("main").line(&line("{abc}")),
        GetScript::Finished(Err(ManageSieveError::ProtocolError(
            "Invalid literal length format".to_string()
        )))
    );
    assert_eq!(
        GetScript::begin("main").line(&line("{")),
        GetScript::Finished(Err(ManageSieveError::ProtocolError(
            "Invalid literal length format".to_string()
        )))
    );
    let state = GetScript::begin("main")
        .line(&line("{1}"))
        .bytes(vec![b'x'])
        .bytes(b"\r\n".to_vec())
        .line(&line("No \"quota\""));
    assert_eq!(
        state,
        GetScript::Finished(Err(ManageSieveError::ServerError(
            "NO \"QUOTA\"".to_string()
        )))
    );
}

#[test]
fn stored_script_outcomes() {
    assert_eq!(put_script_outcome(&line("OK")), Ok(()));
    assert_eq!(
        put_script_outcome(&line("NO \"line 2: error\"\r\n")),
        Err(ManageSieveError::ServerError(
            "NO \"line 2: error\"".to_string()
        ))
    );
    assert_eq!(
        put_script_outcome(&line("BYE")),
        Err(ManageSieveError::ServerError("BYE".to_string()))
    );
    assert_eq!(
        put_script_outcome(&line("??")),
        Err(ManageSieveError::InvalidResponse("??".to_string()))
    );
}

#[test]
fn named_script_outcomes() {
    assert_eq!(delete_script_outcome("a", &line("ok")), Ok(()));
    assert_eq!(
        delete_script_outcome("a", &line("NO")),
        Err(ManageSieveError::ScriptNotFound("a".to_string()))
    );
    assert_eq!(
        rename_script_outcome("old", &line("no such script")),
        Err(ManageSieveError::ScriptNotFound("old".to_string()))
    );
    assert_eq!(
        set_active_outcome("a", &line("BYE bye")),
        Err(ManageSieveError::ServerError("BYE bye".to_string()))
    );
    assert_eq!(
        set_active_outcome("a", &line("maybe")),
        Err(ManageSieveError::InvalidResponse("maybe".to_string()))
    );
    assert_eq!(rename_script_outcome("old", &line("OK")), Ok(()));
    assert_eq!(set_active_outcome("a", &line("OK")), Ok(()));
}

#[test]
fn listing_is_read_line_by_line() {
    let mut scripts = Vec::new();
    assert_eq!(
        list_scripts_line(&mut scripts, &line("\"summer\"\r\n")),
        Listing::More
    );
    assert_eq!(
        list_scripts_line(&mut scripts, &line("\"main\" ACTIVE\r\n")),
        Listing::More
    );
    assert_eq!(list_scripts_line(&mut scripts, &line("\r\n")), Listing::More);
    assert_eq!(
        list_scripts_line(&mut scripts, &line("* comment")),
        Listing::More
    );
    assert_eq!(
        list_scripts_line(&mut scripts, &line("\"broken")),
        Listing::More
    );
    assert_eq!(
        list_scripts_line(&mut scripts, &line("\"third\" active")),
        Listing::More
    );
    assert_eq!(
        list_scripts_line(&mut scripts, &line("OK \"Listscripts completed.\"")),
        Listing::Finished
    );
    assert_eq!(
        scripts,
        vec![
            ("summer".to_string(), false),
            ("main".to_string(), true),
            ("third".to_string(), true),
        ]
    );
}

#[test]
fn listing_fails_on_refusal() {
    let mut scripts = vec![("a".to_string(), false)];
    assert_eq!(
        list_scripts_line(&mut scripts, &line("NO \"not allowed\"")),
        Listing::Failed(ManageSieveError::ServerError(
            "NO \"not allowed\"".to_string()
        ))
    );
    assert_eq!(
        list_scripts_line(&mut scripts, &line("bye")),
        Listing::Failed(ManageSieveError::ServerError("bye".to_string()))
    );
    assert_eq!(scripts, vec![("a".to_string(), false)]);
}

#[test]
fn active_mark_is_sought_in_the_whole_line() {
    assert_eq!(
        parse_script_line(&line("\"inactive\"")),
        Some(("inactive".to_string(), true))
    );
    assert_eq!(
        parse_script_line(&line("\"x\" Active")),
        Some(("x".to_string(), true))
    );
    assert_eq!(
        parse_script_line(&line("\"x\" ACTIV")),
        Some(("x".to_string(), false))
    );
    assert_eq!(parse_script_line(&line("x")), None);
    assert_eq!(parse_script_line(&line("")), None);
    assert_eq!(parse_script_line(&line("\"\"")), Some(("".to_string(), false)));
}

#[test]
fn diagnostics_are_found() {
    assert_eq!(
        find_diagnostic(&chars("NO \"line 3: unknown command\""), "f".to_string()),
        Diagnostic::Text("line 3: unknown command".to_string())
    );
    assert_eq!(
        find_diagnostic(&chars("NO \"a\" and \"b\""), "f".to_string()),
        Diagnostic::Text("a\" and \"b".to_string())
    );
    assert_eq!(
        find_diagnostic(&chars("NO \"only one quote"), "f".to_string()),
        Diagnostic::Text("f".to_string())
    );
    assert_eq!(
        find_diagnostic(&chars("NO \"\""), "f".to_string()),
        Diagnostic::Text("".to_string())
    );
    assert_eq!(
        find_diagnostic(&chars("{12}"), "f".to_string()),
        Diagnostic::Literal(12)
    );
    assert_eq!(
        find_diagnostic(&chars("NO {12}"), "f".to_string()),
        Diagnostic::Literal(12)
    );
    assert_eq!(
        find_diagnostic(&chars("OK (WARNINGS) {+7}"), "f".to_string()),
        Diagnostic::Literal(7)
    );
    assert_eq!(
        find_diagnostic(&chars("NO {a} {3}"), "f".to_string()),
        Diagnostic::Literal(3)
    );
    assert_eq!(
        find_diagnostic(&chars("NO \"see\" {12}"), "f".to_string()),
        Diagnostic::Text("see".to_string())
    );
    assert_eq!(
        find_diagnostic(&chars("NO \"see {12}"), "f".to_string()),
        Diagnostic::Text("f".to_string())
    );
    assert_eq!(
        find_diagnostic(&chars("NO \"a\" \"b\" {12}"), "f".to_string()),
        Diagnostic::Text("a\" \"b".to_string())
    );
    for none in ["NO {12} ", "NO {12", "NO 12}", "NO {}", "NO {x}", "NO {1{}", "NO {-1}", "}", "{"] {
        assert_eq!(
            find_diagnostic(&chars(none), "f".to_string()),
            Diagnostic::Text("f".to_string()),
            "{}",
            none
        );
    }
    assert_eq!(parse_trailing_literal_length(&chars("NO {1{2}")), Some(2));
    assert_eq!(parse_trailing_literal_length(&chars("NO {5}")), Some(5));
    assert_eq!(parse_trailing_literal_length(&chars("{5}")), Some(5));
    assert_eq!(parse_trailing_literal_length(&chars("NO {5} x")), None);
    assert_eq!(parse_trailing_literal_length(&chars("")), None);
    assert_eq!(
        find_diagnostic(&chars("NO"), "f".to_string()),
        Diagnostic::Text("f".to_string())
    );
}

#[test]
fn check_outcomes() {
    let begin = CheckScript::begin();
    assert_eq!(begin.need(), Some(Need::Line));
    assert_eq!(
        CheckScript::begin().line(&line("OK")),
        CheckScript::Finished(Ok(None))
    );
    assert_eq!(
        CheckScript::begin().line(&line("OK \"fine\"")),
        CheckScript::Finished(Ok(None))
    );
    assert_eq!(
        CheckScript::begin().line(&line("OK (WARNINGS) \"line 8: server redirect\"")),
        CheckScript::Finished(Ok(Some("line 8: server redirect".to_string())))
    );
    assert_eq!(
        CheckScript::begin().line(&line("ok (warnings)")),
        CheckScript::Finished(Ok(Some("Script has warnings".to_string())))
    );
    assert_eq!(
        CheckScript::begin().line(&line("OK (WARNINGS) \"")),
        CheckScript::Finished(Ok(Some("Script has warnings".to_string())))
    );
    assert_eq!(
        CheckScript::begin().line(&line("OK (WARNINGS) {10}")),
        CheckScript::WarningLiteral { length: 10 }
    );
    assert_eq!(
        CheckScript::begin().line(&line("OK {10}")),
        CheckScript::Finished(Ok(None))
    );
    assert_eq!(
        CheckScript::begin().line(&line("OK (WARNINGS) {x}")),
        CheckScript::Finished(Ok(Some("Script has warnings".to_string())))
    );
    assert_eq!(
        CheckScript::begin().line(&line("NO \"line 2: syntax error\"")),
        CheckScript::Finished(Err(ManageSieveError::ServerError(
            "line 2: syntax error".to_string()
        )))
    );
    assert_eq!(
        CheckScript::begin().line(&line("NO syntax error")),
        CheckScript::Finished(Err(ManageSieveError::ServerError(
            "NO syntax error".to_string()
        )))
    );
    assert_eq!(
        CheckScript::begin().line(&line("BYE \"too many\"")),
        CheckScript::Finished(Err(ManageSieveError::ServerError(
            "BYE \"too many\"".to_string()
        )))
    );
    assert_eq!(
        CheckScript::begin().line(&line("huh")),
        CheckScript::Finished(Err(ManageSieveError::InvalidResponse("huh".to_string())))
    );
}

#[test]
fn a_refusal_with_its_message_in_a_literal() {
    // NO {5}\r\n followed by the five bytes hello
    let state = CheckScript::begin();
    assert_eq!(state.need(), Some(Need::Line));
    let state = state.line(&line("NO {5}\r\n"));
    assert_eq!(state, CheckScript::ErrorLiteral { length: 5 });
    assert_eq!(state.need(), Some(Need::Bytes(5)));
    let state = state.bytes(b"hello");
    assert_eq!(state.need(), None);
    assert_eq!(
        state,
        CheckScript::Finished(Err(ManageSieveError::ServerError("hello".to_string())))
    );
}

#[test]
fn warnings_with_their_message_in_a_literal() {
    let state = CheckScript::begin().line(&line("ok (Warnings) {12}\r\n"));
    assert_eq!(state.need(), Some(Need::Bytes(12)));
    let state = state.bytes("line 3: hmm…".as_bytes()[..12].to_vec().as_slice());
    assert_eq!(
        state,
        CheckScript::Finished(Ok(Some("line 3: hmm\u{fffd}".to_string())))
    );
}

#[test]
fn check_messages_in_literals() {
    let warning = CheckScript::WarningLiteral { length: 5 };
    assert_eq!(warning.need(), Some(Need::Bytes(5)));
    assert_eq!(
        warning.bytes(b"watch"),
        CheckScript::Finished(Ok(Some("watch".to_string())))
    );
    let error = CheckScript::ErrorLiteral { length: 3 };
    assert_eq!(error.need(), Some(Need::Bytes(3)));
    assert_eq!(
        error.bytes(&[b'n', 0xc3, b'o']),
        CheckScript::Finished(Err(ManageSieveError::ServerError(
            "n\u{fffd}o".to_string()
        )))
    );
}

#[test]
fn error_messages() {
    assert_eq!(
        ManageSieveError::IoError("broken pipe".to_string()).message(),
        "IO error: broken pipe"
    );
    assert_eq!(
        ManageSieveError::ProtocolError("bad literal".to_string()).message(),
        "Protocol error: bad literal"
    );
    assert_eq!(
        ManageSieveError::ServerError("NO".to_string()).message(),
        "Server error: NO"
    );
    assert_eq!(
        ManageSieveError::ScriptNotFound("main".to_string()).message(),
        "Script not found: main"
    );
    assert_eq!(
        ManageSieveError::InvalidResponse("??".to_string()).message(),
        "Invalid response: ??"
    );
}

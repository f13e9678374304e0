use sieve_client::protocol::auth::{
    authenticate_outcome, authenticate_request, credential_can_be_encoded,
};
use sieve_client::protocol::response::parse_quoted_string;
use sieve_client::protocol::capability::{
    capabilities_line, is_end_of_announcement, parse_capability, parse_capability_line,
    parse_redirect_limit, update_capabilities, Capabilities,
};
use sieve_client::error::ConnectError;
use sieve_client::protocol::handshake::{Ask, Handshake, Phase, Stage};
use sieve_client::protocol::name_map::NameMap;
use sieve_client::outcome::ParseError;
use sieve_client::protocol::response::ResponseLine;

fn line(text: &str) -> ResponseLine {
    ResponseLine::read(text)
}

fn until_tls(host: &str) -> Handshake {
    let (mut machine, ask) = Handshake::new(host.to_string(), 4190, "user", "pass");
    assert_eq!(ask, Ask::Connect(format!("{}:4190", host)));
    assert_eq!(machine.stage(), Stage::Connecting);
    assert_eq!(machine.phase(), Some(Phase::Disconnected));
    assert_eq!(machine.connected(), Ask::ReadLine);
    assert_eq!(machine.phase(), Some(Phase::TcpConnected));
    assert_eq!(
        machine.line(&line("\"IMPLEMENTATION\" \"Example\"\r\n")),
        Ask::ReadLine
    );
    assert_eq!(machine.line(&line("\"STARTTLS\"\r\n")), Ask::ReadLine);
    assert_eq!(machine.line(&line("\r\n")), Ask::ReadLine);
    assert_eq!(
        machine.line(&line("OK \"ready\"\r\n")),
        Ask::Write("STARTTLS\r\n".to_string())
    );
    assert_eq!(machine.phase(), Some(Phase::GreetingConsumed));
    assert_eq!(machine.capabilities().implementation, None);
    assert_eq!(machine.written(), Ask::ReadLine);
    assert_eq!(machine.phase(), Some(Phase::TlsRequested));
    machine
}

fn until_capabilities() -> Handshake {
    let mut machine = until_tls("mail.example.com");
    assert_eq!(
        machine.line(&line("OK \"Begin TLS negotiation now.\"\r\n")),
        Ask::Upgrade("mail.example.com".to_string())
    );
    assert_eq!(machine.stage(), Stage::Securing);
    assert_eq!(machine.phase(), Some(Phase::TlsRequested));
    assert_eq!(machine.upgraded(), Ask::ReadLine);
    assert_eq!(machine.phase(), Some(Phase::TlsEstablished));
    machine
}

#[test]
fn handshake_runs_to_a_ready_session() {
    let mut machine = until_capabilities();
    assert_eq!(
        machine.line(&line("\"IMPLEMENTATION\" \"Example\"\r\n")),
        Ask::ReadLine
    );
    assert_eq!(
        machine.line(&line("\"SASL\" \"LOGIN PLAIN\"\r\n")),
        Ask::ReadLine
    );
    assert_eq!(machine.line(&line("garbage\r\n")), Ask::ReadLine);
    assert_eq!(
        machine.line(&line("\"X-THING\" \"1\"\r\n")),
        Ask::ReadLine
    );
    assert_eq!(
        machine.line(&line("Ok\r\n")),
        Ask::Write("AUTHENTICATE \"PLAIN\" \"AHVzZXIAcGFzcw==\"\r\n".to_string())
    );
    assert_eq!(machine.phase(), Some(Phase::CapabilitiesKnown));
    assert_eq!(machine.written(), Ask::ReadLine);
    assert_eq!(machine.stage(), Stage::AwaitingVerdict);
    assert_eq!(machine.line(&line("OK \"Logged in.\"\r\n")), Ask::Ready);
    assert_eq!(machine.stage(), Stage::Ready);
    assert_eq!(machine.phase(), Some(Phase::Authenticated));
    let capabilities = machine.into_capabilities();
    assert_eq!(capabilities.implementation, Some("Example".to_string()));
    assert_eq!(capabilities.sasl, vec!["LOGIN", "PLAIN"]);
    assert_eq!(capabilities.other.get("X-THING"), Some(&"1".to_string()));
    assert!(!capabilities.starttls);
}

#[test]
fn handshake_fails_when_the_upgrade_is_refused() {
    let mut machine = until_tls("mail.example.com");
    assert_eq!(
        machine.line(&line("NO \"TLS not available\"\r\n")),
        Ask::Abort(ConnectError::ProtocolError(
            "STARTTLS failed: NO \"TLS not available\"".to_string()
        ))
    );
    assert_eq!(machine.stage(), Stage::Failed);
    assert_eq!(machine.phase(), None);
}

#[test]
fn handshake_fails_on_a_host_that_is_no_server_name() {
    for host in ["", " ", "invalid..hostname", "-x.example", "a b"] {
        let mut machine = until_tls(host);
        assert_eq!(
            machine.line(&line("OK\r\n")),
            Ask::Abort(ConnectError::ProtocolError("Invalid hostname".to_string()))
        );
        assert_eq!(machine.stage(), Stage::Failed);
    }
    for host in ["example.com", "mail.example.com", "localhost", "127.0.0.1", "::1"] {
        let mut machine = until_tls(host);
        assert_eq!(machine.line(&line("OK\r\n")), Ask::Upgrade(host.to_string()));
    }
}

#[test]
fn handshake_fails_without_the_plain_mechanism() {
    let mut machine = until_capabilities();
    assert_eq!(
        machine.line(&line("\"SASL\" \"LOGIN DIGEST-MD5\"\r\n")),
        Ask::ReadLine
    );
    assert_eq!(
        machine.line(&line("OK\r\n")),
        Ask::Abort(ConnectError::AuthenticationFailed(
            "SASL PLAIN mechanism not supported".to_string()
        ))
    );
    assert_eq!(machine.stage(), Stage::Failed);

    let mut silent = until_capabilities();
    assert_eq!(
        silent.line(&line("OK\r\n")),
        Ask::Abort(ConnectError::AuthenticationFailed(
            "SASL PLAIN mechanism not supported".to_string()
        ))
    );
}

#[test]
fn capabilities_of_the_greeting_are_not_kept() {
    let mut machine = until_tls("example.com");
    assert_eq!(machine.line(&line("OK")), Ask::Upgrade("example.com".to_string()));
    assert_eq!(machine.upgraded(), Ask::ReadLine);
    let capabilities = machine.capabilities();
    assert_eq!(capabilities.implementation, None);
    assert!(capabilities.sasl.is_empty());
    assert!(!capabilities.starttls);
    assert!(capabilities.other.is_empty());
}

#[test]
fn authentication_outcomes() {
    assert_eq!(authenticate_outcome(&line("OK")), Ok(()));
    assert_eq!(
        authenticate_outcome(&line("NO \"Authentication failed.\"\r\n")),
        Err(ConnectError::AuthenticationFailed(
            "Server rejected credentials: NO \"Authentication failed.\"".to_string()
        ))
    );
    assert_eq!(
        authenticate_outcome(&line("BYE \"Too many failed attempts\"")),
        Err(ConnectError::AuthenticationFailed(
            "Server disconnected: BYE \"Too many failed attempts\"".to_string()
        ))
    );
    assert_eq!(
        authenticate_outcome(&line("UNKNOWN Something unexpected")),
        Err(ConnectError::AuthenticationFailed(
            "Unexpected response: UNKNOWN Something unexpected".to_string()
        ))
    );
}

#[test]
fn authentication_request_is_base64_of_the_credential() {
    assert!(credential_can_be_encoded("testuser", "testpass"));
    assert_eq!(
        authenticate_request("testuser", "testpass"),
        "AUTHENTICATE \"PLAIN\" \"AHRlc3R1c2VyAHRlc3RwYXNz\"\r\n"
    );
    assert_eq!(
        authenticate_request("", ""),
        "AUTHENTICATE \"PLAIN\" \"AAA=\"\r\n"
    );
    assert_eq!(
        authenticate_request("ü", "p"),
        "AUTHENTICATE \"PLAIN\" \"AMO8AHA=\"\r\n"
    );
}

#[test]
fn connect_error_messages() {
    assert_eq!(
        ConnectError::ConnectionFailed("refused".to_string()).message(),
        "Connection failed: refused"
    );
    assert_eq!(
        ConnectError::ProtocolError("STARTTLS failed: NO".to_string()).message(),
        "Protocol error: STARTTLS failed: NO"
    );
    assert_eq!(
        ConnectError::TlsError("bad certificate".to_string()).message(),
        "TLS error: bad certificate"
    );
    assert_eq!(
        ConnectError::AuthenticationFailed("no".to_string()).message(),
        "Authentication failed: no"
    );
}

#[test]
fn redirect_limit_is_a_number_or_nothing() {
    let mut capabilities = Capabilities::default();
    update_capabilities(
        &mut capabilities,
        "MAXREDIRECTS".to_string(),
        Some("abc".to_string()),
    );
    assert_eq!(capabilities.maxredirects, None);
    update_capabilities(
        &mut capabilities,
        "MAXREDIRECTS".to_string(),
        Some("5".to_string()),
    );
    assert_eq!(capabilities.maxredirects, Some(5));
    update_capabilities(
        &mut capabilities,
        "maxredirects".to_string(),
        Some("abc".to_string()),
    );
    assert_eq!(capabilities.maxredirects, Some(5));
    update_capabilities(&mut capabilities, "MAXREDIRECTS".to_string(), None);
    assert_eq!(capabilities.maxredirects, Some(5));

    assert_eq!(parse_redirect_limit("0"), Some(0));
    assert_eq!(parse_redirect_limit("+12"), Some(12));
    assert_eq!(parse_redirect_limit("0012"), Some(12));
    assert_eq!(parse_redirect_limit("4294967295"), Some(u32::MAX));
    assert_eq!(parse_redirect_limit("4294967296"), None);
    assert_eq!(parse_redirect_limit("99999999999999999999999"), None);
    assert_eq!(parse_redirect_limit(""), None);
    assert_eq!(parse_redirect_limit("+"), None);
    assert_eq!(parse_redirect_limit("-1"), None);
    assert_eq!(parse_redirect_limit(" 5"), None);
    assert_eq!(parse_redirect_limit("5 "), None);
    assert_eq!(parse_redirect_limit("5a"), None);
    assert_eq!(parse_redirect_limit("++5"), None);
    for text in ["0", "+12", "0012", "4294967295", "4294967296", "", "+", "-1", " 5", "1_0"] {
        assert_eq!(parse_redirect_limit(text), text.parse::<u32>().ok());
    }
}

#[test]
fn lists_are_split_at_white_space() {
    let mut capabilities = Capabilities::default();
    update_capabilities(
        &mut capabilities,
        "NOTIFY".to_string(),
        Some("  mailto \t xmpp\u{a0}sms\n".to_string()),
    );
    assert_eq!(capabilities.notify, vec!["mailto", "xmpp", "sms"]);
    update_capabilities(&mut capabilities, "NOTIFY".to_string(), None);
    assert_eq!(capabilities.notify, vec!["mailto", "xmpp", "sms"]);
    update_capabilities(
        &mut capabilities,
        "notify".to_string(),
        Some("   ".to_string()),
    );
    assert!(capabilities.notify.is_empty());
}

#[test]
fn single_values_are_replaced() {
    let mut capabilities = Capabilities::default();
    update_capabilities(
        &mut capabilities,
        "LANGUAGE".to_string(),
        Some("en".to_string()),
    );
    update_capabilities(
        &mut capabilities,
        "Owner".to_string(),
        Some("alice".to_string()),
    );
    assert_eq!(capabilities.language, Some("en".to_string()));
    assert_eq!(capabilities.owner, Some("alice".to_string()));
    update_capabilities(&mut capabilities, "LANGUAGE".to_string(), None);
    assert_eq!(capabilities.language, None);
}

#[test]
fn unknown_capabilities_are_kept_as_written() {
    let mut capabilities = Capabilities::default();
    update_capabilities(&mut capabilities, "X-Flag".to_string(), None);
    update_capabilities(
        &mut capabilities,
        "UNAUTHENTICATE".to_string(),
        Some("yes".to_string()),
    );
    update_capabilities(
        &mut capabilities,
        "X-Flag".to_string(),
        Some("on".to_string()),
    );
    assert_eq!(capabilities.other.get("X-Flag"), Some(&"on".to_string()));
    assert_eq!(capabilities.other.get("X-FLAG"), None);
    assert_eq!(
        capabilities.other.get("UNAUTHENTICATE"),
        Some(&"yes".to_string())
    );
    assert_eq!(capabilities.other.len(), 2);
    let copy = capabilities.clone();
    assert_eq!(copy.other.get("X-Flag"), Some(&"on".to_string()));
}

#[test]
fn name_map_keeps_one_value_per_name() {
    let mut map = NameMap::new();
    assert!(map.is_empty());
    assert_eq!(map.len(), 0);
    assert_eq!(map.get("a"), None);
    map.insert("a".to_string(), "1".to_string());
    map.insert("b".to_string(), "2".to_string());
    map.insert("a".to_string(), "3".to_string());
    assert!(!map.is_empty());
    assert_eq!(map.len(), 2);
    assert_eq!(map.get("a"), Some(&"3".to_string()));
    assert_eq!(map.get("b"), Some(&"2".to_string()));
    assert_eq!(map.get(""), None);
    assert_eq!(map.entry(0), (&"a".to_string(), &"3".to_string()));
    assert_eq!(map.entry(1), (&"b".to_string(), &"2".to_string()));
}

#[test]
fn capability_lines_that_are_refused() {
    assert_eq!(
        parse_capability_line("\"SASL\" \"PLAIN\" junk\r\n"),
        Err("Unexpected content after capability:  junk".to_string())
    );
    assert_eq!(
        parse_capability_line("\"SASL\" junk"),
        Err("Unexpected content after capability: junk".to_string())
    );
    assert_eq!(
        parse_capability_line("SASL"),
        Err("Invalid capability format".to_string())
    );
    assert_eq!(
        parse_capability_line(""),
        Err("Invalid capability format".to_string())
    );
    assert_eq!(
        parse_capability_line("\"SASL"),
        Err("Invalid capability format".to_string())
    );
    assert_eq!(
        parse_capability_line("   \"A\"\t \t\"b c\"  \r\n"),
        Ok(("A".to_string(), Some("b c".to_string())))
    );
}

#[test]
fn quoted_strings_of_the_protocol() {
    assert_eq!(parse_quoted_string("\"\""), Ok(("", "".to_string())));
    assert_eq!(
        parse_quoted_string("\"a\\\"b\""),
        Ok(("b\"", "a\\".to_string()))
    );
    assert_eq!(parse_quoted_string(""), Err(ParseError::Unmatched("")));
    assert_eq!(parse_quoted_string("x\"a\""), Err(ParseError::Unmatched("x\"a\"")));
    assert_eq!(parse_quoted_string("\"abc"), Err(ParseError::Unmatched("abc")));
    assert_eq!(
        parse_capability("\"A\" \t x"),
        Ok(("x", ("A".to_string(), None)))
    );
    assert_eq!(
        parse_capability("\"A\"\n\"b\""),
        Ok(("\n\"b\"", ("A".to_string(), None)))
    );
    assert_eq!(
        parse_capability("\"A\" \"unterminated"),
        Ok(("\"unterminated", ("A".to_string(), None)))
    );
    assert_eq!(parse_capability("A"), Err(ParseError::Unmatched("A")));
}

#[test]
fn announcement_is_folded_line_by_line() {
    let mut capabilities = Capabilities::default();
    assert!(!capabilities_line(&mut capabilities, &line("\r\n")));
    assert!(!capabilities_line(
        &mut capabilities,
        &line("\"sieve\" \"fileinto  vacation\"\r\n")
    ));
    assert!(!capabilities_line(&mut capabilities, &line("nonsense")));
    assert!(!capabilities_line(&mut capabilities, &line("\"STARTTLS\"")));
    assert!(!capabilities_line(&mut capabilities, &line("NO")));
    assert!(capabilities_line(&mut capabilities, &line("ok done")));
    assert_eq!(capabilities.sieve, vec!["fileinto", "vacation"]);
    assert!(capabilities.starttls);
    assert!(is_end_of_announcement(&line("OK")));
    assert!(!is_end_of_announcement(&line("")));
    assert!(!is_end_of_announcement(&line("\"OK\"")));
}

#[test]
fn a_failing_transport_ends_the_handshake() {
    let (mut fresh, _) = Handshake::new("example.com".to_string(), 4190, "user", "pass");
    assert_eq!(
        fresh.failed("connection refused".to_string()),
        Ask::Abort(ConnectError::ConnectionFailed(
            "connection refused".to_string()
        ))
    );
    assert_eq!(fresh.stage(), Stage::Failed);
    assert_eq!(fresh.phase(), None);

    let mut negotiating = until_capabilities();
    assert_eq!(
        negotiating.line(&line("\"SASL\" \"PLAIN\"\r\n")),
        Ask::ReadLine
    );
    assert_eq!(
        negotiating.failed("unexpected end of input".to_string()),
        Ask::Abort(ConnectError::ConnectionFailed(
            "unexpected end of input".to_string()
        ))
    );
    assert_eq!(negotiating.stage(), Stage::Failed);
    assert_eq!(negotiating.phase(), None);
}

#[test]
fn the_answer_on_the_host_decides_the_upgrade() {
    let mut taken = until_tls("mail.example.com");
    assert_eq!(
        taken.line_given(&line("OK\r\n"), true),
        Ask::Upgrade("mail.example.com".to_string())
    );
    assert_eq!(taken.stage(), Stage::Securing);

    let mut refused = until_tls("mail.example.com");
    assert_eq!(
        refused.line_given(&line("OK\r\n"), false),
        Ask::Abort(ConnectError::ProtocolError("Invalid hostname".to_string()))
    );
    assert_eq!(refused.stage(), Stage::Failed);

    let mut denied = until_tls("mail.example.com");
    assert_eq!(
        denied.line_given(&line("NO\r\n"), true),
        Ask::Abort(ConnectError::ProtocolError("STARTTLS failed: NO".to_string()))
    );

    let (mut greeting, _) = Handshake::new("x".to_string(), 1, "u", "p");
    assert_eq!(greeting.connected(), Ask::ReadLine);
    assert_eq!(greeting.line_given(&line("hello\r\n"), false), Ask::ReadLine);
    assert_eq!(
        greeting.line_given(&line("OK\r\n"), false),
        Ask::Write("STARTTLS\r\n".to_string())
    );
}

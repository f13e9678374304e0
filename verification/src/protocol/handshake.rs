//! The way from an address to an authenticated session, as a state machine.
//!
//! The machine performs nothing itself. It says what is to be done next, and
//! is told when that has been done and what was read.

use vstd::prelude::*;
use crate::protocol::auth::{
    authenticate_outcome, authenticate_request, authenticate_wire, authentication_result,
    credential_can_be_encoded, credential_fits, offers_plain, supports_plain,
};
use crate::protocol::capability::{
    announced, capabilities_line, ends_announcement, is_end_of_announcement, nothing_announced,
    Capabilities, CapabilitiesView,
};
use crate::decimal::{decimal_text, push_decimal};
use crate::error::{prefixed, ConnectError, ConnectErrorView};
use crate::protocol::response::{status_of_upper, ResponseLine, Status};

verus! {

/// Whether `rustls_pki_types::ServerName` takes a text as the name of a
/// server: a DNS name or an IP address.
pub uninterp spec fn is_server_name(host: Seq<char>) -> bool;

/// `ServerName::try_from` of the crate rustls-pki-types parses a text as a
/// DNS name and, failing that, as an IP address. Which texts it takes is left
/// abstract, under the name `is_server_name`.
#[verifier::external_body]
fn names_server(host: &str) -> (b: bool)
    ensures
        b == is_server_name(host@),
{
    rustls_pki_types::ServerName::try_from(host).is_ok()
}

/// How far a connection has come.
#[derive(Debug, PartialEq, Eq, Clone, Copy)]
pub enum Phase {
    Disconnected,
    TcpConnected,
    GreetingConsumed,
    TlsRequested,
    TlsEstablished,
    CapabilitiesKnown,
    Authenticated,
}

/// Where the machine waits. Each stage waits for one kind of news.
#[derive(Debug, PartialEq, Eq, Clone, Copy)]
pub enum Stage {
    /// Waits for the TCP connection.
    Connecting,
    /// Waits for a line of the plain-text greeting.
    Greeting,
    /// Waits for the upgrade command to be written.
    RequestingTls,
    /// Waits for the response to the upgrade command.
    AwaitingTlsReply,
    /// Waits for the TLS handshake.
    Securing,
    /// Waits for a line of the capabilities, over TLS.
    Negotiating,
    /// Waits for the authentication command to be written.
    SendingCredentials,
    /// Waits for the response to the authentication.
    AwaitingVerdict,
    /// The session is ready for commands.
    Ready,
    /// The connection was given up.
    Failed,
}

/// What is to be done next.
#[derive(Debug, PartialEq, Eq)]
pub enum Ask {
    /// Open a TCP connection to this address.
    Connect(String),
    /// Read one line.
    ReadLine,
    /// Write this text and flush.
    Write(String),
    /// Perform the TLS handshake against this host name.
    Upgrade(String),
    /// Nothing: the session is ready.
    Ready,
    /// Give up with this error.
    Abort(ConnectError),
}

/// What is to be done next, as mathematical values.
pub ghost enum AskView {
    Connect(Seq<char>),
    ReadLine,
    Write(Seq<char>),
    Upgrade(Seq<char>),
    Ready,
    Abort(ConnectErrorView),
}

impl View for Ask {
    type V = AskView;

    open spec fn view(&self) -> AskView {
        match self {
            Ask::Connect(a) => AskView::Connect(a@),
            Ask::ReadLine => AskView::ReadLine,
            Ask::Write(w) => AskView::Write(w@),
            Ask::Upgrade(h) => AskView::Upgrade(h@),
            Ask::Ready => AskView::Ready,
            Ask::Abort(e) => AskView::Abort(e@),
        }
    }
}

/// The state of a handshake.
pub struct Handshake {
    stage: Stage,
    host: String,
    port: u16,
    authentication: String,
    capabilities: Capabilities,
}

/// The state of a handshake, as mathematical values.
pub ghost struct HandshakeView {
    pub stage: Stage,
    pub host: Seq<char>,
    pub port: u16,
    /// The authentication command, made when the handshake began.
    pub authentication: Seq<char>,
    pub capabilities: CapabilitiesView,
}

/// The phase that a stage belongs to.
pub open spec fn phase_of(stage: Stage) -> Option<Phase> {
    match stage {
        Stage::Connecting => Some(Phase::Disconnected),
        Stage::Greeting => Some(Phase::TcpConnected),
        Stage::RequestingTls => Some(Phase::GreetingConsumed),
        Stage::AwaitingTlsReply => Some(Phase::TlsRequested),
        Stage::Securing => Some(Phase::TlsRequested),
        Stage::Negotiating => Some(Phase::TlsEstablished),
        Stage::SendingCredentials => Some(Phase::CapabilitiesKnown),
        Stage::AwaitingVerdict => Some(Phase::CapabilitiesKnown),
        Stage::Ready => Some(Phase::Authenticated),
        Stage::Failed => None,
    }
}

/// Whether what is read and written at a stage goes over TLS.
pub open spec fn encrypted(stage: Stage) -> bool {
    stage == Stage::Negotiating || stage == Stage::SendingCredentials || stage
        == Stage::AwaitingVerdict || stage == Stage::Ready
}

/// Whether a stage waits for a line.
pub open spec fn awaits_line(stage: Stage) -> bool {
    stage == Stage::Greeting || stage == Stage::AwaitingTlsReply || stage == Stage::Negotiating
        || stage == Stage::AwaitingVerdict
}

/// Whether a stage waits for something to be written.
pub open spec fn awaits_write(stage: Stage) -> bool {
    stage == Stage::RequestingTls || stage == Stage::SendingCredentials
}

/// The address to connect to: the host, a colon, the port.
pub open spec fn address(host: Seq<char>, port: u16) -> Seq<char> {
    host + ":"@ + decimal_text(port as nat)
}

/// What is written to ask for the upgrade to TLS.
pub open spec fn starttls_wire() -> Seq<char> {
    "STARTTLS\r\n"@
}

/// The state in which nothing has happened yet.
pub open spec fn initial(
    host: Seq<char>,
    port: u16,
    username: Seq<char>,
    password: Seq<char>,
) -> HandshakeView {
    HandshakeView {
        stage: Stage::Connecting,
        host,
        port,
        authentication: authenticate_wire(username, password),
        capabilities: nothing_announced(),
    }
}

/// The state and the next task once the TCP connection stands.
pub open spec fn after_connected(h: HandshakeView) -> (HandshakeView, AskView) {
    (HandshakeView { stage: Stage::Greeting, ..h }, AskView::ReadLine)
}

/// The state and the next task once what was to be written is written.
pub open spec fn after_written(h: HandshakeView) -> (HandshakeView, AskView) {
    if h.stage == Stage::RequestingTls {
        (HandshakeView { stage: Stage::AwaitingTlsReply, ..h }, AskView::ReadLine)
    } else {
        (HandshakeView { stage: Stage::AwaitingVerdict, ..h }, AskView::ReadLine)
    }
}

/// The state and the next task once the TLS handshake is done. The
/// capabilities start empty: what the greeting said in plain text is not kept.
pub open spec fn after_upgraded(h: HandshakeView) -> (HandshakeView, AskView) {
    (
        HandshakeView { stage: Stage::Negotiating, capabilities: nothing_announced(), ..h },
        AskView::ReadLine,
    )
}

/// Gives the connection up with `error`.
pub open spec fn abort(h: HandshakeView, error: ConnectErrorView) -> (HandshakeView, AskView) {
    (HandshakeView { stage: Stage::Failed, ..h }, AskView::Abort(error))
}

/// The state and the next task once a line is read.
///
/// The greeting is read and dropped up to its `OK`; then the upgrade is asked
/// for. The response to that has to be `OK`, and the host has to be a name
/// that TLS can check. The capabilities are read up to their `OK`; the
/// credentials are sent only if `PLAIN` is among the mechanisms. The response
/// to the authentication decides.
pub open spec fn after_line(h: HandshakeView, text: Seq<char>, upper: Seq<char>) -> (
    HandshakeView,
    AskView,
) {
    after_line_given(h, text, upper, is_server_name(h.host))
}

/// The state and the next task once the transport has failed or the server
/// has closed the connection: the handshake is given up, whatever its stage.
pub open spec fn after_failure(h: HandshakeView, cause: Seq<char>) -> (HandshakeView, AskView) {
    abort(h, ConnectErrorView::ConnectionFailed(cause))
}

/// The state and the next task once a line is read, given whether the host
/// is a name that TLS can check. The answer is asked for only where the
/// upgrade was granted.
pub open spec fn after_line_given(
    h: HandshakeView,
    text: Seq<char>,
    upper: Seq<char>,
    host_is_name: bool,
) -> (HandshakeView, AskView) {
    match h.stage {
        Stage::Greeting => if ends_announcement(text, upper) {
            (HandshakeView { stage: Stage::RequestingTls, ..h }, AskView::Write(starttls_wire()))
        } else {
            (h, AskView::ReadLine)
        },
        Stage::AwaitingTlsReply => if status_of_upper(upper) == Status::Okay {
            if host_is_name {
                (HandshakeView { stage: Stage::Securing, ..h }, AskView::Upgrade(h.host))
            } else {
                abort(h, ConnectErrorView::ProtocolError("Invalid hostname"@))
            }
        } else {
            abort(h, ConnectErrorView::ProtocolError("STARTTLS failed: "@ + text))
        },
        Stage::Negotiating => {
            let (capabilities, finished) = announced(h.capabilities, text, upper);
            let known = HandshakeView { capabilities, ..h };
            if !finished {
                (known, AskView::ReadLine)
            } else if offers_plain(capabilities.sasl) {
                (
                    HandshakeView { stage: Stage::SendingCredentials, ..known },
                    AskView::Write(h.authentication),
                )
            } else {
                abort(
                    known,
                    ConnectErrorView::AuthenticationFailed(
                        "SASL PLAIN mechanism not supported"@,
                    ),
                )
            }
        },
        _ => match authentication_result(text, upper) {
            Ok(_) => (HandshakeView { stage: Stage::Ready, ..h }, AskView::Ready),
            Err(e) => abort(h, e),
        },
    }
}

impl View for Handshake {
    type V = HandshakeView;

    closed spec fn view(&self) -> HandshakeView {
        HandshakeView {
            stage: self.stage,
            host: self.host@,
            port: self.port,
            authentication: self.authentication@,
            capabilities: self.capabilities@,
        }
    }
}

impl Handshake {
    /// A handshake with the server at `host` and `port`, and the address to
    /// connect to.
    pub fn new(host: String, port: u16, username: &str, password: &str) -> (r: (Handshake, Ask))
        requires
            credential_fits(username@, password@),
        ensures
            r.0@ == initial(host@, port, username@, password@),
            r.1@ == AskView::Connect(address(host@, port)),
    {
        let mut target = host.clone();
        target.append(":");
        push_decimal(&mut target, port as usize);
        let machine = Handshake {
            stage: Stage::Connecting,
            host,
            port,
            authentication: authenticate_request(username, password),
            capabilities: Capabilities::default(),
        };
        (machine, Ask::Connect(target))
    }

    /// A handshake as `new` makes it, or nothing where the credential is
    /// too long to be encoded.
    pub fn start(host: String, port: u16, username: &str, password: &str) -> (r: Option<
        (Handshake, Ask),
    >)
        ensures
            r is Some <==> credential_fits(username@, password@),
            r matches Some(begun) ==> begun.0@ == initial(host@, port, username@, password@)
                && begun.1@ == AskView::Connect(address(host@, port)),
    {
        if credential_can_be_encoded(username, password) {
            Some(Handshake::new(host, port, username, password))
        } else {
            None
        }
    }

    /// Where the machine waits.
    pub fn stage(&self) -> (s: Stage)
        ensures
            s == self@.stage,
    {
        self.stage
    }

    /// How far the connection has come; nothing once it was given up.
    pub fn phase(&self) -> (p: Option<Phase>)
        ensures
            p == phase_of(self@.stage),
    {
        match self.stage {
            Stage::Connecting => Some(Phase::Disconnected),
            Stage::Greeting => Some(Phase::TcpConnected),
            Stage::RequestingTls => Some(Phase::GreetingConsumed),
            Stage::AwaitingTlsReply => Some(Phase::TlsRequested),
            Stage::Securing => Some(Phase::TlsRequested),
            Stage::Negotiating => Some(Phase::TlsEstablished),
            Stage::SendingCredentials => Some(Phase::CapabilitiesKnown),
            Stage::AwaitingVerdict => Some(Phase::CapabilitiesKnown),
            Stage::Ready => Some(Phase::Authenticated),
            Stage::Failed => None,
        }
    }

    /// The capabilities read so far.
    pub fn capabilities(&self) -> (c: &Capabilities)
        ensures
            c@ == self@.capabilities,
    {
        &self.capabilities
    }

    /// Ends the handshake and hands out the capabilities that were read.
    pub fn into_capabilities(self) -> (c: Capabilities)
        ensures
            c@ == self@.capabilities,
    {
        self.capabilities
    }

    /// The TCP connection stands.
    pub fn connected(&mut self) -> (ask: Ask)
        requires
            old(self)@.stage == Stage::Connecting,
        ensures
            (final(self)@, ask@) == after_connected(old(self)@),
    {
        self.stage = Stage::Greeting;
        Ask::ReadLine
    }

    /// What was to be written is written.
    pub fn written(&mut self) -> (ask: Ask)
        requires
            awaits_write(old(self)@.stage),
        ensures
            (final(self)@, ask@) == after_written(old(self)@),
    {
        match self.stage {
            Stage::RequestingTls => {
                self.stage = Stage::AwaitingTlsReply;
            },
            _ => {
                self.stage = Stage::AwaitingVerdict;
            },
        }
        Ask::ReadLine
    }

    /// The TLS handshake is done.
    pub fn upgraded(&mut self) -> (ask: Ask)
        requires
            old(self)@.stage == Stage::Securing,
        ensures
            (final(self)@, ask@) == after_upgraded(old(self)@),
    {
        self.stage = Stage::Negotiating;
        self.capabilities = Capabilities::default();
        Ask::ReadLine
    }

    /// The transport has failed, or the server has closed the connection.
    pub fn failed(&mut self, cause: String) -> (ask: Ask)
        ensures
            (final(self)@, ask@) == after_failure(old(self)@, cause@),
    {
        self.stage = Stage::Failed;
        Ask::Abort(ConnectError::ConnectionFailed(cause))
    }

    /// A line is read.
    pub fn line(&mut self, line: &ResponseLine) -> (ask: Ask)
        requires
            awaits_line(old(self)@.stage),
        ensures
            (final(self)@, ask@) == after_line(old(self)@, line.text@, line.upper@),
    {
        let host_is_name = match self.stage {
            Stage::AwaitingTlsReply => names_server(self.host.as_str()),
            _ => false,
        };
        self.line_given(line, host_is_name)
    }

    /// A line is read, and `host_is_name` says whether the host is a name
    /// that TLS can check.
    pub fn line_given(&mut self, line: &ResponseLine, host_is_name: bool) -> (ask: Ask)
        requires
            awaits_line(old(self)@.stage),
        ensures
            (final(self)@, ask@) == after_line_given(
                old(self)@,
                line.text@,
                line.upper@,
                host_is_name,
            ),
    {
        match self.stage {
            Stage::Greeting => {
                if is_end_of_announcement(line) {
                    self.stage = Stage::RequestingTls;
                    Ask::Write(String::from_str("STARTTLS\r\n"))
                } else {
                    Ask::ReadLine
                }
            },
            Stage::AwaitingTlsReply => {
                match line.status() {
                    Status::Okay => {
                        if host_is_name {
                            self.stage = Stage::Securing;
                            Ask::Upgrade(self.host.clone())
                        } else {
                            self.stage = Stage::Failed;
                            Ask::Abort(
                                ConnectError::ProtocolError(String::from_str("Invalid hostname")),
                            )
                        }
                    },
                    _ => {
                        self.stage = Stage::Failed;
                        Ask::Abort(
                            ConnectError::ProtocolError(
                                prefixed("STARTTLS failed: ", line.to_text().as_str()),
                            ),
                        )
                    },
                }
            },
            Stage::Negotiating => {
                let finished = capabilities_line(&mut self.capabilities, line);
                if !finished {
                    Ask::ReadLine
                } else if supports_plain(&self.capabilities) {
                    self.stage = Stage::SendingCredentials;
                    Ask::Write(self.authentication.clone())
                } else {
                    self.stage = Stage::Failed;
                    Ask::Abort(
                        ConnectError::AuthenticationFailed(
                            String::from_str("SASL PLAIN mechanism not supported"),
                        ),
                    )
                }
            },
            _ => {
                match authenticate_outcome(line) {
                    Ok(_) => {
                        self.stage = Stage::Ready;
                        Ask::Ready
                    },
                    Err(e) => {
                        self.stage = Stage::Failed;
                        Ask::Abort(e)
                    },
                }
            },
        }
    }
}

/// The credentials are written only over TLS: the one text that is written
/// after a line read in plain text is the upgrade command.
pub proof fn lemma_plain_text_carries_no_credentials(
    h: HandshakeView,
    text: Seq<char>,
    upper: Seq<char>,
)
    requires
        awaits_line(h.stage),
        !encrypted(h.stage),
    ensures
        after_line(h, text, upper).1 matches AskView::Write(w) ==> w == starttls_wire(),
        !encrypted(after_line(h, text, upper).0.stage),
{
}

/// Only the TLS handshake leads from plain text to TLS, and nothing leads back
/// but giving up.
pub proof fn lemma_tls_is_kept(h: HandshakeView, text: Seq<char>, upper: Seq<char>)
    ensures
        encrypted(after_upgraded(h).0.stage),
        !encrypted(after_connected(h).0.stage),
        awaits_write(h.stage) ==> encrypted(after_written(h).0.stage) == encrypted(h.stage),
        awaits_line(h.stage) && encrypted(h.stage) ==> encrypted(
            after_line(h, text, upper).0.stage,
        ) || after_line(h, text, upper).0.stage == Stage::Failed,
{
}

/// A handshake that meets no refusal comes to a ready session, by these
/// steps in this order: the greeting is read up to its `OK`, the upgrade is
/// asked for and granted, TLS is set up against the host, the capabilities
/// are read up to their `OK`, and the credentials are written and accepted.
pub proof fn lemma_handshake_completes(
    host: Seq<char>,
    port: u16,
    username: Seq<char>,
    password: Seq<char>,
    ok_text: Seq<char>,
    ok_upper: Seq<char>,
    mechanisms_text: Seq<char>,
    mechanisms_upper: Seq<char>,
)
    requires
        is_server_name(host),
        ok_text.len() > 0,
        status_of_upper(ok_upper) == Status::Okay,
        !announced(nothing_announced(), mechanisms_text, mechanisms_upper).1,
        offers_plain(announced(nothing_announced(), mechanisms_text, mechanisms_upper).0.sasl),
    ensures
        ({
            let begun = initial(host, port, username, password);
            let connected = after_connected(begun);
            let greeted = after_line(connected.0, ok_text, ok_upper);
            let requested = after_written(greeted.0);
            let granted = after_line(requested.0, ok_text, ok_upper);
            let secured = after_upgraded(granted.0);
            let informed = after_line(secured.0, mechanisms_text, mechanisms_upper);
            let known = after_line(informed.0, ok_text, ok_upper);
            let sent = after_written(known.0);
            let accepted = after_line(sent.0, ok_text, ok_upper);
            &&& connected.1 == AskView::ReadLine
            &&& greeted.1 == AskView::Write(starttls_wire())
            &&& requested.1 == AskView::ReadLine
            &&& granted.1 == AskView::Upgrade(host)
            &&& secured.1 == AskView::ReadLine
            &&& informed.1 == AskView::ReadLine
            &&& known.1 == AskView::Write(authenticate_wire(username, password))
            &&& sent.1 == AskView::ReadLine
            &&& accepted.1 == AskView::Ready
            &&& accepted.0.stage == Stage::Ready
            &&& accepted.0.capabilities == informed.0.capabilities
        }),
{
}

/// A failure of the transport ends the handshake at any stage: the session
/// is not ready, and the failure is what is handed out.
pub proof fn lemma_failure_ends_the_handshake(h: HandshakeView, cause: Seq<char>)
    ensures
        after_failure(h, cause).0.stage == Stage::Failed,
        after_failure(h, cause).1 == AskView::Abort(ConnectErrorView::ConnectionFailed(cause)),
        phase_of(after_failure(h, cause).0.stage) is None,
{
}

/// A session becomes ready only by an `OK` to the authentication.
pub proof fn lemma_ready_only_by_verdict(h: HandshakeView, text: Seq<char>, upper: Seq<char>)
    requires
        awaits_line(h.stage),
        after_line(h, text, upper).0.stage == Stage::Ready,
    ensures
        h.stage == Stage::AwaitingVerdict,
        status_of_upper(upper) == Status::Okay,
        after_line(h, text, upper).1 == AskView::Ready,
{
}

} // verus!

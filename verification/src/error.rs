//! The two error taxonomies: failures while connecting, and failures of a
//! management command.

use vstd::prelude::*;

verus! {

/// Why a connection could not be brought to the authenticated state.
#[derive(Debug, Clone, PartialEq, Eq)]
pub enum ConnectError {
    /// The transport failed; the text describes the failure.
    ConnectionFailed(String),
    /// The server answered the handshake in an unexpected way.
    ProtocolError(String),
    /// The TLS handshake or the certificate check failed.
    TlsError(String),
    /// The credentials were rejected, the mechanism is not offered, or the
    /// answer to the authentication was not understood.
    AuthenticationFailed(String),
}

/// Why a management command failed.
#[derive(Debug, Clone, PartialEq, Eq)]
pub enum ManageSieveError {
    /// The transport failed during the command; the text describes the failure.
    IoError(String),
    /// The framing of a literal was malformed.
    ProtocolError(String),
    /// The server refused the command or is closing the session.
    ServerError(String),
    /// The server does not know the script.
    ScriptNotFound(String),
    /// The response began with none of the known status words.
    InvalidResponse(String),
}

/// A connection error with its texts as sequences of characters.
pub ghost enum ConnectErrorView {
    ConnectionFailed(Seq<char>),
    ProtocolError(Seq<char>),
    TlsError(Seq<char>),
    AuthenticationFailed(Seq<char>),
}

/// A management error with its texts as sequences of characters.
pub ghost enum ManageSieveErrorView {
    IoError(Seq<char>),
    ProtocolError(Seq<char>),
    ServerError(Seq<char>),
    ScriptNotFound(Seq<char>),
    InvalidResponse(Seq<char>),
}

impl View for ConnectError {
    type V = ConnectErrorView;

    open spec fn view(&self) -> ConnectErrorView {
        match self {
            ConnectError::ConnectionFailed(d) => ConnectErrorView::ConnectionFailed(d@),
            ConnectError::ProtocolError(d) => ConnectErrorView::ProtocolError(d@),
            ConnectError::TlsError(d) => ConnectErrorView::TlsError(d@),
            ConnectError::AuthenticationFailed(d) => ConnectErrorView::AuthenticationFailed(d@),
        }
    }
}

impl DeepView for ConnectError {
    type V = ConnectErrorView;

    open spec fn deep_view(&self) -> ConnectErrorView {
        self@
    }
}

impl View for ManageSieveError {
    type V = ManageSieveErrorView;

    open spec fn view(&self) -> ManageSieveErrorView {
        match self {
            ManageSieveError::IoError(d) => ManageSieveErrorView::IoError(d@),
            ManageSieveError::ProtocolError(d) => ManageSieveErrorView::ProtocolError(d@),
            ManageSieveError::ServerError(d) => ManageSieveErrorView::ServerError(d@),
            ManageSieveError::ScriptNotFound(d) => ManageSieveErrorView::ScriptNotFound(d@),
            ManageSieveError::InvalidResponse(d) => ManageSieveErrorView::InvalidResponse(d@),
        }
    }
}

impl DeepView for ManageSieveError {
    type V = ManageSieveErrorView;

    open spec fn deep_view(&self) -> ManageSieveErrorView {
        self@
    }
}

/// A result with both sides taken by their views.
pub open spec fn result_view<T: DeepView, E: DeepView>(r: Result<T, E>) -> Result<T::V, E::V> {
    match r {
        Ok(v) => Ok(v.deep_view()),
        Err(e) => Err(e.deep_view()),
    }
}

/// `prefix` followed by `detail`.
pub fn prefixed(prefix: &str, detail: &str) -> (r: String)
    ensures
        r@ == prefix@ + detail@,
{
    let mut r = String::from_str(prefix);
    r.append(detail);
    r
}

impl ConnectError {
    /// The text that describes the error to a user.
    pub open spec fn spec_message(self) -> Seq<char> {
        match self {
            ConnectError::ConnectionFailed(d) => "Connection failed: "@ + d@,
            ConnectError::ProtocolError(d) => "Protocol error: "@ + d@,
            ConnectError::TlsError(d) => "TLS error: "@ + d@,
            ConnectError::AuthenticationFailed(d) => "Authentication failed: "@ + d@,
        }
    }

    /// The text that describes the error to a user.
    pub fn message(&self) -> (r: String)
        ensures
            r@ == self.spec_message(),
    {
        match self {
            ConnectError::ConnectionFailed(d) => prefixed("Connection failed: ", d.as_str()),
            ConnectError::ProtocolError(d) => prefixed("Protocol error: ", d.as_str()),
            ConnectError::TlsError(d) => prefixed("TLS error: ", d.as_str()),
            ConnectError::AuthenticationFailed(d) => prefixed(
                "Authentication failed: ",
                d.as_str(),
            ),
        }
    }
}

impl ManageSieveError {
    /// The text that describes the error to a user.
    pub open spec fn spec_message(self) -> Seq<char> {
        match self {
            ManageSieveError::IoError(d) => "IO error: "@ + d@,
            ManageSieveError::ProtocolError(d) => "Protocol error: "@ + d@,
            ManageSieveError::ServerError(d) => "Server error: "@ + d@,
            ManageSieveError::ScriptNotFound(d) => "Script not found: "@ + d@,
            ManageSieveError::InvalidResponse(d) => "Invalid response: "@ + d@,
        }
    }

    /// The text that describes the error to a user.
    pub fn message(&self) -> (r: String)
        ensures
            r@ == self.spec_message(),
    {
        match self {
            ManageSieveError::IoError(d) => prefixed("IO error: ", d.as_str()),
            ManageSieveError::ProtocolError(d) => prefixed("Protocol error: ", d.as_str()),
            ManageSieveError::ServerError(d) => prefixed("Server error: ", d.as_str()),
            ManageSieveError::ScriptNotFound(d) => prefixed("Script not found: ", d.as_str()),
            ManageSieveError::InvalidResponse(d) => prefixed("Invalid response: ", d.as_str()),
        }
    }
}

} // verus!

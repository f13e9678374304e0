//! The one authentication exchange: a plain-text credential, sent in base64.

use base64::Engine;
use vstd::prelude::*;
use vstd::utf8::encode_utf8;
use crate::protocol::capability::Capabilities;
use crate::error::{prefixed, result_view, ConnectError, ConnectErrorView};
use crate::protocol::response::{status_of_upper, ResponseLine, Status};
use crate::text::same_text;

verus! {

/// The standard base64 encoding of a byte string, with padding
/// (`base64::engine::general_purpose::STANDARD`).
pub uninterp spec fn base64_standard(bytes: Seq<u8>) -> Seq<char>;

/// Whether the encoding of `len` bytes has a length that a buffer can have:
/// four characters for every three bytes begun.
pub open spec fn encodable(len: nat) -> bool {
    4 * ((len + 2) / 3) <= isize::MAX
}

/// `Engine::encode` on the engine `STANDARD` of the crate base64 returns the
/// base64 text of the bytes. It panics where the length of that text cannot be
/// computed or allocated, which `encodable` excludes. The text itself is left
/// abstract, under the name `base64_standard`.
#[verifier::external_body]
fn encode_base64(bytes: &[u8]) -> (r: String)
    requires
        encodable(bytes@.len()),
    ensures
        r@ == base64_standard(bytes@),
{
    base64::engine::general_purpose::STANDARD.encode(bytes)
}

/// The credential of the mechanism `PLAIN`: a NUL, the user name, a NUL, the password.
pub open spec fn plain_credential(username: Seq<char>, password: Seq<char>) -> Seq<char> {
    "\0"@ + username + "\0"@ + password
}

/// Whether the credential of `username` and `password` can be encoded.
pub open spec fn credential_fits(username: Seq<char>, password: Seq<char>) -> bool {
    encodable(encode_utf8(plain_credential(username, password)).len())
}

/// The authentication command that carries `encoded` as its argument.
pub open spec fn authenticate_with(encoded: Seq<char>) -> Seq<char> {
    "AUTHENTICATE \"PLAIN\" \""@ + encoded + "\"\r\n"@
}

/// What is written to authenticate: the command with the credential in base64.
pub open spec fn authenticate_wire(username: Seq<char>, password: Seq<char>) -> Seq<char> {
    authenticate_with(base64_standard(encode_utf8(plain_credential(username, password))))
}

/// Whether the mechanism `PLAIN` is among the mechanisms announced.
pub open spec fn offers_plain(mechanisms: Seq<Seq<char>>) -> bool {
    exists|i: int| 0 <= i < mechanisms.len() && mechanisms[i] == "PLAIN"@
}

/// What the response line to the authentication means: `OK` is success, `NO`
/// says that the credentials were rejected, `BYE` that the server has
/// disconnected, and anything else is unexpected.
pub open spec fn authentication_result(text: Seq<char>, upper: Seq<char>) -> Result<
    (),
    ConnectErrorView,
> {
    match status_of_upper(upper) {
        Status::Okay => Ok(()),
        Status::No => Err(
            ConnectErrorView::AuthenticationFailed("Server rejected credentials: "@ + text),
        ),
        Status::Bye => Err(
            ConnectErrorView::AuthenticationFailed("Server disconnected: "@ + text),
        ),
        Status::Other => Err(
            ConnectErrorView::AuthenticationFailed("Unexpected response: "@ + text),
        ),
    }
}

/// The credential of the mechanism `PLAIN` for `username` and `password`.
pub fn plain_credential_of(username: &str, password: &str) -> (r: String)
    ensures
        r@ == plain_credential(username@, password@),
{
    let mut r = String::from_str("\0");
    r.append(username);
    r.append("\0");
    r.append(password);
    r
}

/// Whether the credential of `username` and `password` can be encoded.
pub fn credential_can_be_encoded(username: &str, password: &str) -> (b: bool)
    ensures
        b == credential_fits(username@, password@),
{
    let credential = plain_credential_of(username, password);
    let len = credential.as_str().as_bytes().len();
    len <= 3 * ((isize::MAX as usize) / 4)
}

/// The authentication command that carries `encoded` as its argument.
pub fn authenticate_request_with(encoded: &str) -> (r: String)
    ensures
        r@ == authenticate_with(encoded@),
{
    let mut r = String::from_str("AUTHENTICATE \"PLAIN\" \"");
    r.append(encoded);
    r.append("\"\r\n");
    r
}

/// The request that authenticates `username` with `password`.
pub fn authenticate_request(username: &str, password: &str) -> (r: String)
    requires
        credential_fits(username@, password@),
    ensures
        r@ == authenticate_wire(username@, password@),
{
    let credential = plain_credential_of(username, password);
    let encoded = encode_base64(credential.as_str().as_bytes());
    authenticate_request_with(encoded.as_str())
}

/// Whether the server has announced the mechanism `PLAIN`.
pub fn supports_plain(capabilities: &Capabilities) -> (b: bool)
    ensures
        b == offers_plain(capabilities@.sasl),
{
    let mut i: usize = 0;
    while i < capabilities.sasl.len()
        invariant
            i <= capabilities.sasl@.len(),
            forall|j: int| 0 <= j < i ==> capabilities@.sasl[j] != "PLAIN"@,
        decreases capabilities.sasl@.len() - i,
    {
        if same_text(capabilities.sasl[i].as_str(), "PLAIN") {
            assert(capabilities@.sasl[i as int] == "PLAIN"@);
            return true;
        }
        i += 1;
    }
    false
}

/// Reads the response to the authentication.
pub fn authenticate_outcome(line: &ResponseLine) -> (r: Result<(), ConnectError>)
    ensures
        result_view(r) == authentication_result(line.text@, line.upper@),
{
    let text = line.to_text();
    match line.status() {
        Status::Okay => Ok(()),
        Status::No => Err(
            ConnectError::AuthenticationFailed(
                prefixed("Server rejected credentials: ", text.as_str()),
            ),
        ),
        Status::Bye => Err(
            ConnectError::AuthenticationFailed(prefixed("Server disconnected: ", text.as_str())),
        ),
        Status::Other => Err(
            ConnectError::AuthenticationFailed(prefixed("Unexpected response: ", text.as_str())),
        ),
    }
}

} // verus!

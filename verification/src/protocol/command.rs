//! The management commands: what is written to the server for each, and what
//! its response lines mean.
//!
//! Nothing here touches the network. A caller writes the request, reads what
//! the engine asks for (a line, or an exact number of bytes) and hands it back.

use vstd::prelude::*;
use vstd::utf8::{decode_utf8, encode_utf8, valid_utf8};
use crate::decimal::{decimal_text, push_decimal};
use crate::error::{result_view, ManageSieveError, ManageSieveErrorView};
use crate::outcome::Parsed;
use crate::protocol::response::{
    diagnostic_of, find_diagnostic, lemma_diagnostic_in_literal,
    lemma_literal_header_reads_back, literal_length,
    parse_literal_length, quoted_string, status_of_upper, Diagnostic, DiagnosticView,
    ResponseLine, Status,
};
use crate::text::{
    contains_text, first_position_at, occurs_in, read_text, string_of, text_of,
};

verus! {

/// What the engine asks of the transport next.
#[derive(Debug, PartialEq, Eq, Clone, Copy)]
pub enum Need {
    /// One line, up to and including its line feed.
    Line,
    /// Exactly this many bytes, whatever they hold.
    Bytes(usize),
}

/// The number of bytes that follow a literal before the status line: CR and LF.
pub const LITERAL_FRAMING: usize = 2;

/// `word`, a space, and `argument` between double quotes.
pub open spec fn with_argument(word: Seq<char>, argument: Seq<char>) -> Seq<char> {
    word + " \""@ + argument + "\""@
}

/// What follows the opening brace of an inline literal: the number of bytes
/// of `payload`, the closing brace, and the payload right behind it, with no
/// line end between.
pub open spec fn counted(payload: Seq<char>) -> Seq<char> {
    decimal_text(encode_utf8(payload).len()) + "}"@ + payload
}

/// What is written to list the scripts.
pub open spec fn list_scripts_wire() -> Seq<char> {
    "LISTSCRIPTS\r\n"@
}

/// What is written to fetch a script.
pub open spec fn get_script_wire(script: Seq<char>) -> Seq<char> {
    with_argument("GETSCRIPT"@, script) + "\r\n"@
}

/// What is written to store a script: the command with the name, the
/// number of bytes of the content between braces, and the content
/// immediately behind the closing brace. Nothing is written behind the content.
pub open spec fn put_script_wire(script: Seq<char>, content: Seq<char>) -> Seq<char> {
    with_argument("PUTSCRIPT"@, script) + " {"@ + decimal_text(encode_utf8(content).len())
        + "}"@ + content
}

/// What is written to delete a script.
pub open spec fn delete_script_wire(script: Seq<char>) -> Seq<char> {
    with_argument("DELETESCRIPT"@, script) + "\r\n"@
}

/// What is written to rename a script.
pub open spec fn rename_script_wire(old_name: Seq<char>, new_name: Seq<char>) -> Seq<char> {
    with_argument("RENAMESCRIPT"@, old_name) + " \""@ + new_name + "\"\r\n"@
}

/// What is written to make a script the active one.
pub open spec fn set_active_wire(script: Seq<char>) -> Seq<char> {
    with_argument("SETACTIVE"@, script) + "\r\n"@
}

/// What is written to have a script checked: the command, the number of
/// bytes of the script between braces, and the script immediately behind the
/// closing brace.
pub open spec fn check_script_wire(script: Seq<char>) -> Seq<char> {
    "CHECKSCRIPT {"@ + decimal_text(encode_utf8(script).len()) + "}"@ + script
}

/// Appends `" \"argument\""` to `out`.
fn push_argument(out: &mut String, argument: &str)
    ensures
        final(out)@ == old(out)@ + " \""@ + argument@ + "\""@,
{
    out.append(" \"");
    out.append(argument);
    out.append("\"");
}

/// Appends what follows the opening brace of an inline literal that
/// carries `payload` to `out`.
fn push_counted(out: &mut String, payload: &str)
    ensures
        final(out)@ == old(out)@ + counted(payload@),
{
    let ghost before = out@;
    push_decimal(out, payload.as_bytes().len());
    out.append("}");
    out.append(payload);
    assert(out@ =~= before + counted(payload@));
}

/// The request that lists the scripts.
pub fn list_scripts_request() -> (r: String)
    ensures
        r@ == list_scripts_wire(),
{
    String::from_str("LISTSCRIPTS\r\n")
}

/// The request that fetches `script`.
pub fn get_script_request(script: &str) -> (r: String)
    ensures
        r@ == get_script_wire(script@),
{
    let mut r = String::from_str("GETSCRIPT");
    push_argument(&mut r, script);
    r.append("\r\n");
    r
}

/// The request that stores `content` under the name `script`.
pub fn put_script_request(script: &str, content: &str) -> (r: String)
    ensures
        r@ == put_script_wire(script@, content@),
{
    let mut r = String::from_str("PUTSCRIPT");
    push_argument(&mut r, script);
    r.append(" {");
    push_counted(&mut r, content);
    assert(r@ =~= put_script_wire(script@, content@));
    r
}

/// The request that deletes `script`.
pub fn delete_script_request(script: &str) -> (r: String)
    ensures
        r@ == delete_script_wire(script@),
{
    let mut r = String::from_str("DELETESCRIPT");
    push_argument(&mut r, script);
    r.append("\r\n");
    r
}

/// The request that renames `old_name` to `new_name`.
pub fn rename_script_request(old_name: &str, new_name: &str) -> (r: String)
    ensures
        r@ == rename_script_wire(old_name@, new_name@),
{
    let mut r = String::from_str("RENAMESCRIPT");
    push_argument(&mut r, old_name);
    r.append(" \"");
    r.append(new_name);
    r.append("\"\r\n");
    r
}

/// The request that makes `script` the active one.
pub fn set_active_request(script: &str) -> (r: String)
    ensures
        r@ == set_active_wire(script@),
{
    let mut r = String::from_str("SETACTIVE");
    push_argument(&mut r, script);
    r.append("\r\n");
    r
}

/// The request that has `script` checked.
pub fn check_script_request(script: &str) -> (r: String)
    ensures
        r@ == check_script_wire(script@),
{
    let mut r = String::from_str("CHECKSCRIPT {");
    push_counted(&mut r, script);
    assert(r@ =~= check_script_wire(script@));
    r
}

/// What the one response line to a stored script means: `OK` is success, `NO`
/// and `BYE` are server errors, anything else is an invalid response.
pub open spec fn put_script_result(text: Seq<char>, upper: Seq<char>) -> Result<
    (),
    ManageSieveErrorView,
> {
    match status_of_upper(upper) {
        Status::Okay => Ok(()),
        Status::No => Err(ManageSieveErrorView::ServerError(text)),
        Status::Bye => Err(ManageSieveErrorView::ServerError(text)),
        Status::Other => Err(ManageSieveErrorView::InvalidResponse(text)),
    }
}

/// What the one response line to a command on a named script means (delete,
/// rename, set active): as for a stored script, but `NO` says that the server
/// does not know `script`.
pub open spec fn named_script_result(
    script: Seq<char>,
    text: Seq<char>,
    upper: Seq<char>,
) -> Result<(), ManageSieveErrorView> {
    match status_of_upper(upper) {
        Status::Okay => Ok(()),
        Status::No => Err(ManageSieveErrorView::ScriptNotFound(script)),
        Status::Bye => Err(ManageSieveErrorView::ServerError(text)),
        Status::Other => Err(ManageSieveErrorView::InvalidResponse(text)),
    }
}

/// Reads the response to a stored script.
pub fn put_script_outcome(line: &ResponseLine) -> (r: Result<(), ManageSieveError>)
    ensures
        result_view(r) == put_script_result(line.text@, line.upper@),
{
    match line.status() {
        Status::Okay => Ok(()),
        Status::No => Err(ManageSieveError::ServerError(line.to_text())),
        Status::Bye => Err(ManageSieveError::ServerError(line.to_text())),
        Status::Other => Err(ManageSieveError::InvalidResponse(line.to_text())),
    }
}

/// Reads the response to a command on the script `script`.
fn named_script_outcome(script: &str, line: &ResponseLine) -> (r: Result<(), ManageSieveError>)
    ensures
        result_view(r) == named_script_result(script@, line.text@, line.upper@),
{
    match line.status() {
        Status::Okay => Ok(()),
        Status::No => Err(ManageSieveError::ScriptNotFound(String::from_str(script))),
        Status::Bye => Err(ManageSieveError::ServerError(line.to_text())),
        Status::Other => Err(ManageSieveError::InvalidResponse(line.to_text())),
    }
}

/// Reads the response to the deletion of `script`.
pub fn delete_script_outcome(script: &str, line: &ResponseLine) -> (r: Result<
    (),
    ManageSieveError,
>)
    ensures
        result_view(r) == named_script_result(script@, line.text@, line.upper@),
{
    named_script_outcome(script, line)
}

/// Reads the response to the renaming of `old_name`.
pub fn rename_script_outcome(old_name: &str, line: &ResponseLine) -> (r: Result<
    (),
    ManageSieveError,
>)
    ensures
        result_view(r) == named_script_result(old_name@, line.text@, line.upper@),
{
    named_script_outcome(old_name, line)
}

/// Reads the response to making `script` the active one.
pub fn set_active_outcome(script: &str, line: &ResponseLine) -> (r: Result<
    (),
    ManageSieveError,
>)
    ensures
        result_view(r) == named_script_result(script@, line.text@, line.upper@),
{
    named_script_outcome(script, line)
}

/// The entry that a line of the script list stands for: the quoted name at
/// its start, and whether `ACTIVE` occurs in the upper-case form of the line.
pub open spec fn script_entry(text: Seq<char>, upper: Seq<char>) -> Option<(Seq<char>, bool)> {
    match quoted_string(text, 0) {
        Parsed::Done { value, .. } => Some((value, occurs_in(upper, "ACTIVE"@))),
        _ => None,
    }
}

/// How one line of the response to a listing changes the list read so far.
pub ghost enum ListingView {
    /// The listing goes on with these entries.
    More(Seq<(Seq<char>, bool)>),
    /// The listing is complete with these entries.
    Finished(Seq<(Seq<char>, bool)>),
    /// The server refused or is closing the session.
    Failed(ManageSieveErrorView),
}

/// What one line of the response to a listing means: an empty line is passed
/// over, `OK` ends the listing, `NO` and `BYE` fail it, a line that begins
/// with a double quote adds an entry if a quoted name can be read from it,
/// and any other line is passed over.
pub open spec fn listing_step(
    entries: Seq<(Seq<char>, bool)>,
    text: Seq<char>,
    upper: Seq<char>,
) -> ListingView {
    if text.len() == 0 {
        ListingView::More(entries)
    } else {
        match status_of_upper(upper) {
            Status::Okay => ListingView::Finished(entries),
            Status::No => ListingView::Failed(ManageSieveErrorView::ServerError(text)),
            Status::Bye => ListingView::Failed(ManageSieveErrorView::ServerError(text)),
            Status::Other => match script_entry(text, upper) {
                Some(entry) => ListingView::More(entries.push(entry)),
                None => ListingView::More(entries),
            },
        }
    }
}

/// Whether a listing goes on after a line.
#[derive(Debug, PartialEq, Eq)]
pub enum Listing {
    /// More lines are to be read.
    More,
    /// The listing is complete.
    Finished,
    /// The server refused or is closing the session.
    Failed(ManageSieveError),
}

/// Reads the name of a script and its active mark from a line of the listing.
pub fn parse_script_line(line: &ResponseLine) -> (r: Option<(String, bool)>)
    ensures
        r.deep_view() == script_entry(line.text@, line.upper@),
{
    let text = line.text.as_slice();
    if text.len() == 0 || text[0] != '"' {
        return None;
    }
    let close = first_position_at(text, 1, '"');
    if close < text.len() {
        let name = string_of(text, 1, close);
        let active = contains_text(line.upper.as_slice(), "ACTIVE");
        Some((name, active))
    } else {
        None
    }
}

/// Takes one line of the response to a listing into `scripts`.
pub fn list_scripts_line(scripts: &mut Vec<(String, bool)>, line: &ResponseLine) -> (r: Listing)
    ensures
        match listing_step(old(scripts).deep_view(), line.text@, line.upper@) {
            ListingView::More(entries) => r is More && final(scripts).deep_view() == entries,
            ListingView::Finished(entries) => r is Finished && final(scripts).deep_view()
                == entries,
            ListingView::Failed(e) => r matches Listing::Failed(f) && f@ == e
                && final(scripts).deep_view() == old(scripts).deep_view(),
        },
{
    if line.is_blank() {
        return Listing::More;
    }
    match line.status() {
        Status::Okay => Listing::Finished,
        Status::No => Listing::Failed(ManageSieveError::ServerError(line.to_text())),
        Status::Bye => Listing::Failed(ManageSieveError::ServerError(line.to_text())),
        Status::Other => {
            match parse_script_line(line) {
                Some(entry) => {
                    let ghost before = scripts.deep_view();
                    let ghost added = entry.deep_view();
                    scripts.push(entry);
                    assert(scripts.deep_view() =~= before.push(added));
                },
                None => {},
            }
            Listing::More
        },
    }
}

/// What the first response line to a fetch means.
pub ghost enum FetchHeaderView {
    /// A literal of this many bytes follows.
    Literal(usize),
    /// The fetch has failed.
    Failed(ManageSieveErrorView),
}

/// What the first response line to the fetch of `script` means: a line that
/// begins with a brace has to be a literal header; otherwise `NO` says that
/// the server does not know the script, `BYE` is a server error, and
/// anything else is an invalid response.
pub open spec fn fetch_header(
    script: Seq<char>,
    text: Seq<char>,
    upper: Seq<char>,
) -> FetchHeaderView {
    if text.len() > 0 && text[0] == '{' {
        match literal_length(text) {
            Some(n) => FetchHeaderView::Literal(n),
            None => FetchHeaderView::Failed(
                ManageSieveErrorView::ProtocolError("Invalid literal length format"@),
            ),
        }
    } else {
        match status_of_upper(upper) {
            Status::No => FetchHeaderView::Failed(ManageSieveErrorView::ScriptNotFound(script)),
            Status::Bye => FetchHeaderView::Failed(ManageSieveErrorView::ServerError(text)),
            _ => FetchHeaderView::Failed(ManageSieveErrorView::InvalidResponse(text)),
        }
    }
}

/// What the status line behind the literal means: on `OK` the script is the
/// text of the bytes read; any other line is a server error that carries the
/// upper-case form of the line.
pub open spec fn fetch_result(content: Seq<u8>, upper: Seq<char>) -> Result<
    Seq<char>,
    ManageSieveErrorView,
> {
    match status_of_upper(upper) {
        Status::Okay => Ok(text_of(content)),
        _ => Err(ManageSieveErrorView::ServerError(upper)),
    }
}

/// The fetch of a script, between two reads.
#[derive(Debug, PartialEq, Eq)]
pub enum GetScript {
    /// The request is written; the first response line is awaited.
    Header { script: String },
    /// The literal header is read; the content is awaited.
    Content { length: usize },
    /// The content is read; the two bytes that frame the literal are awaited.
    Framing { content: Vec<u8> },
    /// The literal is passed; the status line is awaited.
    Status { content: Vec<u8> },
    /// The fetch is over.
    Finished(Result<String, ManageSieveError>),
}

/// The fetch of a script, between two reads, as mathematical values.
pub ghost enum GetScriptView {
    Header { script: Seq<char> },
    Content { length: usize },
    Framing { content: Seq<u8> },
    Status { content: Seq<u8> },
    Finished(Result<Seq<char>, ManageSieveErrorView>),
}

impl View for GetScript {
    type V = GetScriptView;

    open spec fn view(&self) -> GetScriptView {
        match self {
            GetScript::Header { script } => GetScriptView::Header { script: script@ },
            GetScript::Content { length } => GetScriptView::Content { length: *length },
            GetScript::Framing { content } => GetScriptView::Framing { content: content@ },
            GetScript::Status { content } => GetScriptView::Status { content: content@ },
            GetScript::Finished(result) => GetScriptView::Finished(result_view(*result)),
        }
    }
}

/// What a fetch asks for next, if anything: a line for the header, the
/// content in as many bytes as the header said, the two bytes that frame the
/// literal, and a line for the status.
pub open spec fn fetch_need(state: GetScriptView) -> Option<Need> {
    match state {
        GetScriptView::Header { .. } => Some(Need::Line),
        GetScriptView::Content { length } => Some(Need::Bytes(length)),
        GetScriptView::Framing { .. } => Some(Need::Bytes(LITERAL_FRAMING)),
        GetScriptView::Status { .. } => Some(Need::Line),
        GetScriptView::Finished(_) => None,
    }
}

/// A fetch after a line is read. A line that was not asked for changes nothing.
pub open spec fn fetch_after_line(
    state: GetScriptView,
    text: Seq<char>,
    upper: Seq<char>,
) -> GetScriptView {
    match state {
        GetScriptView::Header { script } => match fetch_header(script, text, upper) {
            FetchHeaderView::Literal(length) => GetScriptView::Content { length },
            FetchHeaderView::Failed(e) => GetScriptView::Finished(Err(e)),
        },
        GetScriptView::Status { content } => GetScriptView::Finished(
            fetch_result(content, upper),
        ),
        other => other,
    }
}

/// A fetch after bytes are read: the content is kept as it came, whatever it
/// holds, and the bytes that frame the literal are dropped. Bytes that were
/// not asked for change nothing.
pub open spec fn fetch_after_bytes(state: GetScriptView, bytes: Seq<u8>) -> GetScriptView {
    match state {
        GetScriptView::Content { .. } => GetScriptView::Framing { content: bytes },
        GetScriptView::Framing { content } => GetScriptView::Status { content },
        other => other,
    }
}

impl GetScript {
    /// The state in which the request for `script` has just been written.
    pub fn begin(script: &str) -> (r: GetScript)
        ensures
            r@ == (GetScriptView::Header { script: script@ }),
    {
        GetScript::Header { script: String::from_str(script) }
    }

    /// What is to be read next, if anything.
    pub fn need(&self) -> (r: Option<Need>)
        ensures
            r == fetch_need(self@),
    {
        match self {
            GetScript::Header { .. } => Some(Need::Line),
            GetScript::Content { length } => Some(Need::Bytes(*length)),
            GetScript::Framing { .. } => Some(Need::Bytes(LITERAL_FRAMING)),
            GetScript::Status { .. } => Some(Need::Line),
            GetScript::Finished(_) => None,
        }
    }

    /// Takes a line. On `OK` behind a literal of valid UTF-8, the script is
    /// the text that the bytes encode.
    pub fn line(self, line: &ResponseLine) -> (r: GetScript)
        ensures
            r@ == fetch_after_line(self@, line.text@, line.upper@),
            self matches GetScript::Status { content } ==> (valid_utf8(content@)
                && status_of_upper(line.upper@) == Status::Okay ==> r@ == GetScriptView::Finished(
                Ok(decode_utf8(content@)),
            )),
    {
        match self {
            GetScript::Header { script } => {
                let text = line.text.as_slice();
                if text.len() > 0 && text[0] == '{' {
                    match parse_literal_length(text) {
                        Some(length) => GetScript::Content { length },
                        None => GetScript::Finished(
                            Err(
                                ManageSieveError::ProtocolError(
                                    String::from_str("Invalid literal length format"),
                                ),
                            ),
                        ),
                    }
                } else {
                    match line.status() {
                        Status::No => GetScript::Finished(
                            Err(ManageSieveError::ScriptNotFound(script)),
                        ),
                        Status::Bye => GetScript::Finished(
                            Err(ManageSieveError::ServerError(line.to_text())),
                        ),
                        _ => GetScript::Finished(
                            Err(ManageSieveError::InvalidResponse(line.to_text())),
                        ),
                    }
                }
            },
            GetScript::Status { content } => {
                match line.status() {
                    Status::Okay => GetScript::Finished(Ok(read_text(content.as_slice()))),
                    _ => GetScript::Finished(
                        Err(ManageSieveError::ServerError(line.to_upper_text())),
                    ),
                }
            },
            other => other,
        }
    }

    /// Takes bytes.
    pub fn bytes(self, bytes: Vec<u8>) -> (r: GetScript)
        ensures
            r@ == fetch_after_bytes(self@, bytes@),
    {
        match self {
            GetScript::Content { .. } => GetScript::Framing { content: bytes },
            GetScript::Framing { content } => GetScript::Status { content },
            other => other,
        }
    }
}

/// The framing of a literal: whatever the content holds, line ends too, a
/// fetch that reads the header of its length asks for exactly that many
/// bytes, then for the two bytes that frame the literal, then for the status
/// line; and on `OK` the script is the text of the content.
pub proof fn lemma_literal_framing(
    script: Seq<char>,
    upper: Seq<char>,
    content: Seq<u8>,
    framing: Seq<u8>,
    status_text: Seq<char>,
    status_upper: Seq<char>,
)
    requires
        content.len() <= usize::MAX,
        status_of_upper(status_upper) == Status::Okay,
    ensures
        ({
            let header = "{"@ + decimal_text(content.len()) + "}"@;
            let announced = fetch_after_line(GetScriptView::Header { script }, header, upper);
            let read = fetch_after_bytes(announced, content);
            let framed = fetch_after_bytes(read, framing);
            &&& fetch_need(announced) == Some(Need::Bytes(content.len() as usize))
            &&& fetch_need(read) == Some(Need::Bytes(2))
            &&& fetch_need(framed) == Some(Need::Line)
            &&& fetch_after_line(framed, status_text, status_upper) == GetScriptView::Finished(
                Ok(text_of(content)),
            )
        }),
{
    lemma_literal_header_reads_back(content.len());
    reveal_strlit("{");
}

/// What the response line to a check means.
pub ghost enum CheckedView {
    /// The check is over.
    Finished(Result<Option<Seq<char>>, ManageSieveErrorView>),
    /// The script has warnings; they follow as a literal of this many bytes.
    WarningLiteral(usize),
    /// The script was refused; the reason follows as a literal of this many bytes.
    ErrorLiteral(usize),
}

/// The message that stands for warnings that the server did not spell out.
pub open spec fn unnamed_warning() -> Seq<char> {
    "Script has warnings"@
}

/// What the response line to a check means. On `OK` the script is accepted,
/// with a warning if `(WARNINGS)` occurs in the upper-case form of the line;
/// on `NO` it is refused. The message is found as `diagnostic_of` says. `BYE`
/// is a server error, and anything else an invalid response.
pub open spec fn check_step(text: Seq<char>, upper: Seq<char>) -> CheckedView {
    match status_of_upper(upper) {
        Status::Okay => if occurs_in(upper, "(WARNINGS)"@) {
            match diagnostic_of(text, unnamed_warning()) {
                DiagnosticView::Text(message) => CheckedView::Finished(Ok(Some(message))),
                DiagnosticView::Literal(n) => CheckedView::WarningLiteral(n),
            }
        } else {
            CheckedView::Finished(Ok(None))
        },
        Status::No => match diagnostic_of(text, text) {
            DiagnosticView::Text(message) => CheckedView::Finished(
                Err(ManageSieveErrorView::ServerError(message)),
            ),
            DiagnosticView::Literal(n) => CheckedView::ErrorLiteral(n),
        },
        Status::Bye => CheckedView::Finished(Err(ManageSieveErrorView::ServerError(text))),
        Status::Other => CheckedView::Finished(
            Err(ManageSieveErrorView::InvalidResponse(text)),
        ),
    }
}

/// What a check comes to once the literal with the message is read.
pub open spec fn check_literal_result(warning: bool, bytes: Seq<u8>) -> Result<
    Option<Seq<char>>,
    ManageSieveErrorView,
> {
    if warning {
        Ok(Some(text_of(bytes)))
    } else {
        Err(ManageSieveErrorView::ServerError(text_of(bytes)))
    }
}

/// The check of a script, between two reads.
#[derive(Debug, PartialEq, Eq)]
pub enum CheckScript {
    /// The request is written; the response line is awaited.
    Status,
    /// The script has warnings; the literal that holds them is awaited.
    WarningLiteral { length: usize },
    /// The script was refused; the literal that holds the reason is awaited.
    ErrorLiteral { length: usize },
    /// The check is over: no message, a warning, or an error.
    Finished(Result<Option<String>, ManageSieveError>),
}

/// The check of a script, between two reads, as mathematical values.
pub ghost enum CheckScriptView {
    Status,
    WarningLiteral { length: usize },
    ErrorLiteral { length: usize },
    Finished(Result<Option<Seq<char>>, ManageSieveErrorView>),
}

impl View for CheckScript {
    type V = CheckScriptView;

    open spec fn view(&self) -> CheckScriptView {
        match self {
            CheckScript::Status => CheckScriptView::Status,
            CheckScript::WarningLiteral { length } => CheckScriptView::WarningLiteral {
                length: *length,
            },
            CheckScript::ErrorLiteral { length } => CheckScriptView::ErrorLiteral {
                length: *length,
            },
            CheckScript::Finished(result) => CheckScriptView::Finished(result_view(*result)),
        }
    }
}

/// What a check asks for next, if anything.
pub open spec fn check_need(state: CheckScriptView) -> Option<Need> {
    match state {
        CheckScriptView::Status => Some(Need::Line),
        CheckScriptView::WarningLiteral { length } => Some(Need::Bytes(length)),
        CheckScriptView::ErrorLiteral { length } => Some(Need::Bytes(length)),
        CheckScriptView::Finished(_) => None,
    }
}

/// A check after a line is read. A line that was not asked for changes nothing.
pub open spec fn check_after_line(
    state: CheckScriptView,
    text: Seq<char>,
    upper: Seq<char>,
) -> CheckScriptView {
    match state {
        CheckScriptView::Status => match check_step(text, upper) {
            CheckedView::Finished(result) => CheckScriptView::Finished(result),
            CheckedView::WarningLiteral(length) => CheckScriptView::WarningLiteral { length },
            CheckedView::ErrorLiteral(length) => CheckScriptView::ErrorLiteral { length },
        },
        other => other,
    }
}

/// A check after the literal that holds the message is read. Bytes that
/// were not asked for change nothing.
pub open spec fn check_after_bytes(state: CheckScriptView, bytes: Seq<u8>) -> CheckScriptView {
    match state {
        CheckScriptView::WarningLiteral { .. } => CheckScriptView::Finished(
            check_literal_result(true, bytes),
        ),
        CheckScriptView::ErrorLiteral { .. } => CheckScriptView::Finished(
            check_literal_result(false, bytes),
        ),
        other => other,
    }
}

/// A message that follows the status line as a literal is read from the
/// literal: where the line holds no double quote and ends in the header of a
/// literal of `n` bytes, a refusal asks for exactly `n` bytes and fails with
/// their text, and an acceptance with warnings asks for exactly `n` bytes
/// and hands their text out as the warning.
pub proof fn lemma_message_in_literal(
    before: Seq<char>,
    n: nat,
    upper: Seq<char>,
    bytes: Seq<u8>,
)
    requires
        n <= usize::MAX,
        forall|i: int| 0 <= i < before.len() ==> before[i] != '"',
    ensures
        ({
            let line = before + "{"@ + decimal_text(n) + "}"@;
            let answered = check_after_line(CheckScriptView::Status, line, upper);
            &&& status_of_upper(upper) == Status::No ==> {
                &&& answered == (CheckScriptView::ErrorLiteral { length: n as usize })
                &&& check_need(answered) == Some(Need::Bytes(n as usize))
                &&& check_after_bytes(answered, bytes) == CheckScriptView::Finished(
                    Err(ManageSieveErrorView::ServerError(text_of(bytes))),
                )
            }
            &&& status_of_upper(upper) == Status::Okay && occurs_in(upper, "(WARNINGS)"@) ==> {
                &&& answered == (CheckScriptView::WarningLiteral { length: n as usize })
                &&& check_need(answered) == Some(Need::Bytes(n as usize))
                &&& check_after_bytes(answered, bytes) == CheckScriptView::Finished(
                    Ok(Some(text_of(bytes))),
                )
            }
        }),
{
    let line = before + "{"@ + decimal_text(n) + "}"@;
    lemma_diagnostic_in_literal(before, n, line);
    lemma_diagnostic_in_literal(before, n, unnamed_warning());
}

impl CheckScript {
    /// The state in which the request has just been written.
    pub fn begin() -> (r: CheckScript)
        ensures
            r@ == CheckScriptView::Status,
    {
        CheckScript::Status
    }

    /// What is to be read next, if anything.
    pub fn need(&self) -> (r: Option<Need>)
        ensures
            r == check_need(self@),
    {
        match self {
            CheckScript::Status => Some(Need::Line),
            CheckScript::WarningLiteral { length } => Some(Need::Bytes(*length)),
            CheckScript::ErrorLiteral { length } => Some(Need::Bytes(*length)),
            CheckScript::Finished(_) => None,
        }
    }

    /// Takes a line.
    pub fn line(self, line: &ResponseLine) -> (r: CheckScript)
        ensures
            r@ == check_after_line(self@, line.text@, line.upper@),
    {
        match self {
            CheckScript::Status => {
                let text = line.text.as_slice();
                match line.status() {
                    Status::Okay => {
                        if contains_text(line.upper.as_slice(), "(WARNINGS)") {
                            match find_diagnostic(text, String::from_str("Script has warnings")) {
                                Diagnostic::Text(message) => CheckScript::Finished(
                                    Ok(Some(message)),
                                ),
                                Diagnostic::Literal(length) => CheckScript::WarningLiteral {
                                    length,
                                },
                            }
                        } else {
                            CheckScript::Finished(Ok(None))
                        }
                    },
                    Status::No => {
                        match find_diagnostic(text, line.to_text()) {
                            Diagnostic::Text(message) => CheckScript::Finished(
                                Err(ManageSieveError::ServerError(message)),
                            ),
                            Diagnostic::Literal(length) => CheckScript::ErrorLiteral { length },
                        }
                    },
                    Status::Bye => CheckScript::Finished(
                        Err(ManageSieveError::ServerError(line.to_text())),
                    ),
                    Status::Other => CheckScript::Finished(
                        Err(ManageSieveError::InvalidResponse(line.to_text())),
                    ),
                }
            },
            other => other,
        }
    }

    /// Takes bytes. Where a message was awaited and the bytes are valid
    /// UTF-8, the message is the text that they encode.
    pub fn bytes(self, bytes: &[u8]) -> (r: CheckScript)
        ensures
            r@ == check_after_bytes(self@, bytes@),
            self is WarningLiteral && valid_utf8(bytes@) ==> r@ == CheckScriptView::Finished(
                Ok(Some(decode_utf8(bytes@))),
            ),
            self is ErrorLiteral && valid_utf8(bytes@) ==> r@ == CheckScriptView::Finished(
                Err(ManageSieveErrorView::ServerError(decode_utf8(bytes@))),
            ),
    {
        match self {
            CheckScript::WarningLiteral { .. } => CheckScript::Finished(
                Ok(Some(read_text(bytes))),
            ),
            CheckScript::ErrorLiteral { .. } => CheckScript::Finished(
                Err(ManageSieveError::ServerError(read_text(bytes))),
            ),
            other => other,
        }
    }
}

} // verus!

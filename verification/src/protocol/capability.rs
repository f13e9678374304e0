//! The capabilities that a server announces, and the lines that carry them.

use vstd::prelude::*;
use crate::decimal::{decimal_text, lemma_decimal_reads_back, parse_unsigned, unsigned_decimal};
use crate::error::result_view;
use crate::protocol::name_map::NameMap;
use crate::outcome::{agrees, finish, step_view, within, ParseError, Parsed, Step};
use crate::protocol::response::{
    quoted_string, quoted_string_at, status_of_upper, ResponseLine, Status,
};
use crate::text::{
    chars_of, is_text, lemma_first_position_is, split_words, string_of, trimmed, trimmed_chars,
    uppercase, words,
};

verus! {

/// What a server has announced about itself.
#[derive(Debug, Clone)]
pub struct Capabilities {
    /// The name of the implementation.
    pub implementation: Option<String>,
    /// The authentication mechanisms, in the order announced.
    pub sasl: Vec<String>,
    /// The script-language extensions, in the order announced.
    pub sieve: Vec<String>,
    /// Whether the upgrade to TLS is offered.
    pub starttls: bool,
    /// The largest number of redirects.
    pub maxredirects: Option<u32>,
    /// The notification methods, in the order announced.
    pub notify: Vec<String>,
    /// The default language.
    pub language: Option<String>,
    /// The identity of the owner.
    pub owner: Option<String>,
    /// The version of the protocol.
    pub version: Option<String>,
    /// Every other capability, under its name as written.
    pub other: NameMap,
}

/// What a server has announced about itself, as mathematical values.
pub ghost struct CapabilitiesView {
    pub implementation: Option<Seq<char>>,
    pub sasl: Seq<Seq<char>>,
    pub sieve: Seq<Seq<char>>,
    pub starttls: bool,
    pub maxredirects: Option<u32>,
    pub notify: Seq<Seq<char>>,
    pub language: Option<Seq<char>>,
    pub owner: Option<Seq<char>>,
    pub version: Option<Seq<char>>,
    pub other: Map<Seq<char>, Seq<char>>,
}

impl View for Capabilities {
    type V = CapabilitiesView;

    open spec fn view(&self) -> CapabilitiesView {
        CapabilitiesView {
            implementation: self.implementation.deep_view(),
            sasl: self.sasl.deep_view(),
            sieve: self.sieve.deep_view(),
            starttls: self.starttls,
            maxredirects: self.maxredirects,
            notify: self.notify.deep_view(),
            language: self.language.deep_view(),
            owner: self.owner.deep_view(),
            version: self.version.deep_view(),
            other: self.other@,
        }
    }
}

impl DeepView for Capabilities {
    type V = CapabilitiesView;

    open spec fn deep_view(&self) -> CapabilitiesView {
        self@
    }
}

/// The capabilities of a server that has announced nothing.
pub open spec fn nothing_announced() -> CapabilitiesView {
    CapabilitiesView {
        implementation: None,
        sasl: Seq::empty(),
        sieve: Seq::empty(),
        starttls: false,
        maxredirects: None,
        notify: Seq::empty(),
        language: None,
        owner: None,
        version: None,
        other: Map::empty(),
    }
}

impl Default for Capabilities {
    fn default() -> (r: Capabilities)
        ensures
            r@ == nothing_announced(),
    {
        let r = Capabilities {
            implementation: None,
            sasl: Vec::new(),
            sieve: Vec::new(),
            starttls: false,
            maxredirects: None,
            notify: Vec::new(),
            language: None,
            owner: None,
            version: None,
            other: NameMap::new(),
        };
        assert(r.sasl.deep_view() =~= Seq::<Seq<char>>::empty());
        assert(r.sieve.deep_view() =~= Seq::<Seq<char>>::empty());
        assert(r.notify.deep_view() =~= Seq::<Seq<char>>::empty());
        r
    }
}

/// The number that the value of `MAXREDIRECTS` denotes, if it denotes one.
pub open spec fn redirect_limit(value: Seq<char>) -> Option<u32> {
    match unsigned_decimal(value, u32::MAX as int) {
        Some(n) => Some(n as u32),
        None => None,
    }
}

/// The capabilities after one more capability is taken in. `key` is the name
/// in upper case, by which the capability is recognised; `name` is the name
/// as written. A list is replaced only where a value came with the name, and
/// so is the redirect limit only where the value is a number. What is not
/// recognised is kept under `name`, with the empty text for a missing value.
pub open spec fn updated(
    c: CapabilitiesView,
    key: Seq<char>,
    name: Seq<char>,
    value: Option<Seq<char>>,
) -> CapabilitiesView {
    if key == "IMPLEMENTATION"@ {
        CapabilitiesView { implementation: value, ..c }
    } else if key == "SASL"@ {
        match value {
            Some(v) => CapabilitiesView { sasl: words(v), ..c },
            None => c,
        }
    } else if key == "SIEVE"@ {
        match value {
            Some(v) => CapabilitiesView { sieve: words(v), ..c },
            None => c,
        }
    } else if key == "STARTTLS"@ {
        CapabilitiesView { starttls: true, ..c }
    } else if key == "MAXREDIRECTS"@ {
        match value {
            Some(v) => match redirect_limit(v) {
                Some(n) => CapabilitiesView { maxredirects: Some(n), ..c },
                None => c,
            },
            None => c,
        }
    } else if key == "NOTIFY"@ {
        match value {
            Some(v) => CapabilitiesView { notify: words(v), ..c },
            None => c,
        }
    } else if key == "LANGUAGE"@ {
        CapabilitiesView { language: value, ..c }
    } else if key == "OWNER"@ {
        CapabilitiesView { owner: value, ..c }
    } else if key == "VERSION"@ {
        CapabilitiesView { version: value, ..c }
    } else {
        CapabilitiesView {
            other: c.other.insert(
                name,
                match value {
                    Some(v) => v,
                    None => Seq::empty(),
                },
            ),
            ..c
        }
    }
}

/// `MAXREDIRECTS` with the decimal text of a number sets the limit to that
/// number; with a value that denotes no number it leaves the limit as it was.
/// Nothing else is changed.
pub proof fn lemma_redirect_limit(c: CapabilitiesView, name: Seq<char>, value: Seq<char>, n: u32)
    ensures
        redirect_limit(decimal_text(n as nat)) == Some(n),
        updated(c, "MAXREDIRECTS"@, name, Some(decimal_text(n as nat))) == (CapabilitiesView {
            maxredirects: Some(n),
            ..c
        }),
        redirect_limit(value) is None ==> updated(c, "MAXREDIRECTS"@, name, Some(value)) == c,
        updated(c, "MAXREDIRECTS"@, name, None) == c,
{
    lemma_decimal_reads_back(n as nat, u32::MAX as int);
    reveal_strlit("MAXREDIRECTS");
    reveal_strlit("IMPLEMENTATION");
    reveal_strlit("SASL");
    reveal_strlit("SIEVE");
    reveal_strlit("STARTTLS");
    assert("MAXREDIRECTS"@.len() == 12);
    assert("IMPLEMENTATION"@.len() == 14);
    assert("SASL"@.len() == 4);
    assert("SIEVE"@.len() == 5);
    assert("STARTTLS"@.len() == 8);
}

/// Reads the value of `MAXREDIRECTS`.
pub fn parse_redirect_limit(value: &str) -> (r: Option<u32>)
    ensures
        r == redirect_limit(value@),
{
    let digits = chars_of(value);
    assert(digits@.subrange(0, digits@.len() as int) =~= digits@);
    match parse_unsigned(digits.as_slice(), 0, digits.len(), u32::MAX as u64) {
        Some(n) => Some(n as u32),
        None => None,
    }
}

/// Takes one capability into `capabilities`, given its name in upper case.
pub fn apply_capability(
    capabilities: &mut Capabilities,
    key: &[char],
    name: String,
    value: Option<String>,
)
    ensures
        final(capabilities)@ == updated(old(capabilities)@, key@, name@, value.deep_view()),
{
    if is_text(key, "IMPLEMENTATION") {
        capabilities.implementation = value;
    } else if is_text(key, "SASL") {
        if let Some(mechanisms) = value {
            capabilities.sasl = split_words(mechanisms.as_str());
        }
    } else if is_text(key, "SIEVE") {
        if let Some(extensions) = value {
            capabilities.sieve = split_words(extensions.as_str());
        }
    } else if is_text(key, "STARTTLS") {
        capabilities.starttls = true;
    } else if is_text(key, "MAXREDIRECTS") {
        if let Some(number) = value {
            if let Some(limit) = parse_redirect_limit(number.as_str()) {
                capabilities.maxredirects = Some(limit);
            }
        }
    } else if is_text(key, "NOTIFY") {
        if let Some(methods) = value {
            capabilities.notify = split_words(methods.as_str());
        }
    } else if is_text(key, "LANGUAGE") {
        capabilities.language = value;
    } else if is_text(key, "OWNER") {
        capabilities.owner = value;
    } else if is_text(key, "VERSION") {
        capabilities.version = value;
    } else {
        let stored = match value {
            Some(v) => v,
            None => String::new(),
        };
        capabilities.other.insert(name, stored);
    }
}

/// Takes one capability into `capabilities`. The name is recognised without
/// regard to case.
pub fn update_capabilities(capabilities: &mut Capabilities, name: String, value: Option<String>)
    ensures
        final(capabilities)@ == updated(
            old(capabilities)@,
            uppercase(name@),
            name@,
            value.deep_view(),
        ),
{
    let key = chars_of(name.to_uppercase().as_str());
    apply_capability(capabilities, key.as_slice(), name, value);
}

/// The first position at or after `from` that holds neither a space nor a tab.
pub open spec fn skip_spaces(s: Seq<char>, from: int) -> int
    decreases s.len() - from,
{
    if 0 <= from < s.len() && (s[from] == ' ' || s[from] == '\t') {
        skip_spaces(s, from + 1)
    } else {
        from
    }
}

/// A capability at position `pos`: a quoted name, then spaces or tabs as they
/// come, then a quoted value if one follows.
pub open spec fn capability(s: Seq<char>, pos: int) -> Parsed<(Seq<char>, Option<Seq<char>>)> {
    match quoted_string(s, pos) {
        Parsed::Done { end, value: name } => {
            let next = skip_spaces(s, end);
            match quoted_string(s, next) {
                Parsed::Done { end: last, value } => Parsed::Done {
                    end: last,
                    value: (name, Some(value)),
                },
                _ => Parsed::Done { end: next, value: (name, None) },
            }
        },
        Parsed::Unmatched { at } => Parsed::Unmatched { at },
        Parsed::Incomplete => Parsed::Incomplete,
    }
}

/// What a capability line holds: the capability that its text without the
/// white space around it consists of. A line with more behind the capability
/// is refused and the rest reported; a line that holds no capability is
/// refused too.
pub open spec fn capability_line(line: Seq<char>) -> Result<
    (Seq<char>, Option<Seq<char>>),
    Seq<char>,
> {
    capability_text(trimmed(line))
}

/// What a capability line holds, given its text without the white space around it.
pub open spec fn capability_text(text: Seq<char>) -> Result<
    (Seq<char>, Option<Seq<char>>),
    Seq<char>,
> {
    match capability(text, 0) {
        Parsed::Done { end, value } => if end < text.len() {
            Err("Unexpected content after capability: "@ + text.skip(end))
        } else {
            Ok(value)
        },
        _ => Err("Invalid capability format"@),
    }
}

/// A capability written as a quoted name, one space and a quoted value is
/// read back as that name and that value, if neither holds a double quote.
pub proof fn lemma_capability_reads_back(name: Seq<char>, value: Seq<char>)
    requires
        forall|i: int| 0 <= i < name.len() ==> name[i] != '"',
        forall|i: int| 0 <= i < value.len() ==> value[i] != '"',
    ensures
        capability_text(seq!['"'] + name + seq!['"', ' ', '"'] + value + seq!['"']) == Ok::<
            (Seq<char>, Option<Seq<char>>),
            Seq<char>,
        >((name, Some(value))),
        capability_text(seq!['"'] + name + seq!['"']) == Ok::<
            (Seq<char>, Option<Seq<char>>),
            Seq<char>,
        >((name, None)),
{
    let long = seq!['"'] + name + seq!['"', ' ', '"'] + value + seq!['"'];
    let n = name.len() as int;
    let v = value.len() as int;
    lemma_first_position_is(long, 1, n + 1, '"');
    assert(long.subrange(1, n + 1) =~= name);
    assert(skip_spaces(long, n + 2) == n + 3) by {
        assert(long[n + 2] == ' ');
        assert(long[n + 3] == '"');
        assert(skip_spaces(long, n + 3) == n + 3);
    }
    lemma_first_position_is(long, n + 4, n + 4 + v, '"');
    assert(long.subrange(n + 4, n + 4 + v) =~= value);
    let short = seq!['"'] + name + seq!['"'];
    lemma_first_position_is(short, 1, n + 1, '"');
    assert(short.subrange(1, n + 1) =~= name);
    assert(skip_spaces(short, n + 2) == n + 2);
}

/// Computes `skip_spaces`.
pub fn skip_spaces_at(s: &[char], from: usize) -> (end: usize)
    requires
        from <= s@.len(),
    ensures
        end == skip_spaces(s@, from as int),
        from <= end <= s@.len(),
{
    let mut i: usize = from;
    while i < s.len() && (s[i] == ' ' || s[i] == '\t')
        invariant
            from <= i <= s@.len(),
            skip_spaces(s@, from as int) == skip_spaces(s@, i as int),
        decreases s@.len() - i,
    {
        i += 1;
    }
    i
}

/// Reads a capability at position `pos`.
pub fn capability_at(s: &[char], pos: usize) -> (r: Step<(String, Option<String>)>)
    requires
        pos <= s@.len(),
    ensures
        step_view(r) == capability(s@, pos as int),
        within(step_view(r), pos as int, s@.len() as int),
{
    match quoted_string_at(s, pos) {
        Ok((end, name)) => {
            let next = skip_spaces_at(s, end);
            match quoted_string_at(s, next) {
                Ok((last, value)) => Ok((last, (name, Some(value)))),
                Err(_) => Ok((next, (name, None))),
            }
        },
        Err(stop) => Err(stop),
    }
}

/// Reads a capability from the start of `input`.
pub fn parse_capability<'a>(input: &'a str) -> (r: Result<
    (&'a str, (String, Option<String>)),
    ParseError<'a>,
>)
    ensures
        agrees(r, input@, capability(input@, 0)),
{
    let s = chars_of(input);
    finish(input, capability_at(s.as_slice(), 0))
}

/// Reads the capability that `text` consists of.
pub fn parse_capability_text(text: &[char]) -> (r: Result<(String, Option<String>), String>)
    ensures
        result_view(r) == capability_text(text@),
{
    match capability_at(text, 0) {
        Ok((end, found)) => {
            if end < text.len() {
                let mut message = String::from_str("Unexpected content after capability: ");
                let rest = string_of(text, end, text.len());
                message.append(rest.as_str());
                Err(message)
            } else {
                Ok(found)
            }
        },
        Err(_) => Err(String::from_str("Invalid capability format")),
    }
}

/// Reads the capability that a line holds.
pub fn parse_capability_line(line: &str) -> (r: Result<(String, Option<String>), String>)
    ensures
        result_view(r) == capability_line(line@),
{
    let text = trimmed_chars(line);
    parse_capability_text(text.as_slice())
}

/// Whether a line ends a greeting or a list of capabilities: it is not empty
/// and its status is `OK`.
pub open spec fn ends_announcement(text: Seq<char>, upper: Seq<char>) -> bool {
    text.len() > 0 && status_of_upper(upper) == Status::Okay
}

/// Whether `line` ends a greeting or a list of capabilities.
pub fn is_end_of_announcement(line: &ResponseLine) -> (b: bool)
    ensures
        b == ends_announcement(line.text@, line.upper@),
{
    if line.is_blank() {
        return false;
    }
    match line.status() {
        Status::Okay => true,
        _ => false,
    }
}

/// The capabilities after one more line of the announcement, and whether the
/// line ended it. An empty line changes nothing; so does a line that holds no
/// capability.
pub open spec fn announced(c: CapabilitiesView, text: Seq<char>, upper: Seq<char>) -> (
    CapabilitiesView,
    bool,
) {
    if text.len() == 0 {
        (c, false)
    } else if ends_announcement(text, upper) {
        (c, true)
    } else {
        match capability_text(text) {
            Ok((name, value)) => (updated(c, uppercase(name), name, value), false),
            Err(_) => (c, false),
        }
    }
}

/// Takes one line of the announcement into `capabilities` and says whether
/// the line ended it.
pub fn capabilities_line(capabilities: &mut Capabilities, line: &ResponseLine) -> (finished: bool)
    ensures
        (final(capabilities)@, finished) == announced(
            old(capabilities)@,
            line.text@,
            line.upper@,
        ),
{
    if line.is_blank() {
        return false;
    }
    if is_end_of_announcement(line) {
        return true;
    }
    match parse_capability_text(line.text.as_slice()) {
        Ok((name, value)) => {
            update_capabilities(capabilities, name, value);
        },
        Err(_) => {},
    }
    false
}

} // verus!

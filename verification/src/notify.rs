use vstd::prelude::*;
use vstd::string::StringExecFns;

verus! {

/// Lowercase hex digit of a value below 16.
pub open spec fn hex_digit(n: int) -> char
    recommends
        0 <= n < 16,
{
    if n < 10 {
        (('0' as int) + n) as char
    } else {
        (('a' as int) + (n - 10)) as char
    }
}

/// How one character appears inside a JSON string: quote and backslash get
/// a two-character escape, the named ASCII control characters get their
/// short escapes, the remaining control characters below space become
/// `\u00xy` with lowercase hex, and everything else stands verbatim.
pub open spec fn json_escape_char(c: char) -> Seq<char> {
    if c == '"' {
        seq!['\\', '"']
    } else if c == '\\' {
        seq!['\\', '\\']
    } else if c == '\u{8}' {
        seq!['\\', 'b']
    } else if c == '\t' {
        seq!['\\', 't']
    } else if c == '\n' {
        seq!['\\', 'n']
    } else if c == '\u{c}' {
        seq!['\\', 'f']
    } else if c == '\r' {
        seq!['\\', 'r']
    } else if (c as int) < 0x20 {
        seq!['\\', 'u', '0', '0', hex_digit((c as int) / 16), hex_digit((c as int) % 16)]
    } else {
        seq![c]
    }
}

/// A whole string escaped for inclusion in a JSON string literal.
pub open spec fn json_escape(s: Seq<char>) -> Seq<char>
    decreases s.len(),
{
    if s.len() == 0 {
        Seq::empty()
    } else {
        json_escape(s.drop_last()) + json_escape_char(s.last())
    }
}

/// A JSON string literal: the escaped contents between double quotes.
pub open spec fn json_string(s: Seq<char>) -> Seq<char> {
    seq!['"'] + json_escape(s) + seq!['"']
}

/// A compact one-entry JSON object, as the webhook payload requires:
/// `{"<key>":"<value>"}` with both strings escaped.
pub open spec fn json_object(key: Seq<char>, value: Seq<char>) -> Seq<char> {
    seq!['{'] + json_string(key) + seq![':'] + json_string(value) + seq!['}']
}

/// Relies on serde_json::to_string applied to a one-entry map from string
/// to string: its compact formatter prints `{`, the key as a JSON string
/// literal, `:`, the value as a JSON string literal, and `}`, escaping
/// quote, backslash and the control characters below space exactly as
/// `json_escape` states; serializing string keys and string values into an
/// in-memory buffer cannot fail.
#[verifier::external_body]
fn json_string_object(key: &str, value: &str) -> (r: String)
    ensures
        r@ == json_object(key@, value@),
{
    let mut entries = std::collections::BTreeMap::new();
    entries.insert(key, value);
    match serde_json::to_string(&entries) {
        Ok(s) => s,
        Err(_) => String::new(),
    }
}

/// The announcement line for one digest.
pub open spec fn notification_text(digest_text: Seq<char>) -> Seq<char> {
    ("Daily Digest: ")@ + digest_text
}

/// Prefix the digest text with the announcement heading.
pub fn notification_content(digest_text: &str) -> (r: String)
    ensures
        r@ == notification_text(digest_text@),
{
    let mut out = String::from_str("Daily Digest: ");
    out.append(digest_text);
    out
}

/// The webhook payload announcing one digest: a JSON object whose single
/// `content` field carries the announcement line.
pub open spec fn payload_of(digest_text: Seq<char>) -> Seq<char> {
    json_object(("content")@, notification_text(digest_text))
}

/// Build the webhook payload for a digest.
pub fn notification_payload(digest_text: &str) -> (r: String)
    ensures
        r@ == payload_of(digest_text@),
{
    let content = notification_content(digest_text);
    json_string_object("content", content.as_str())
}

/// A notification succeeds exactly on a 2xx HTTP status.
pub fn is_success_status(status: u16) -> (r: bool)
    ensures
        r == (200 <= status < 300),
{
    200 <= status && status < 300
}

} // verus!

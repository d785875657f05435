//! JSON documents, as `serde_json` reads them.
use vstd::prelude::*;

verus! {

/// `serde_json::Value`: a parsed JSON document.
#[verifier::external_type_specification]
#[verifier::external_body]
pub struct ExValue(serde_json::Value);

/// `serde_json::Error`: why a text is not a JSON document.
#[verifier::external_type_specification]
#[verifier::external_body]
pub struct ExError(serde_json::Error);

/// What a JSON document holds under each key: the text where the member is a string, `None`
/// where it is anything else. A document that is not an object holds nothing.
pub uninterp spec fn members(document: serde_json::Value) -> Map<Seq<char>, Option<Seq<char>>>;

/// The members of the document that a text is the JSON form of; `None` where the text is not
/// the JSON form of any document.
pub uninterp spec fn parsed_members(text: Seq<char>) -> Option<Map<Seq<char>, Option<Seq<char>>>>;

/// The hexadecimal digit of `n`, in lower case.
pub open spec fn hex_digit(n: int) -> char {
    if n < 10 {
        ('0' as int + n) as char
    } else {
        ('a' as int + n - 10) as char
    }
}

/// A character as it is written between the quotes of a JSON string.
pub open spec fn written_char(c: char) -> Seq<char> {
    if c == '"' || c == '\\' {
        seq!['\\', c]
    } else if c == '\u{8}' {
        seq!['\\', 'b']
    } else if c == '\u{c}' {
        seq!['\\', 'f']
    } else if c == '\n' {
        seq!['\\', 'n']
    } else if c == '\r' {
        seq!['\\', 'r']
    } else if c == '\t' {
        seq!['\\', 't']
    } else if '\u{20}' <= c {
        seq![c]
    } else {
        seq!['\\', 'u', '0', '0', hex_digit(c as int / 16), hex_digit(c as int % 16)]
    }
}

/// A text as it is written between the quotes of a JSON string.
pub open spec fn written_text(s: Seq<char>) -> Seq<char>
    decreases s.len(),
{
    if s.len() == 0 {
        seq![]
    } else {
        written_text(s.drop_last()) + written_char(s.last())
    }
}

/// A text of nothing but the white space of JSON.
pub open spec fn is_gap(s: Seq<char>) -> bool {
    forall|i: int|
        0 <= i < s.len() ==> #[trigger] s[i] == ' ' || s[i] == '\t' || s[i] == '\n' || s[i] == '\r'
}

/// The object of one member whose value is a text, as it is written in JSON: `{"key":"value"}`,
/// with `gap` after the colon.
pub open spec fn one_member_object(key: Seq<char>, gap: Seq<char>, value: Seq<char>) -> Seq<char> {
    seq!['{', '"'] + written_text(key) + seq!['"', ':'] + gap + seq!['"'] + written_text(value)
        + seq!['"', '}']
}

/// Where `text` is an object of one member whose value is a text, what was read of it is just that
/// member.
pub open spec fn one_member_read(
    text: Seq<char>,
    read: Option<Map<Seq<char>, Option<Seq<char>>>>,
) -> bool {
    forall|key: Seq<char>, gap: Seq<char>, value: Seq<char>|
        is_gap(gap) && text == #[trigger] one_member_object(key, gap, value) ==> read == Some(
            map![key => Some(value)],
        )
}

/// `serde_json::from_str`, into a `serde_json::Value`.
///
/// Trusted: whether it succeeds, and what the members of the document then are, is a function
/// of the text alone. An object that is written as one key with one string, each with its quotes,
/// backslashes and control characters escaped, and with or without white space after the colon, is
/// read as just that member.
#[verifier::external_body]
pub(crate) fn parse_document(text: &str) -> (r: Result<serde_json::Value, serde_json::Error>)
    ensures
        match r {
            Ok(document) => parsed_members(text@) == Some(members(document)),
            Err(_) => parsed_members(text@) is None,
        },
        r matches Ok(document) ==> one_member_read(text@, Some(members(document))),
        r is Err ==> one_member_read(text@, None),
{
    serde_json::from_str::<serde_json::Value>(text)
}

/// `serde_json::Value::get` with a string index, the member handed out as text where it is a
/// string.
///
/// Trusted: a member comes back if and only if the document is an object with that key.
#[verifier::external_body]
pub(crate) fn member(document: &serde_json::Value, key: &str) -> (r: Option<Option<String>>)
    ensures
        match r {
            Some(value) => members(*document).contains_key(key@) && members(*document)[key@]
                == value.deep_view(),
            None => !members(*document).contains_key(key@),
        },
{
    document.get(key).map(|value| value.as_str().map(str::to_owned))
}

} // verus!

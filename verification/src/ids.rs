//! Fresh identifiers of output items and responses.
use vstd::prelude::*;

verus! {

/// A lower-case hexadecimal digit.
pub open spec fn is_hex_digit(c: char) -> bool {
    '0' <= c <= '9' || 'a' <= c <= 'f'
}

/// The hyphenated, lower-case text of a random (version 4) UUID:
/// `xxxxxxxx-xxxx-4xxx-Nxxx-xxxxxxxxxxxx` with `N` one of `8`, `9`, `a` and `b`.
pub open spec fn is_random_uuid(s: Seq<char>) -> bool {
    &&& s.len() == 36
    &&& forall|i: int|
        0 <= i < 36 ==> if i == 8 || i == 13 || i == 18 || i == 23 {
            #[trigger] s[i] == '-'
        } else {
            is_hex_digit(s[i])
        }
    &&& s[14] == '4'
    &&& (s[19] == '8' || s[19] == '9' || s[19] == 'a' || s[19] == 'b')
}

/// A fresh identifier: `uuid::Uuid::new_v4`, written out by `Uuid`'s `Display`.
///
/// Trusted: whatever bits the operating system's generator gave, the text is that of a
/// version 4 UUID in hyphenated lower-case form. Which one it is depends on chance, and
/// nothing is claimed of it; that two calls differ is not claimed either. The call panics
/// only where the operating system cannot provide random bytes.
#[verifier::external_body]
pub(crate) fn fresh_id() -> (id: String)
    ensures
        is_random_uuid(id@),
{
    uuid::Uuid::new_v4().to_string()
}

/// A fresh identifier is written as a random UUID is: in groups of eight, four, four, four and twelve
/// lower-case hexadecimal digits, with the version and the variant at their places.
pub proof fn law_form_of_fresh_ids(s: Seq<char>, i: int)
    requires
        is_random_uuid(s),
        0 <= i < s.len(),
    ensures
        s.len() == 36,
        s[8] == '-' && s[13] == '-' && s[18] == '-' && s[23] == '-',
        s[14] == '4',
        s[19] == '8' || s[19] == '9' || s[19] == 'a' || s[19] == 'b',
        s[i] == '-' <==> i == 8 || i == 13 || i == 18 || i == 23,
        s[i] == '-' || '0' <= s[i] <= '9' || 'a' <= s[i] <= 'f',
{
    assert(s[8] == '-' && s[13] == '-' && s[18] == '-' && s[23] == '-');
}

} // verus!

//! Text operations on `str`, stated over the sequence of its characters.
use vstd::prelude::*;
use vstd::string::*;
use vstd::utf8::*;

verus! {

/// What `std::str::Utf8Error` displays of why `bytes` is not UTF-8.
pub uninterp spec fn utf8_error_text(bytes: Seq<u8>) -> Seq<char>;

/// `std::str::from_utf8`, its error handed out as the text that it displays.
///
/// Trusted: it succeeds if and only if the bytes are valid UTF-8, with the characters that
/// they encode. The text of the error is a function of the bytes.
#[verifier::external_body]
pub(crate) fn text_from_utf8(bytes: &[u8]) -> (r: Result<String, String>)
    ensures
        match r {
            Ok(text) => valid_utf8(bytes@) && text@ == decode_utf8(bytes@),
            Err(why) => !valid_utf8(bytes@) && why@ == utf8_error_text(bytes@),
        },
{
    match std::str::from_utf8(bytes) {
        Ok(text) => Ok(text.to_owned()),
        Err(why) => Err(why.to_string()),
    }
}

/// The characters with the Unicode `White_Space` property.
pub open spec fn is_white_space(c: char) -> bool {
    ||| '\u{9}' <= c <= '\u{d}'
    ||| c == '\u{20}'
    ||| c == '\u{85}'
    ||| c == '\u{a0}'
    ||| c == '\u{1680}'
    ||| '\u{2000}' <= c <= '\u{200a}'
    ||| c == '\u{2028}'
    ||| c == '\u{2029}'
    ||| c == '\u{202f}'
    ||| c == '\u{205f}'
    ||| c == '\u{3000}'
}

/// `s` without its leading white space.
pub open spec fn without_leading_space(s: Seq<char>) -> Seq<char>
    decreases s.len(),
{
    if s.len() > 0 && is_white_space(s.first()) {
        without_leading_space(s.drop_first())
    } else {
        s
    }
}

/// `s` without its trailing white space.
pub open spec fn without_trailing_space(s: Seq<char>) -> Seq<char>
    decreases s.len(),
{
    if s.len() > 0 && is_white_space(s.last()) {
        without_trailing_space(s.drop_last())
    } else {
        s
    }
}

/// `s` without white space at either end.
pub open spec fn trimmed(s: Seq<char>) -> Seq<char> {
    without_trailing_space(without_leading_space(s))
}

/// `s` without its trailing carriage returns.
pub open spec fn without_trailing_returns(s: Seq<char>) -> Seq<char>
    decreases s.len(),
{
    if s.len() > 0 && s.last() == '\r' {
        without_trailing_returns(s.drop_last())
    } else {
        s
    }
}

/// `n` is where `c` stands in `s` for the first time.
pub open spec fn is_first_position(s: Seq<char>, c: char, n: int) -> bool {
    &&& 0 <= n < s.len()
    &&& s[n] == c
    &&& forall|i: int| 0 <= i < n ==> s[i] != c
}

/// The text of bytes in two pieces, each of them UTF-8, is that of the pieces put together.
pub proof fn lemma_text_of_pieces(first: Seq<u8>, second: Seq<u8>)
    requires
        valid_utf8(first),
        valid_utf8(second),
    ensures
        valid_utf8(first + second),
        decode_utf8(first + second) == decode_utf8(first) + decode_utf8(second),
    decreases first.len(),
{
    let both = first + second;
    if first.len() == 0 {
        assert(both =~= second);
        assert(decode_utf8(first) + decode_utf8(second) =~= decode_utf8(second));
    } else {
        let rest = pop_first_scalar(first);
        lemma_text_of_pieces(rest, second);
        assert(valid_first_scalar(both));
        assert(pop_first_scalar(both) =~= rest + second);
        assert(decode_first_scalar(both) == decode_first_scalar(first));
        assert(decode_utf8(first) + decode_utf8(second) =~= seq![
            decode_first_scalar(first) as char,
        ] + (decode_utf8(rest) + decode_utf8(second)));
    }
}

/// Whether `c` has the Unicode `White_Space` property.
pub fn char_is_white_space(c: char) -> (b: bool)
    ensures
        b == is_white_space(c),
{
    (c >= '\u{9}' && c <= '\u{d}') || c == '\u{20}' || c == '\u{85}' || c == '\u{a0}' || c
        == '\u{1680}' || (c >= '\u{2000}' && c <= '\u{200a}') || c == '\u{2028}' || c == '\u{2029}'
        || c == '\u{202f}' || c == '\u{205f}' || c == '\u{3000}'
}

/// The position, counted in characters, at which `c` first stands in `s`.
pub fn find_char(s: &str, c: char) -> (position: Option<usize>)
    ensures
        match position {
            Some(n) => is_first_position(s@, c, n as int),
            None => !s@.contains(c),
        },
{
    let mut n: usize = 0;
    let len: usize = s.unicode_len();
    for x in it: s.chars()
        invariant
            it.seq() == s@,
            n == it.index(),
            len == s@.len(),
            forall|i: int| 0 <= i < n ==> s@[i] != c,
    {
        if x == c {
            return Some(n);
        }
        n = n + 1;
    }
    None
}

/// Whether two texts are the same.
pub fn same_text(a: &str, b: &str) -> (same: bool)
    ensures
        same == (a@ == b@),
{
    a.to_owned() == b.to_owned()
}

/// `s` without its leading white space.
pub fn trim_start(s: &str) -> (r: &str)
    ensures
        r@ == without_leading_space(s@),
{
    let len: usize = s.unicode_len();
    let mut n: usize = 0;
    proof {
        assert(s@.skip(0) =~= s@);
    }
    for c in it: s.chars()
        invariant
            it.seq() == s@,
            n == it.index(),
            len == s@.len(),
            without_leading_space(s@) == without_leading_space(s@.skip(n as int)),
    {
        if !char_is_white_space(c) {
            return s.substring_char(n, len);
        }
        proof {
            assert(s@.skip(n as int).drop_first() =~= s@.skip(n + 1));
        }
        n = n + 1;
    }
    s.substring_char(len, len)
}

/// `s` without its trailing white space.
pub fn trim_end(s: &str) -> (r: &str)
    ensures
        r@ == without_trailing_space(s@),
{
    let mut end: usize = 0;
    let mut n: usize = 0;
    let len: usize = s.unicode_len();
    for c in it: s.chars()
        invariant
            it.seq() == s@,
            n == it.index(),
            len == s@.len(),
            end <= n,
            without_trailing_space(s@.take(n as int)) == s@.take(end as int),
    {
        proof {
            assert(s@.take(n + 1).drop_last() =~= s@.take(n as int));
        }
        n = n + 1;
        if !char_is_white_space(c) {
            end = n;
        }
    }
    proof {
        assert(s@.take(n as int) =~= s@);
        assert(s@.take(end as int) =~= s@.subrange(0, end as int));
    }
    s.substring_char(0, end)
}

/// `s` without white space at either end.
pub fn trim(s: &str) -> (r: &str)
    ensures
        r@ == trimmed(s@),
{
    trim_end(trim_start(s))
}

/// `s` without its trailing carriage returns.
pub fn trim_end_returns(s: &str) -> (r: &str)
    ensures
        r@ == without_trailing_returns(s@),
{
    let mut end: usize = 0;
    let mut n: usize = 0;
    let len: usize = s.unicode_len();
    for c in it: s.chars()
        invariant
            it.seq() == s@,
            n == it.index(),
            len == s@.len(),
            end <= n,
            without_trailing_returns(s@.take(n as int)) == s@.take(end as int),
    {
        proof {
            assert(s@.take(n + 1).drop_last() =~= s@.take(n as int));
        }
        n = n + 1;
        if c != '\r' {
            end = n;
        }
    }
    proof {
        assert(s@.take(n as int) =~= s@);
        assert(s@.take(end as int) =~= s@.subrange(0, end as int));
    }
    s.substring_char(0, end)
}

/// What follows `prefix` in `s`, where `s` starts with it.
pub fn strip_prefix<'a>(s: &'a str, prefix: &str) -> (rest: Option<&'a str>)
    ensures
        match rest {
            Some(r) => s@ == prefix@ + r@,
            None => !prefix@.is_prefix_of(s@),
        },
{
    let len: usize = s.unicode_len();
    let prefix_len: usize = prefix.unicode_len();
    if len < prefix_len {
        return None;
    }
    if same_text(s.substring_char(0, prefix_len), prefix) {
        proof {
            assert(s@ =~= s@.subrange(0, prefix_len as int) + s@.subrange(
                prefix_len as int,
                len as int,
            ));
        }
        Some(s.substring_char(prefix_len, len))
    } else {
        None
    }
}

/// A text of nothing but white space.
pub open spec fn is_blank(s: Seq<char>) -> bool {
    forall|i: int| 0 <= i < s.len() ==> has_white_space_property(#[trigger] s[i])
}

/// The code points that Unicode gives the `White_Space` property.
pub open spec fn has_white_space_property(c: char) -> bool {
    let n = c as int;
    9 <= n <= 13 || n == 32 || n == 133 || n == 160 || n == 5760 || 8192 <= n <= 8202 || n == 8232
        || n == 8233 || n == 8239 || n == 8287 || n == 12288
}

/// White space is what Unicode says it is.
pub proof fn law_white_space(c: char)
    ensures
        is_white_space(c) <==> has_white_space_property(c),
{
}

/// A text loses just the white space that it begins with: what follows it stays, whatever it holds.
pub proof fn law_leading_space_is_dropped(space: Seq<char>, rest: Seq<char>)
    requires
        is_blank(space),
        rest.len() > 0 ==> !has_white_space_property(rest[0]),
    ensures
        without_leading_space(space + rest) == rest,
    decreases space.len(),
{
    if space.len() == 0 {
        assert(space + rest =~= rest);
    } else {
        let s = space + rest;
        assert(s.first() == space[0]);
        assert(s.drop_first() =~= space.drop_first() + rest);
        assert forall|i: int| 0 <= i < space.drop_first().len() implies has_white_space_property(
            #[trigger] space.drop_first()[i],
        ) by {
            assert(space.drop_first()[i] == space[i + 1]);
        }
        law_leading_space_is_dropped(space.drop_first(), rest);
    }
}

/// A text loses just the white space that it ends with.
pub proof fn law_trailing_space_is_dropped(rest: Seq<char>, space: Seq<char>)
    requires
        is_blank(space),
        rest.len() > 0 ==> !has_white_space_property(rest.last()),
    ensures
        without_trailing_space(rest + space) == rest,
    decreases space.len(),
{
    if space.len() == 0 {
        assert(rest + space =~= rest);
    } else {
        let s = rest + space;
        assert(s.last() == space[space.len() - 1]);
        assert(s.drop_last() =~= rest + space.drop_last());
        assert forall|i: int| 0 <= i < space.drop_last().len() implies has_white_space_property(
            #[trigger] space.drop_last()[i],
        ) by {
            assert(space.drop_last()[i] == space[i]);
        }
        law_trailing_space_is_dropped(rest, space.drop_last());
    }
}

/// A line loses just the carriage returns that it ends with.
pub proof fn law_trailing_returns_are_dropped(rest: Seq<char>, tail: Seq<char>)
    requires
        forall|i: int| 0 <= i < tail.len() ==> #[trigger] tail[i] == '\r',
        rest.len() > 0 ==> rest.last() != '\r',
    ensures
        without_trailing_returns(rest + tail) == rest,
    decreases tail.len(),
{
    if tail.len() == 0 {
        assert(rest + tail =~= rest);
    } else {
        let s = rest + tail;
        assert(s.last() == tail[tail.len() - 1]);
        assert(s.drop_last() =~= rest + tail.drop_last());
        assert forall|i: int| 0 <= i < tail.drop_last().len() implies #[trigger] tail.drop_last()[i]
            == '\r' by {
            assert(tail.drop_last()[i] == tail[i]);
        }
        law_trailing_returns_are_dropped(rest, tail.drop_last());
    }
}

/// A text without white space at its ends stays as it is between any white space.
pub proof fn law_trimming(before: Seq<char>, rest: Seq<char>, after: Seq<char>)
    requires
        is_blank(before),
        is_blank(after),
        rest.len() > 0,
        !has_white_space_property(rest[0]),
        !has_white_space_property(rest.last()),
    ensures
        trimmed(before + rest + after) == rest,
{
    assert(before + rest + after =~= before + (rest + after));
    law_leading_space_is_dropped(before, rest + after);
    law_trailing_space_is_dropped(rest, after);
}

/// How `s` splits into the white space that it begins with and the rest.
pub proof fn lemma_leading_split(s: Seq<char>) -> (n: int)
    ensures
        0 <= n <= s.len(),
        is_blank(s.take(n)),
        without_leading_space(s) == s.skip(n),
        n < s.len() ==> !has_white_space_property(s[n]),
    decreases s.len(),
{
    if s.len() > 0 && is_white_space(s.first()) {
        let m = lemma_leading_split(s.drop_first());
        let n = m + 1;
        assert forall|i: int| 0 <= i < s.take(n).len() implies has_white_space_property(
            #[trigger] s.take(n)[i],
        ) by {
            if i > 0 {
                assert(s.take(n)[i] == s.drop_first().take(m)[i - 1]);
            }
        }
        assert(s.drop_first().skip(m) =~= s.skip(n));
        n
    } else {
        assert(s.skip(0) =~= s);
        0
    }
}

/// How `s` splits into the rest and the white space that it ends with.
pub proof fn lemma_trailing_split(s: Seq<char>) -> (n: int)
    ensures
        0 <= n <= s.len(),
        is_blank(s.skip(n)),
        without_trailing_space(s) == s.take(n),
        n > 0 ==> !has_white_space_property(s[n - 1]),
    decreases s.len(),
{
    if s.len() > 0 && is_white_space(s.last()) {
        let n = lemma_trailing_split(s.drop_last());
        assert forall|i: int| 0 <= i < s.skip(n).len() implies has_white_space_property(
            #[trigger] s.skip(n)[i],
        ) by {
            if i < s.skip(n).len() - 1 {
                assert(s.skip(n)[i] == s.drop_last().skip(n)[i]);
            }
        }
        assert(s.drop_last().take(n) =~= s.take(n));
        n
    } else {
        assert(s.take(s.len() as int) =~= s);
        s.len() as int
    }
}

/// How a line splits into the rest and the carriage returns that it ends with.
pub proof fn lemma_returns_split(s: Seq<char>) -> (n: int)
    ensures
        0 <= n <= s.len(),
        forall|i: int| n <= i < s.len() ==> #[trigger] s[i] == '\r',
        without_trailing_returns(s) == s.take(n),
        n > 0 ==> s[n - 1] != '\r',
    decreases s.len(),
{
    if s.len() > 0 && s.last() == '\r' {
        let n = lemma_returns_split(s.drop_last());
        assert forall|i: int| n <= i < s.len() implies #[trigger] s[i] == '\r' by {
            if i < s.len() - 1 {
                assert(s[i] == s.drop_last()[i]);
            }
        }
        assert(s.drop_last().take(n) =~= s.take(n));
        n
    } else {
        assert(s.take(s.len() as int) =~= s);
        s.len() as int
    }
}

} // verus!

//! Percent-encoding of document names for Atelier URLs, done by the
//! `urlencoding` crate.

use vstd::prelude::*;
use crate::text::lacks;

verus! {

/// A byte that percent-encoding keeps as it is: ASCII letters, digits, and
/// `-`, `.`, `_`, `~`.
pub open spec fn is_unreserved(b: u8) -> bool {
    ||| (48 <= b && b <= 57)
    ||| (65 <= b && b <= 90)
    ||| (97 <= b && b <= 122)
    ||| b == 45
    ||| b == 46
    ||| b == 95
    ||| b == 126
}

/// The upper-case hexadecimal digit for `d` (below sixteen).
pub open spec fn hex_digit(d: int) -> char {
    seq!['0', '1', '2', '3', '4', '5', '6', '7', '8', '9', 'A', 'B', 'C', 'D', 'E', 'F'][d]
}

/// How one byte is written: itself when unreserved, else `%` and its two
/// upper-case hex digits.
pub open spec fn encode_byte(b: u8) -> Seq<char> {
    if is_unreserved(b) {
        seq![b as char]
    } else {
        seq!['%', hex_digit(b as int / 16), hex_digit(b as int % 16)]
    }
}

/// The percent-encoding of a byte sequence.
pub open spec fn percent_encoded(bytes: Seq<u8>) -> Seq<char>
    decreases bytes.len(),
{
    if bytes.len() == 0 {
        seq![]
    } else {
        percent_encoded(bytes.drop_last()) + encode_byte(bytes.last())
    }
}

/// The percent-encoding of the UTF-8 bytes of a text.
pub open spec fn url_encoded(s: Seq<char>) -> Seq<char> {
    percent_encoded(vstd::utf8::encode_utf8(s))
}

/// Percent-encodes `s` (`urlencoding::encode`).
/// Trusted: `urlencoding::encode` (2.1.3) walks the UTF-8 bytes of its
/// argument, copies alphanumerics and `-`, `_`, `.`, `~`, and writes every
/// other byte as `%` followed by two upper-case hex digits.
#[verifier::external_body]
pub(crate) fn url_encode(s: &str) -> (res: String)
    ensures
        res@ == url_encoded(s@),
{
    urlencoding::encode(s).into_owned()
}

/// Percent-encoded text holds no `/`, `?`, `#` or `&`: an encoded name is a
/// single path segment and cannot start a query or fragment.
pub proof fn law_encoded_is_one_segment(bytes: Seq<u8>)
    ensures
        lacks(percent_encoded(bytes), '/'),
        lacks(percent_encoded(bytes), '?'),
        lacks(percent_encoded(bytes), '#'),
        lacks(percent_encoded(bytes), '&'),
    decreases bytes.len(),
{
    if bytes.len() > 0 {
        law_encoded_is_one_segment(bytes.drop_last());
        let a = percent_encoded(bytes.drop_last());
        let b = bytes.last();
        let e = encode_byte(b);
        assert forall|i: int| 0 <= i < e.len() implies e[i] != '/' && e[i] != '?' && e[i] != '#'
            && e[i] != '&' by {
            if is_unreserved(b) {
                assert(e[i] == b as char);
            } else {
                let t = seq!['0', '1', '2', '3', '4', '5', '6', '7', '8', '9', 'A', 'B', 'C', 'D', 'E', 'F'];
                assert(0 <= b as int / 16 < 16);
                assert(0 <= b as int % 16 < 16);
                assert(forall|k: int| 0 <= k < 16 ==> t[k] != '/' && t[k] != '?' && t[k] != '#' && t[k] != '&');
            }
        }
        assert forall|i: int| 0 <= i < (a + e).len() implies (a + e)[i] != '/' && (a + e)[i] != '?'
            && (a + e)[i] != '#' && (a + e)[i] != '&' by {
            if i < a.len() {
                assert((a + e)[i] == a[i]);
            } else {
                assert((a + e)[i] == e[i - a.len()]);
            }
        }
    }
}

} // verus!

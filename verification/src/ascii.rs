//! Conversions between ASCII strings and their byte representations.
//!
//! Block hashes are kept as lowercase hex `String`s, as the store keys
//! are their ASCII bytes; these helpers move between the two shapes.

use vstd::prelude::*;

verus! {

/// The bytes of an ASCII character sequence, character by character.
pub open spec fn chars_bytes(s: Seq<char>) -> Seq<u8> {
    Seq::new(s.len(), |i: int| s[i] as u8)
}

/// The characters of a byte sequence read as ASCII, byte by byte.
pub open spec fn bytes_chars(v: Seq<u8>) -> Seq<char> {
    Seq::new(v.len(), |i: int| v[i] as char)
}

/// Every byte is in the ASCII range.
pub open spec fn bytes_ascii(v: Seq<u8>) -> bool {
    forall|i: int| 0 <= i < v.len() ==> #[trigger] v[i] < 128
}

pub proof fn lemma_chars_bytes_ascii(s: Seq<char>)
    requires
        vstd::utf8::is_ascii_chars(s),
    ensures
        bytes_ascii(chars_bytes(s)),
        bytes_chars(chars_bytes(s)) =~= s,
{
}

pub proof fn lemma_bytes_chars_roundtrip(v: Seq<u8>)
    requires
        bytes_ascii(v),
    ensures
        vstd::utf8::is_ascii_chars(bytes_chars(v)),
        chars_bytes(bytes_chars(v)) =~= v,
{
}

/// The ASCII bytes of a string all of whose characters are ASCII.
pub fn ascii_to_bytes(s: &str) -> (r: Vec<u8>)
    requires
        vstd::string::is_ascii(s),
    ensures
        r@ == chars_bytes(s@),
{
    let n: usize = s.unicode_len();
    let mut r: Vec<u8> = Vec::new();
    let mut i: usize = 0;
    while i < n
        invariant
            vstd::string::is_ascii(s),
            n == s@.len(),
            i <= n,
            r@ =~= chars_bytes(s@).take(i as int),
        decreases n - i,
    {
        let b = s.get_ascii(i);
        r.push(b);
        assert(r@ =~= chars_bytes(s@).take(i as int + 1));
        i = i + 1;
    }
    assert(r@ =~= chars_bytes(s@));
    r
}

/// Relies on `String::from_utf8`: it succeeds exactly on valid UTF-8
/// input, and the returned string's characters decode the input
/// bytes.
#[verifier::external_body]
fn string_from_utf8(v: &Vec<u8>) -> (r: Option<String>)
    ensures
        r matches Some(s) ==> vstd::utf8::valid_utf8(v@) && s@ == vstd::utf8::decode_utf8(v@),
        r is None ==> !vstd::utf8::valid_utf8(v@),
{
    String::from_utf8(v.clone()).ok()
}

/// A byte sequence below 128 everywhere is valid UTF-8 and decodes to
/// its bytes read as characters.
proof fn lemma_ascii_bytes_utf8(v: Seq<u8>)
    requires
        bytes_ascii(v),
    ensures
        vstd::utf8::valid_utf8(v),
        vstd::utf8::decode_utf8(v) == bytes_chars(v),
{
    lemma_bytes_chars_roundtrip(v);
    let chars = bytes_chars(v);
    vstd::utf8::is_ascii_chars_encode_utf8(chars);
    assert(vstd::utf8::encode_utf8(chars) =~= v);
    vstd::utf8::encode_utf8_valid_utf8(chars);
    vstd::utf8::encode_utf8_decode_utf8(chars);
}

/// Reads bytes back as a `String`, accepting only ASCII content.
pub fn ascii_string_from_bytes(v: &Vec<u8>) -> (r: Option<String>)
    ensures
        r matches Some(s) ==> vstd::utf8::is_ascii_chars(s@) && s@ == bytes_chars(v@)
            && bytes_ascii(v@),
        bytes_ascii(v@) ==> r is Some,
{
    let s = match string_from_utf8(v) {
        Some(s) => s,
        None => {
            proof {
                if bytes_ascii(v@) {
                    lemma_ascii_bytes_utf8(v@);
                }
            }
            return None;
        },
    };
    if s.as_str().is_ascii() {
        proof {
            vstd::utf8::decode_utf8_encode_utf8(v@);
            assert(vstd::utf8::encode_utf8(s@) == v@);
            vstd::utf8::is_ascii_chars_encode_utf8(s@);
            assert forall|i: int| 0 <= i < v@.len() implies #[trigger] v@[i] < 128 by {
                assert(v@[i] == s@[i] as u8);
                assert('\0' <= s@[i] <= '\u{7f}');
            }
            assert forall|i: int| 0 <= i < s@.len() implies #[trigger] s@[i] == bytes_chars(v@)[
            i] by {
                assert(v@[i] == s@[i] as u8);
                assert('\0' <= s@[i] <= '\u{7f}');
                assert((s@[i] as u8) as char == s@[i]);
            }
            assert(s@ =~= bytes_chars(v@));
        }
        Some(s)
    } else {
        proof {
            if bytes_ascii(v@) {
                lemma_ascii_bytes_utf8(v@);
                lemma_bytes_chars_roundtrip(v@);
                assert(vstd::utf8::is_ascii_chars(s@));
            }
        }
        None
    }
}

} // verus!

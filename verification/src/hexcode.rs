//! Lowercase hexadecimal encoding of byte strings, and its inverse.
//!
//! Hex strings name blocks (`Block::hash`) and transactions (the keys of
//! the memory pool and of the unspent-output listing), so both directions
//! are verified exactly and shown to invert one another.

use vstd::prelude::*;

verus! {

/// The lowercase hex digit of a value below 16.
pub open spec fn hex_digit(n: u8) -> char {
    if n == 0 {
        '0'
    } else if n == 1 {
        '1'
    } else if n == 2 {
        '2'
    } else if n == 3 {
        '3'
    } else if n == 4 {
        '4'
    } else if n == 5 {
        '5'
    } else if n == 6 {
        '6'
    } else if n == 7 {
        '7'
    } else if n == 8 {
        '8'
    } else if n == 9 {
        '9'
    } else if n == 10 {
        'a'
    } else if n == 11 {
        'b'
    } else if n == 12 {
        'c'
    } else if n == 13 {
        'd'
    } else if n == 14 {
        'e'
    } else {
        'f'
    }
}

/// The two hex digits of one byte, high nibble first.
pub open spec fn hex_pair(b: u8) -> Seq<char> {
    seq![hex_digit(b / 16), hex_digit(b % 16)]
}

/// The lowercase hex spelling of a byte sequence.
pub open spec fn spec_hex(b: Seq<u8>) -> Seq<char>
    decreases b.len(),
{
    if b.len() == 0 {
        Seq::empty()
    } else {
        hex_pair(b[0]) + spec_hex(b.drop_first())
    }
}

/// The value of a hex digit character, if it is one.
pub open spec fn hex_val(c: char) -> Option<u8> {
    let u = c as u32;
    if 48 <= u && u <= 57 {
        Some((u - 48) as u8)
    } else if 97 <= u && u <= 102 {
        Some((u - 87) as u8)
    } else {
        None
    }
}

/// The bytes spelled by a hex character sequence, if it is well formed:
/// even length, lowercase hex digits only.
pub open spec fn spec_hex_decode(s: Seq<char>) -> Option<Seq<u8>>
    decreases s.len(),
{
    if s.len() == 0 {
        Some(Seq::empty())
    } else if s.len() == 1 {
        None
    } else {
        match (hex_val(s[0]), hex_val(s[1])) {
            (Some(hi), Some(lo)) => match spec_hex_decode(s.skip(2)) {
                Some(rest) => Some(seq![(hi * 16 + lo) as u8] + rest),
                None => None,
            },
            _ => None,
        }
    }
}

pub proof fn lemma_hex_digit_val(n: u8)
    requires
        n < 16,
    ensures
        hex_val(hex_digit(n)) == Some(n),
        '\0' <= hex_digit(n) <= '\u{7f}',
{
}

pub proof fn lemma_hex_append(b: Seq<u8>, x: u8)
    ensures
        spec_hex(b.push(x)) =~= spec_hex(b) + hex_pair(x),
    decreases b.len(),
{
    if b.len() == 0 {
        assert(b.push(x)[0] == x);
        assert(b.push(x).drop_first() =~= Seq::<u8>::empty());
        assert(spec_hex(b.push(x).drop_first()) =~= Seq::<char>::empty());
        assert(spec_hex(b.push(x)) =~= hex_pair(x));
    } else {
        assert(b.push(x)[0] == b[0]);
        assert(b.push(x).drop_first() =~= b.drop_first().push(x));
        lemma_hex_append(b.drop_first(), x);
    }
}

/// Hex spellings are ASCII.
pub proof fn lemma_hex_ascii(b: Seq<u8>)
    ensures
        vstd::utf8::is_ascii_chars(spec_hex(b)),
        spec_hex(b).len() == 2 * b.len(),
    decreases b.len(),
{
    if b.len() == 0 {
    } else {
        lemma_hex_digit_val(b[0] / 16);
        lemma_hex_digit_val(b[0] % 16);
        lemma_hex_ascii(b.drop_first());
    }
}

/// Decoding inverts encoding.
pub proof fn lemma_hex_roundtrip(b: Seq<u8>)
    ensures
        spec_hex_decode(spec_hex(b)) == Some(b),
    decreases b.len(),
{
    if b.len() == 0 {
        assert(spec_hex(b) =~= Seq::<char>::empty());
    } else {
        let s = spec_hex(b);
        lemma_hex_digit_val(b[0] / 16);
        lemma_hex_digit_val(b[0] % 16);
        lemma_hex_roundtrip(b.drop_first());
        assert(s.skip(2) =~= spec_hex(b.drop_first()));
        assert(b[0] / 16 * 16 + b[0] % 16 == b[0]) by (nonlinear_arith);
        assert(spec_hex_decode(s).unwrap() =~= b);
    }
}

/// Decoding is canonical: a string that decodes is the spelling of
/// what it decodes to.
pub proof fn lemma_hex_decode_canonical(s: Seq<char>)
    requires
        spec_hex_decode(s) is Some,
    ensures
        spec_hex(spec_hex_decode(s).unwrap()) =~= s,
    decreases s.len(),
{
    if s.len() == 0 {
        assert(spec_hex(Seq::<u8>::empty()) =~= Seq::<char>::empty());
    } else {
        let hi = hex_val(s[0]).unwrap();
        let lo = hex_val(s[1]).unwrap();
        let b: u8 = (hi * 16 + lo) as u8;
        lemma_hex_decode_canonical(s.skip(2));
        let rest = spec_hex_decode(s.skip(2)).unwrap();
        assert(spec_hex_decode(s).unwrap() == seq![b] + rest);
        assert((seq![b] + rest).drop_first() =~= rest);
        assert((seq![b] + rest)[0] == b);
        assert(b / 16 == hi && b % 16 == lo) by (nonlinear_arith)
            requires
                hi < 16,
                lo < 16,
                b == hi * 16 + lo,
        ;
        lemma_digit_inverse(s[0]);
        lemma_digit_inverse(s[1]);
        assert(spec_hex(seq![b] + rest) =~= s);
    }
}

/// A character with a hex value is the digit of that value.
proof fn lemma_digit_inverse(c: char)
    requires
        hex_val(c) is Some,
    ensures
        hex_digit(hex_val(c).unwrap()) == c,
{
    let u = c as u32;
    assert(c == ((c as u32) as u8) as char) by {
        assert(u < 128);
    }
}

fn push_hex_digit(s: &mut String, n: u8)
    requires
        n < 16,
    ensures
        final(s)@ == old(s)@ + seq![hex_digit(n)],
{
    if n == 0 {
        proof {
            reveal_strlit("0");
        }
        s.append("0");
    } else if n == 1 {
        proof {
            reveal_strlit("1");
        }
        s.append("1");
    } else if n == 2 {
        proof {
            reveal_strlit("2");
        }
        s.append("2");
    } else if n == 3 {
        proof {
            reveal_strlit("3");
        }
        s.append("3");
    } else if n == 4 {
        proof {
            reveal_strlit("4");
        }
        s.append("4");
    } else if n == 5 {
        proof {
            reveal_strlit("5");
        }
        s.append("5");
    } else if n == 6 {
        proof {
            reveal_strlit("6");
        }
        s.append("6");
    } else if n == 7 {
        proof {
            reveal_strlit("7");
        }
        s.append("7");
    } else if n == 8 {
        proof {
            reveal_strlit("8");
        }
        s.append("8");
    } else if n == 9 {
        proof {
            reveal_strlit("9");
        }
        s.append("9");
    } else if n == 10 {
        proof {
            reveal_strlit("a");
        }
        s.append("a");
    } else if n == 11 {
        proof {
            reveal_strlit("b");
        }
        s.append("b");
    } else if n == 12 {
        proof {
            reveal_strlit("c");
        }
        s.append("c");
    } else if n == 13 {
        proof {
            reveal_strlit("d");
        }
        s.append("d");
    } else if n == 14 {
        proof {
            reveal_strlit("e");
        }
        s.append("e");
    } else {
        proof {
            reveal_strlit("f");
        }
        s.append("f");
    }
    assert(final(s)@ =~= old(s)@ + seq![hex_digit(n)]);
}

/// The lowercase hex spelling of `data`.
pub fn hex_encode(data: &[u8]) -> (r: String)
    ensures
        r@ == spec_hex(data@),
        r@.len() == 2 * data@.len(),
        vstd::utf8::is_ascii_chars(r@),
{
    let mut r = String::new();
    let mut i: usize = 0;
    while i < data.len()
        invariant
            i <= data@.len(),
            r@ =~= spec_hex(data@.take(i as int)),
        decreases data@.len() - i,
    {
        let b = data[i];
        push_hex_digit(&mut r, b / 16);
        push_hex_digit(&mut r, b % 16);
        proof {
            lemma_hex_append(data@.take(i as int), b);
            assert(data@.take(i as int).push(b) =~= data@.take(i as int + 1));
        }
        i = i + 1;
    }
    proof {
        assert(data@.take(data@.len() as int) =~= data@);
        lemma_hex_ascii(data@);
    }
    r
}

fn hex_val_exec(c: char) -> (r: Option<u8>)
    ensures
        r == hex_val(c),
{
    let u = c as u32;
    if 48 <= u && u <= 57 {
        Some((u - 48) as u8)
    } else if 97 <= u && u <= 102 {
        Some((u - 87) as u8)
    } else {
        None
    }
}

/// The bytes spelled by a lowercase hex string, or `None` if the string
/// is not a well-formed even-length lowercase hex spelling.
pub fn hex_decode(s: &str) -> (r: Option<Vec<u8>>)
    ensures
        match r {
            Some(v) => spec_hex_decode(s@) == Some(v@),
            None => spec_hex_decode(s@) is None,
        },
{
    let n: usize = s.unicode_len();
    if n % 2 != 0 {
        proof {
            lemma_decode_odd_len(s@);
        }
        return None;
    }
    let mut out: Vec<u8> = Vec::new();
    let mut i: usize = 0;
    assert(s@.skip(0) =~= s@);
    while i < n
        invariant
            n == s@.len(),
            n % 2 == 0,
            i % 2 == 0,
            i <= n,
            spec_hex_decode(s@) matches Some(w) ==> (spec_hex_decode(s@.skip(i as int))
                matches Some(t) && w =~= out@ + t),
            spec_hex_decode(s@) is None ==> spec_hex_decode(s@.skip(i as int)) is None,
        decreases n - i,
    {
        let hi = hex_val_exec(s.get_char(i));
        let lo = hex_val_exec(s.get_char(i + 1));
        match (hi, lo) {
            (Some(h), Some(l)) => {
                out.push(h * 16 + l);
                proof {
                    assert(s@.skip(i as int).skip(2) =~= s@.skip(i as int + 2));
                }
                i = i + 2;
            },
            _ => {
                assert(spec_hex_decode(s@.skip(i as int)) is None);
                return None;
            },
        }
    }
    assert(s@.skip(n as int) =~= Seq::<char>::empty());
    Some(out)
}

proof fn lemma_decode_odd_len(s: Seq<char>)
    requires
        s.len() % 2 == 1,
    ensures
        spec_hex_decode(s) is None,
    decreases s.len(),
{
    if s.len() == 1 {
    } else {
        lemma_decode_odd_len(s.skip(2));
    }
}

} // verus!

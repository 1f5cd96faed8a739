//! The canonical binary encoding that hashing and persistence rely on.
//!
//! Records are laid out with a fixed field order; integers are
//! little-endian fixed width; byte strings and lists carry a 64-bit
//! length prefix. Encoding and decoding are verified to invert one
//! another, so a stored or transmitted record decodes to the value
//! that was written.

use vstd::prelude::*;

verus! {

/// The eight little-endian bytes of a 64-bit value.
pub open spec fn spec_u64_le(v: u64) -> Seq<u8> {
    seq![
        (v & 0xff) as u8,
        ((v >> 8) & 0xff) as u8,
        ((v >> 16) & 0xff) as u8,
        ((v >> 24) & 0xff) as u8,
        ((v >> 32) & 0xff) as u8,
        ((v >> 40) & 0xff) as u8,
        ((v >> 48) & 0xff) as u8,
        ((v >> 56) & 0xff) as u8,
    ]
}

/// The value read back from eight little-endian bytes.
pub open spec fn spec_u64_of_le(b: Seq<u8>, pos: int) -> u64 {
    (b[pos] as u64) | ((b[pos + 1] as u64) << 8) | ((b[pos + 2] as u64) << 16) | ((b[pos + 3]
        as u64) << 24) | ((b[pos + 4] as u64) << 32) | ((b[pos + 5] as u64) << 40) | ((b[pos + 6]
        as u64) << 48) | ((b[pos + 7] as u64) << 56)
}

/// Reading back the bytes of `v` yields `v`.
pub proof fn lemma_u64_le_roundtrip(v: u64, b: Seq<u8>, pos: int)
    requires
        0 <= pos,
        pos + 8 <= b.len(),
        b.subrange(pos, pos + 8) =~= spec_u64_le(v),
    ensures
        spec_u64_of_le(b, pos) == v,
{
    assert(b[pos] == (v & 0xff) as u8);
    assert(b[pos + 1] == ((v >> 8) & 0xff) as u8);
    assert(b[pos + 2] == ((v >> 16) & 0xff) as u8);
    assert(b[pos + 3] == ((v >> 24) & 0xff) as u8);
    assert(b[pos + 4] == ((v >> 32) & 0xff) as u8);
    assert(b[pos + 5] == ((v >> 40) & 0xff) as u8);
    assert(b[pos + 6] == ((v >> 48) & 0xff) as u8);
    assert(b[pos + 7] == ((v >> 56) & 0xff) as u8);
    assert((((v & 0xff) as u8) as u64) | ((((v >> 8) & 0xff) as u8) as u64) << 8 | ((((v >> 16)
        & 0xff) as u8) as u64) << 16 | ((((v >> 24) & 0xff) as u8) as u64) << 24 | ((((v >> 32)
        & 0xff) as u8) as u64) << 32 | ((((v >> 40) & 0xff) as u8) as u64) << 40 | ((((v >> 48)
        & 0xff) as u8) as u64) << 48 | ((((v >> 56) & 0xff) as u8) as u64) << 56 == v)
        by (bit_vector);
}

/// Appends the little-endian bytes of `v`.
pub fn enc_u64(out: &mut Vec<u8>, v: u64)
    ensures
        final(out)@ =~= old(out)@ + spec_u64_le(v),
{
    proof {
        assert((v & 0xff) < 256 && ((v >> 8) & 0xff) < 256 && ((v >> 16) & 0xff) < 256 && ((v
            >> 24) & 0xff) < 256 && ((v >> 32) & 0xff) < 256 && ((v >> 40) & 0xff) < 256 && ((v
            >> 48) & 0xff) < 256 && ((v >> 56) & 0xff) < 256) by (bit_vector);
    }
    out.push((v & 0xff) as u8);
    out.push(((v >> 8) & 0xff) as u8);
    out.push(((v >> 16) & 0xff) as u8);
    out.push(((v >> 24) & 0xff) as u8);
    out.push(((v >> 32) & 0xff) as u8);
    out.push(((v >> 40) & 0xff) as u8);
    out.push(((v >> 48) & 0xff) as u8);
    out.push(((v >> 56) & 0xff) as u8);
}

/// Reads a 64-bit value at `pos`, when eight bytes remain.
pub fn dec_u64(b: &[u8], pos: usize) -> (r: Option<(u64, usize)>)
    ensures
        match r {
            Some((v, p2)) => pos + 8 <= b@.len() && v == spec_u64_of_le(b@, pos as int) && p2 == pos
                + 8,
            None => pos + 8 > b@.len(),
        },
{
    if pos >= b.len() || b.len() - pos < 8 {
        return None;
    }
    let v = (b[pos] as u64) | ((b[pos + 1] as u64) << 8) | ((b[pos + 2] as u64) << 16) | ((b[pos
        + 3] as u64) << 24) | ((b[pos + 4] as u64) << 32) | ((b[pos + 5] as u64) << 40) | ((b[pos
        + 6] as u64) << 48) | ((b[pos + 7] as u64) << 56);
    Some((v, pos + 8))
}

/// The eight big-endian bytes of a 64-bit value, as hashing preimages
/// lay integers out.
pub open spec fn spec_u64_be(v: u64) -> Seq<u8> {
    seq![
        ((v >> 56) & 0xff) as u8,
        ((v >> 48) & 0xff) as u8,
        ((v >> 40) & 0xff) as u8,
        ((v >> 32) & 0xff) as u8,
        ((v >> 24) & 0xff) as u8,
        ((v >> 16) & 0xff) as u8,
        ((v >> 8) & 0xff) as u8,
        (v & 0xff) as u8,
    ]
}

/// Appends the big-endian bytes of `v`.
pub fn enc_u64_be(out: &mut Vec<u8>, v: u64)
    ensures
        final(out)@ =~= old(out)@ + spec_u64_be(v),
{
    proof {
        assert((v & 0xff) < 256 && ((v >> 8) & 0xff) < 256 && ((v >> 16) & 0xff) < 256 && ((v
            >> 24) & 0xff) < 256 && ((v >> 32) & 0xff) < 256 && ((v >> 40) & 0xff) < 256 && ((v
            >> 48) & 0xff) < 256 && ((v >> 56) & 0xff) < 256) by (bit_vector);
    }
    out.push(((v >> 56) & 0xff) as u8);
    out.push(((v >> 48) & 0xff) as u8);
    out.push(((v >> 40) & 0xff) as u8);
    out.push(((v >> 32) & 0xff) as u8);
    out.push(((v >> 24) & 0xff) as u8);
    out.push(((v >> 16) & 0xff) as u8);
    out.push(((v >> 8) & 0xff) as u8);
    out.push((v & 0xff) as u8);
}

/// A byte string framed by its 64-bit length.
pub open spec fn spec_bytes_enc(b: Seq<u8>) -> Seq<u8> {
    spec_u64_le(b.len() as u64) + b
}

/// Reads back a framed byte string: `Some((contents, next position))`.
pub open spec fn spec_dec_bytes(b: Seq<u8>, pos: int) -> Option<(Seq<u8>, int)> {
    if pos < 0 || pos + 8 > b.len() {
        None
    } else {
        let n = spec_u64_of_le(b, pos) as int;
        if pos + 8 + n > b.len() {
            None
        } else {
            Some((b.subrange(pos + 8, pos + 8 + n), pos + 8 + n))
        }
    }
}

/// Appends the framing of `data`.
pub fn enc_bytes(out: &mut Vec<u8>, data: &Vec<u8>)
    ensures
        final(out)@ =~= old(out)@ + spec_bytes_enc(data@),
{
    enc_u64(out, data.len() as u64);
    let mut i: usize = 0;
    while i < data.len()
        invariant
            i <= data@.len(),
            out@ =~= old(out)@ + spec_u64_le(data@.len() as u64) + data@.take(i as int),
        decreases data@.len() - i,
    {
        out.push(data[i]);
        assert(data@.take(i as int).push(data@[i as int]) =~= data@.take(i as int + 1));
        i = i + 1;
    }
    assert(data@.take(data@.len() as int) =~= data@);
}

/// Reads a framed byte string at `pos`.
pub fn dec_bytes(b: &[u8], pos: usize) -> (r: Option<(Vec<u8>, usize)>)
    ensures
        match r {
            Some((v, p2)) => spec_dec_bytes(b@, pos as int) == Some((v@, p2 as int)),
            None => spec_dec_bytes(b@, pos as int) is None,
        },
{
    match dec_u64(b, pos) {
        None => None,
        Some((n, p)) => {
            if n > (b.len() - p) as u64 {
                None
            } else {
                let n = n as usize;
                let blen = b.len();
                let mut v: Vec<u8> = Vec::new();
                let mut i: usize = 0;
                while i < n
                    invariant
                        p + n <= blen,
                        blen == b@.len(),
                        i <= n,
                        v@ =~= b@.subrange(p as int, p as int + i as int),
                    decreases n - i,
                {
                    v.push(b[p + i]);
                    assert(v@ =~= b@.subrange(p as int, p as int + i as int + 1));
                    i = i + 1;
                }
                Some((v, p + n))
            }
        },
    }
}

/// If a stretch of `b` holds `s1` followed by `s2`, each part sits at
/// its own offsets.
pub proof fn lemma_split_concat(b: Seq<u8>, pos: int, s1: Seq<u8>, s2: Seq<u8>)
    requires
        0 <= pos,
        pos + s1.len() + s2.len() <= b.len(),
        b.subrange(pos, pos + s1.len() + s2.len()) == s1 + s2,
    ensures
        b.subrange(pos, pos + s1.len() as int) == s1,
        b.subrange(pos + s1.len(), pos + s1.len() + s2.len()) == s2,
{
    let whole = b.subrange(pos, pos + s1.len() + s2.len());
    assert forall|k: int| 0 <= k < s1.len() implies b[pos + k] == s1[k] by {
        assert(whole[k] == b[pos + k]);
        assert((s1 + s2)[k] == s1[k]);
    }
    assert(b.subrange(pos, pos + s1.len() as int) =~= s1);
    assert forall|k: int| 0 <= k < s2.len() implies b[pos + s1.len() + k] == s2[k] by {
        assert(whole[s1.len() + k] == b[pos + s1.len() + k]);
        assert((s1 + s2)[s1.len() + k] == s2[k]);
    }
    assert(b.subrange(pos + s1.len(), pos + s1.len() + s2.len()) =~= s2);
}

/// Framed byte strings decode to what was framed, wherever they sit.
pub proof fn lemma_bytes_enc_roundtrip(data: Seq<u8>, b: Seq<u8>, pos: int)
    requires
        0 <= pos,
        pos + spec_bytes_enc(data).len() <= b.len(),
        b.subrange(pos, pos + spec_bytes_enc(data).len() as int) =~= spec_bytes_enc(data),
        data.len() < 0x1_0000_0000_0000_0000,
    ensures
        spec_dec_bytes(b, pos) == Some((data, pos + 8 + data.len() as int)),
{
    let n = data.len() as int;
    let enc = spec_bytes_enc(data);
    assert forall|k: int| 0 <= k < 8 implies b[pos + k] == #[trigger] spec_u64_le(
        data.len() as u64,
    )[k] by {
        assert(b.subrange(pos, pos + enc.len() as int)[k] == b[pos + k]);
    }
    assert(b.subrange(pos, pos + 8) =~= spec_u64_le(data.len() as u64));
    lemma_u64_le_roundtrip(data.len() as u64, b, pos);
    assert(spec_u64_of_le(b, pos) == data.len() as u64);
    assert forall|k: int| 0 <= k < n implies b[pos + 8 + k] == data[k] by {
        assert(b.subrange(pos, pos + enc.len() as int)[8 + k] == b[pos + 8 + k]);
        assert(enc[8 + k] == data[k]);
    }
    assert(b.subrange(pos + 8, pos + 8 + n) =~= data);
}

} // verus!

//! The byte layout of stored values: fixed-width little-endian integers,
//! raw 32-byte digests, and byte strings behind a 64-bit length.
//!
//! Every decoder reads at an offset and says where it stopped, so that larger
//! layouts are built by chaining. For each encoder a lemma states that the
//! decoder reads back what was written.

use vstd::prelude::*;
use vstd::bytes::*;
use vstd::slice::slice_subrange;

verus! {

/// The unsigned 64-bit word with the same two's-complement bits as `v`.
pub open spec fn i64_bits(v: i64) -> u64 {
    if v >= 0 {
        v as u64
    } else {
        (v + 0x1_0000_0000_0000_0000) as u64
    }
}

/// The signed reading of a 64-bit word: the inverse of [`i64_bits`].
pub open spec fn bits_i64(u: u64) -> i64 {
    if u < 0x8000_0000_0000_0000 {
        u as i64
    } else {
        (u - 0x1_0000_0000_0000_0000) as i64
    }
}

pub open spec fn enc_u32(x: u32) -> Seq<u8> {
    spec_u32_to_le_bytes(x)
}

pub open spec fn enc_u64(x: u64) -> Seq<u8> {
    spec_u64_to_le_bytes(x)
}

pub open spec fn enc_i64(x: i64) -> Seq<u8> {
    spec_u64_to_le_bytes(i64_bits(x))
}

/// A byte string on the wire: its length as a 64-bit word, then the bytes.
pub open spec fn enc_blob(b: Seq<u8>) -> Seq<u8> {
    enc_u64(b.len() as u64) + b
}

pub open spec fn parse_u32(bytes: Seq<u8>, pos: int) -> Option<(u32, int)> {
    if 0 <= pos && pos + 4 <= bytes.len() {
        Some((spec_u32_from_le_bytes(bytes.subrange(pos, pos + 4)), pos + 4))
    } else {
        None
    }
}

pub open spec fn parse_u64(bytes: Seq<u8>, pos: int) -> Option<(u64, int)> {
    if 0 <= pos && pos + 8 <= bytes.len() {
        Some((spec_u64_from_le_bytes(bytes.subrange(pos, pos + 8)), pos + 8))
    } else {
        None
    }
}

pub open spec fn parse_i64(bytes: Seq<u8>, pos: int) -> Option<(i64, int)> {
    match parse_u64(bytes, pos) {
        Some((u, end)) => Some((bits_i64(u), end)),
        None => None,
    }
}

/// Thirty-two raw bytes.
pub open spec fn parse_hash(bytes: Seq<u8>, pos: int) -> Option<(Seq<u8>, int)> {
    if 0 <= pos && pos + 32 <= bytes.len() {
        Some((bytes.subrange(pos, pos + 32), pos + 32))
    } else {
        None
    }
}

pub open spec fn parse_blob(bytes: Seq<u8>, pos: int) -> Option<(Seq<u8>, int)> {
    match parse_u64(bytes, pos) {
        Some((n, start)) => if start + n <= bytes.len() {
            Some((bytes.subrange(start, start + n), start + n))
        } else {
            None
        },
        None => None,
    }
}

/// `bytes` holds `piece` at offset `pos`.
pub open spec fn holds_at(bytes: Seq<u8>, pos: int, piece: Seq<u8>) -> bool {
    &&& 0 <= pos
    &&& pos + piece.len() <= bytes.len()
    &&& bytes.subrange(pos, pos + piece.len()) == piece
}

/// Where a layout `whole` holds a part at offset `off`, any buffer that holds
/// the layout holds the part, that much further on.
pub proof fn lemma_holds_part(bytes: Seq<u8>, pos: int, whole: Seq<u8>, off: int, part: Seq<u8>)
    requires
        holds_at(bytes, pos, whole),
        holds_at(whole, off, part),
    ensures
        holds_at(bytes, pos + off, part),
{
    assert(bytes.subrange(pos + off, pos + off + part.len()) =~= whole.subrange(
        off,
        off + part.len(),
    ));
}

pub proof fn lemma_bits_roundtrip(v: i64)
    ensures
        bits_i64(i64_bits(v)) == v,
{
}

pub proof fn lemma_parse_u32(bytes: Seq<u8>, pos: int, x: u32)
    requires
        holds_at(bytes, pos, enc_u32(x)),
    ensures
        enc_u32(x).len() == 4,
        parse_u32(bytes, pos) == Some((x, pos + 4)),
{
    lemma_auto_spec_u32_to_from_le_bytes();
}

pub proof fn lemma_parse_u64(bytes: Seq<u8>, pos: int, x: u64)
    requires
        holds_at(bytes, pos, enc_u64(x)),
    ensures
        enc_u64(x).len() == 8,
        parse_u64(bytes, pos) == Some((x, pos + 8)),
{
    lemma_auto_spec_u64_to_from_le_bytes();
}

pub proof fn lemma_parse_i64(bytes: Seq<u8>, pos: int, x: i64)
    requires
        holds_at(bytes, pos, enc_i64(x)),
    ensures
        enc_i64(x).len() == 8,
        parse_i64(bytes, pos) == Some((x, pos + 8)),
{
    lemma_auto_spec_u64_to_from_le_bytes();
    lemma_bits_roundtrip(x);
}

pub proof fn lemma_parse_hash(bytes: Seq<u8>, pos: int, h: Seq<u8>)
    requires
        h.len() == 32,
        holds_at(bytes, pos, h),
    ensures
        parse_hash(bytes, pos) == Some((h, pos + 32)),
{
}

pub proof fn lemma_parse_blob(bytes: Seq<u8>, pos: int, b: Seq<u8>)
    requires
        b.len() <= u64::MAX,
        holds_at(bytes, pos, enc_blob(b)),
    ensures
        enc_blob(b).len() == 8 + b.len(),
        parse_blob(bytes, pos) == Some((b, pos + 8 + b.len())),
{
    lemma_auto_spec_u64_to_from_le_bytes();
    let n = b.len() as u64;
    assert(enc_blob(b).subrange(0, 8) =~= enc_u64(n));
    lemma_holds_part(bytes, pos, enc_blob(b), 0, enc_u64(n));
    lemma_parse_u64(bytes, pos, n);
    assert(enc_blob(b).subrange(8, 8 + b.len() as int) =~= b);
    lemma_holds_part(bytes, pos, enc_blob(b), 8, b);
}

/// Appends `src` to `out`.
pub fn put_raw(out: &mut Vec<u8>, src: &[u8])
    ensures
        final(out)@ == old(out)@ + src@,
{
    let mut i: usize = 0;
    while i < src.len()
        invariant
            0 <= i <= src@.len(),
            out@ == old(out)@ + src@.subrange(0, i as int),
        decreases src@.len() - i,
    {
        out.push(src[i]);
        i += 1;
        assert(out@ =~= old(out)@ + src@.subrange(0, i as int));
    }
    assert(src@.subrange(0, i as int) =~= src@);
}

pub fn put_u32(out: &mut Vec<u8>, x: u32)
    ensures
        final(out)@ == old(out)@ + enc_u32(x),
{
    let b = u32_to_le_bytes(x);
    put_raw(out, b.as_slice());
}

pub fn put_u64(out: &mut Vec<u8>, x: u64)
    ensures
        final(out)@ == old(out)@ + enc_u64(x),
{
    let b = u64_to_le_bytes(x);
    put_raw(out, b.as_slice());
}

/// The two's-complement bits of `v` as an unsigned word.
pub fn bits_of(v: i64) -> (u: u64)
    ensures
        u == i64_bits(v),
{
    if v >= 0 {
        v as u64
    } else {
        let above_min: u64 = (v - i64::MIN) as u64;
        above_min + 0x8000_0000_0000_0000u64
    }
}

/// The signed value whose two's-complement bits are `u`.
pub fn signed_of(u: u64) -> (v: i64)
    ensures
        v == bits_i64(u),
{
    if u < 0x8000_0000_0000_0000u64 {
        u as i64
    } else {
        let above_min: i64 = (u - 0x8000_0000_0000_0000u64) as i64;
        above_min + i64::MIN
    }
}

pub fn put_i64(out: &mut Vec<u8>, x: i64)
    ensures
        final(out)@ == old(out)@ + enc_i64(x),
{
    put_u64(out, bits_of(x));
}

pub fn put_blob(out: &mut Vec<u8>, b: &[u8])
    ensures
        final(out)@ == old(out)@ + enc_blob(b@),
{
    put_u64(out, b.len() as u64);
    put_raw(out, b);
    assert(out@ =~= old(out)@ + enc_blob(b@));
}

pub fn take_u32(bytes: &[u8], pos: usize) -> (res: Option<(u32, usize)>)
    ensures
        match res {
            Some((x, end)) => parse_u32(bytes@, pos as int) == Some((x, end as int)),
            None => parse_u32(bytes@, pos as int) is None,
        },
{
    if bytes.len() < 4 || pos > bytes.len() - 4 {
        return None;
    }
    let x = u32_from_le_bytes(slice_subrange(bytes, pos, pos + 4));
    Some((x, pos + 4))
}

pub fn take_u64(bytes: &[u8], pos: usize) -> (res: Option<(u64, usize)>)
    ensures
        match res {
            Some((x, end)) => parse_u64(bytes@, pos as int) == Some((x, end as int)),
            None => parse_u64(bytes@, pos as int) is None,
        },
{
    if bytes.len() < 8 || pos > bytes.len() - 8 {
        return None;
    }
    let x = u64_from_le_bytes(slice_subrange(bytes, pos, pos + 8));
    Some((x, pos + 8))
}

pub fn take_i64(bytes: &[u8], pos: usize) -> (res: Option<(i64, usize)>)
    ensures
        match res {
            Some((x, end)) => parse_i64(bytes@, pos as int) == Some((x, end as int)),
            None => parse_i64(bytes@, pos as int) is None,
        },
{
    match take_u64(bytes, pos) {
        Some((u, end)) => Some((signed_of(u), end)),
        None => None,
    }
}

pub fn take_hash(bytes: &[u8], pos: usize) -> (res: Option<([u8; 32], usize)>)
    ensures
        match res {
            Some((h, end)) => parse_hash(bytes@, pos as int) == Some((h@, end as int)),
            None => parse_hash(bytes@, pos as int) is None,
        },
{
    if bytes.len() < 32 || pos > bytes.len() - 32 {
        return None;
    }
    let mut h = [0u8; 32];
    let mut i: usize = 0;
    while i < 32
        invariant
            0 <= i <= 32,
            pos + 32 <= bytes@.len() <= usize::MAX,
            forall|k: int| 0 <= k < i ==> h@[k] == bytes@[pos + k],
        decreases 32 - i,
    {
        h[i] = bytes[pos + i];
        i += 1;
    }
    assert(h@ =~= bytes@.subrange(pos as int, pos + 32));
    Some((h, pos + 32))
}

pub fn take_blob(bytes: &[u8], pos: usize) -> (res: Option<(Vec<u8>, usize)>)
    ensures
        match res {
            Some((b, end)) => parse_blob(bytes@, pos as int) == Some((b@, end as int)),
            None => parse_blob(bytes@, pos as int) is None,
        },
{
    match take_u64(bytes, pos) {
        Some((n, start)) => {
            if n > (bytes.len() - start) as u64 {
                return None;
            }
            let end: usize = start + n as usize;
            let mut b: Vec<u8> = Vec::new();
            put_raw(&mut b, slice_subrange(bytes, start, end));
            assert(b@ =~= bytes@.subrange(start as int, end as int));
            Some((b, end))
        },
        None => None,
    }
}

} // verus!

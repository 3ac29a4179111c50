//! Little-endian fields inside byte sequences.
use byteorder::{ByteOrder, LittleEndian};
use vstd::prelude::*;

verus! {

/// The `n` bytes starting at `p` lie inside `b`.
pub open spec fn fits(b: Seq<u8>, p: int, n: int) -> bool {
    0 <= p && p + n <= b.len()
}

/// The unsigned 32-bit integer stored least significant byte first at `p`.
pub open spec fn le_u32(b: Seq<u8>, p: int) -> u32 {
    (b[p] as u32) | ((b[p + 1] as u32) << 8u32) | ((b[p + 2] as u32) << 16u32) | ((b[p + 3] as u32)
        << 24u32)
}

/// The signed 32-bit integer stored in two's complement at `p`.
pub open spec fn le_i32(b: Seq<u8>, p: int) -> i32 {
    #[verifier::truncate]
    (le_u32(b, p) as i32)
}

/// The unsigned 64-bit integer stored least significant byte first at `p`.
pub open spec fn le_u64(b: Seq<u8>, p: int) -> u64 {
    (b[p] as u64) | ((b[p + 1] as u64) << 8u64) | ((b[p + 2] as u64) << 16u64) | ((b[p + 3] as u64)
        << 24u64) | ((b[p + 4] as u64) << 32u64) | ((b[p + 5] as u64) << 40u64) | ((b[p + 6] as u64)
        << 48u64) | ((b[p + 7] as u64) << 56u64)
}

/// The signed 64-bit integer stored in two's complement at `p`.
pub open spec fn le_i64(b: Seq<u8>, p: int) -> i64 {
    #[verifier::truncate]
    (le_u64(b, p) as i64)
}

/// The eight bytes of `x`, least significant first.
pub open spec fn le_bytes_u64(x: u64) -> Seq<u8> {
    seq![
        #[verifier::truncate] (x as u8),
        #[verifier::truncate] ((x >> 8u64) as u8),
        #[verifier::truncate] ((x >> 16u64) as u8),
        #[verifier::truncate] ((x >> 24u64) as u8),
        #[verifier::truncate] ((x >> 32u64) as u8),
        #[verifier::truncate] ((x >> 40u64) as u8),
        #[verifier::truncate] ((x >> 48u64) as u8),
        #[verifier::truncate] ((x >> 56u64) as u8),
    ]
}

/// `s` with the eight bytes at `p` replaced by `v` in little-endian order.
pub open spec fn put_i64(s: Seq<u8>, p: int, v: i64) -> Seq<u8> {
    s.subrange(0, p) + le_bytes_u64(#[verifier::truncate] (v as u64)) + s.subrange(p + 8, s.len() as int)
}

/// Writing a 64-bit value and reading it back at the same place gives the value,
/// leaves the length alone, and leaves every byte outside the field alone.
pub proof fn lemma_put_get_i64(s: Seq<u8>, p: int, v: i64)
    requires
        fits(s, p, 8),
    ensures
        put_i64(s, p, v).len() == s.len(),
        le_i64(put_i64(s, p, v), p) == v,
        forall|i: int| 0 <= i < s.len() && !(p <= i < p + 8) ==> put_i64(s, p, v)[i] == s[i],
{
    let t = put_i64(s, p, v);
    let x = #[verifier::truncate] (v as u64);
    assert(t[p] == x as u8);
    assert(t[p + 1] == (x >> 8u64) as u8);
    assert(t[p + 2] == (x >> 16u64) as u8);
    assert(t[p + 3] == (x >> 24u64) as u8);
    assert(t[p + 4] == (x >> 32u64) as u8);
    assert(t[p + 5] == (x >> 40u64) as u8);
    assert(t[p + 6] == (x >> 48u64) as u8);
    assert(t[p + 7] == (x >> 56u64) as u8);
    assert(((x as u8) as u64) | ((((x >> 8u64) as u8) as u64) << 8u64) | ((((x >> 16u64) as u8)
        as u64) << 16u64) | ((((x >> 24u64) as u8) as u64) << 24u64) | ((((x >> 32u64) as u8)
        as u64) << 32u64) | ((((x >> 40u64) as u8) as u64) << 40u64) | ((((x >> 48u64) as u8)
        as u64) << 48u64) | ((((x >> 56u64) as u8) as u64) << 56u64) == x) by (bit_vector);
    assert(le_u64(t, p) == x);
    assert((x as i64) == v) by (bit_vector)
        requires
            x == v as u64,
    ;
}

/// Relies on byteorder's `LittleEndian::read_u32`: the first four bytes of the
/// slice it is given, least significant first (it panics on fewer than four).
#[verifier::external_body]
pub(crate) fn read_u32_at(b: &[u8], p: usize) -> (r: u32)
    requires
        fits(b@, p as int, 4),
    ensures
        r == le_u32(b@, p as int),
{
    LittleEndian::read_u32(&b[p..])
}

/// Relies on byteorder's `LittleEndian::read_i32`: `read_u32` of the same bytes,
/// cast to `i32`.
#[verifier::external_body]
pub(crate) fn read_i32_at(b: &[u8], p: usize) -> (r: i32)
    requires
        fits(b@, p as int, 4),
    ensures
        r == le_i32(b@, p as int),
{
    LittleEndian::read_i32(&b[p..])
}

/// Relies on byteorder's `LittleEndian::read_i64`: the first eight bytes of the
/// slice, least significant first, cast to `i64` (it panics on fewer than eight).
#[verifier::external_body]
pub(crate) fn read_i64_at(b: &[u8], p: usize) -> (r: i64)
    requires
        fits(b@, p as int, 8),
    ensures
        r == le_i64(b@, p as int),
{
    LittleEndian::read_i64(&b[p..])
}

/// Relies on byteorder's `LittleEndian::write_i64`: it writes `v as u64` in
/// little-endian order over the first eight bytes of the slice and no others.
#[verifier::external_body]
pub(crate) fn write_i64_at(b: &mut Vec<u8>, p: usize, v: i64)
    requires
        fits(old(b)@, p as int, 8),
    ensures
        final(b)@ == put_i64(old(b)@, p as int, v),
{
    LittleEndian::write_i64(&mut b[p..], v)
}

/// Appends the bytes `r[from..to]` to `o`.
pub fn append_range(o: &mut Vec<u8>, r: &[u8], from: usize, to: usize)
    requires
        from <= to <= r@.len(),
    ensures
        final(o)@ == old(o)@ + r@.subrange(from as int, to as int),
{
    let mut i: usize = from;
    while i < to
        invariant
            from <= i <= to <= r@.len(),
            o@ == old(o)@ + r@.subrange(from as int, i as int),
        decreases to - i,
    {
        o.push(r[i]);
        assert(r@.subrange(from as int, i + 1) == r@.subrange(from as int, i as int).push(r@[i as int]));
        i = i + 1;
    }
}

} // verus!

use vstd::prelude::*;

use byteorder::{ByteOrder, LittleEndian};
use vstd::arithmetic::power2::{lemma2_to64, lemma_pow2_adds, pow2};

verus! {

/// The unsigned value of `s` read as a little-endian integer: the first byte
/// is the least significant one.
pub open spec fn le_uint(s: Seq<u8>) -> nat
    decreases s.len(),
{
    if s.len() == 0 {
        0
    } else {
        s[0] as nat + 256 * le_uint(s.drop_first())
    }
}

/// The little-endian value of the `n` bytes of `s` that start at `at`.
pub open spec fn le_at(s: Seq<u8>, at: int, n: int) -> nat {
    le_uint(s.subrange(at, at + n))
}

/// An `n`-byte little-endian integer is below `2^(8n)`.
pub proof fn lemma_le_uint_bound(s: Seq<u8>)
    ensures
        le_uint(s) < pow2(8 * s.len()),
    decreases s.len(),
{
    lemma2_to64();
    if s.len() > 0 {
        let rest = s.drop_first();
        lemma_le_uint_bound(rest);
        lemma_pow2_adds(8, 8 * rest.len());
        assert(8 * s.len() == 8 + 8 * rest.len());
        let p = pow2(8 * rest.len());
        assert(s[0] as nat + 256 * le_uint(rest) < 256 * p) by (nonlinear_arith)
            requires
                s[0] < 256,
                le_uint(rest) < p,
        ;
    }
}

/// Relies on `byteorder::LittleEndian::read_u16`: the first two bytes of the
/// slice as a little-endian integer (it panics on a shorter slice).
#[verifier::external_body]
pub(crate) fn read_u16_at(buf: &[u8], at: usize) -> (r: u16)
    requires
        at + 2 <= buf@.len(),
    ensures
        r as nat == le_at(buf@, at as int, 2),
{
    LittleEndian::read_u16(&buf[at..])
}

/// Relies on `byteorder::LittleEndian::read_u32`: the first four bytes of the
/// slice as a little-endian integer (it panics on a shorter slice).
#[verifier::external_body]
pub(crate) fn read_u32_at(buf: &[u8], at: usize) -> (r: u32)
    requires
        at + 4 <= buf@.len(),
    ensures
        r as nat == le_at(buf@, at as int, 4),
{
    LittleEndian::read_u32(&buf[at..])
}

/// Relies on `byteorder::LittleEndian::read_uint`: the first `nbytes` bytes of
/// the slice as a little-endian integer (it panics unless `1 <= nbytes <= 8`
/// and the slice holds `nbytes` bytes).
#[verifier::external_body]
pub(crate) fn read_uint_at(buf: &[u8], at: usize, nbytes: usize) -> (r: u64)
    requires
        1 <= nbytes <= 8,
        at + nbytes <= buf@.len(),
    ensures
        r as nat == le_at(buf@, at as int, nbytes as int),
{
    LittleEndian::read_uint(&buf[at..], nbytes)
}

} // verus!

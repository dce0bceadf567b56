//! Big-endian encodings of the integers the on-disk format is made of.
use byteorder::{BigEndian, ByteOrder};
use vstd::prelude::*;

verus! {

/// The two bytes of `v`, most significant first.
pub open spec fn be_u16(v: u16) -> Seq<u8> {
    seq![(v >> 8u16) as u8, v as u8]
}

/// The four bytes of `v`, most significant first.
pub open spec fn be_u32(v: u32) -> Seq<u8> {
    seq![(v >> 24u32) as u8, (v >> 16u32) as u8, (v >> 8u32) as u8, v as u8]
}

/// The eight bytes of `v`, most significant first.
pub open spec fn be_u64(v: u64) -> Seq<u8> {
    seq![
        (v >> 56u64) as u8,
        (v >> 48u64) as u8,
        (v >> 40u64) as u8,
        (v >> 32u64) as u8,
        (v >> 24u64) as u8,
        (v >> 16u64) as u8,
        (v >> 8u64) as u8,
        v as u8,
    ]
}

/// The concatenated big-endian encodings of a sequence of 16-bit entries.
pub open spec fn be_u16s(s: Seq<u16>) -> Seq<u8>
    decreases s.len(),
{
    if s.len() == 0 {
        seq![]
    } else {
        be_u16s(s.drop_last()) + be_u16(s.last())
    }
}

/// The concatenated big-endian encodings of a sequence of 64-bit entries.
pub open spec fn be_u64s(s: Seq<u64>) -> Seq<u8>
    decreases s.len(),
{
    if s.len() == 0 {
        seq![]
    } else {
        be_u64s(s.drop_last()) + be_u64(s.last())
    }
}

/// Relies on byteorder's `BigEndian::write_u16`, which stores `v` in the first
/// two bytes of the buffer, most significant first.
#[verifier::external_body]
pub(crate) fn push_u16(out: &mut Vec<u8>, v: u16)
    ensures
        final(out)@ == old(out)@ + be_u16(v),
{
    let mut b = [0u8; 2];
    BigEndian::write_u16(&mut b, v);
    out.extend_from_slice(&b);
}

/// Relies on byteorder's `BigEndian::write_u32`, which stores `v` in the first
/// four bytes of the buffer, most significant first.
#[verifier::external_body]
pub(crate) fn push_u32(out: &mut Vec<u8>, v: u32)
    ensures
        final(out)@ == old(out)@ + be_u32(v),
{
    let mut b = [0u8; 4];
    BigEndian::write_u32(&mut b, v);
    out.extend_from_slice(&b);
}

/// Relies on byteorder's `BigEndian::write_u64`, which stores `v` in the first
/// eight bytes of the buffer, most significant first.
#[verifier::external_body]
pub(crate) fn push_u64(out: &mut Vec<u8>, v: u64)
    ensures
        final(out)@ == old(out)@ + be_u64(v),
{
    let mut b = [0u8; 8];
    BigEndian::write_u64(&mut b, v);
    out.extend_from_slice(&b);
}

/// Each 64-bit entry takes eight bytes.
pub proof fn lemma_be_u64s_len(s: Seq<u64>)
    ensures
        be_u64s(s).len() == 8 * s.len(),
    decreases s.len(),
{
    if s.len() > 0 {
        lemma_be_u64s_len(s.drop_last());
    }
}

/// Each 16-bit entry takes two bytes.
pub proof fn lemma_be_u16s_len(s: Seq<u16>)
    ensures
        be_u16s(s).len() == 2 * s.len(),
    decreases s.len(),
{
    if s.len() > 0 {
        lemma_be_u16s_len(s.drop_last());
    }
}

} // verus!

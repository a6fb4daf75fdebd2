//! Big-endian unsigned integers.

use byteorder::{BigEndian, ReadBytesExt};
use vstd::prelude::*;

verus! {

/// The number that `bytes` spell when read as one big-endian unsigned
/// integer: the first byte is the most significant.
pub open spec fn be_value(bytes: Seq<u8>) -> nat
    decreases bytes.len(),
{
    if bytes.len() == 0 {
        0
    } else {
        be_value(bytes.drop_last()) * 256 + bytes.last() as nat
    }
}

/// 256 to the power `n`, the number of values that `n` bytes can spell.
pub open spec fn byte_range(n: nat) -> nat
    decreases n,
{
    if n == 0 {
        1
    } else {
        256 * byte_range((n - 1) as nat)
    }
}

/// A big-endian integer of `n` bytes lies below `256^n`.
pub proof fn lemma_be_value_bound(bytes: Seq<u8>)
    ensures
        be_value(bytes) < byte_range(bytes.len()),
    decreases bytes.len(),
{
    if bytes.len() > 0 {
        lemma_be_value_bound(bytes.drop_last());
    }
}

/// Four bytes spell a number that fits `u32`, eight bytes one that fits `u64`.
pub proof fn lemma_byte_range_values()
    ensures
        byte_range(1) == 0x100,
        byte_range(2) == 0x1_0000,
        byte_range(3) == 0x100_0000,
        byte_range(4) == 0x1_0000_0000,
        byte_range(8) == 0x1_0000_0000_0000_0000,
{
    reveal_with_fuel(byte_range, 9);
}

/// An all-zero prefix spells zero.
pub proof fn lemma_be_value_zero(bytes: Seq<u8>)
    requires
        forall|i: int| 0 <= i < bytes.len() ==> bytes[i] == 0,
    ensures
        be_value(bytes) == 0,
    decreases bytes.len(),
{
    if bytes.len() > 0 {
        lemma_be_value_zero(bytes.drop_last());
    }
}

/// Reads the big-endian unsigned integer that the first `nbytes` bytes of
/// `buf` spell.
///
/// Trusted: the body calls `byteorder::ReadBytesExt::read_uint::<BigEndian>`
/// on a `std::io::Cursor` over `buf`. That method fills `nbytes` bytes with
/// `read_exact`, which fails exactly when fewer are left, and returns them as
/// one big-endian number; it panics unless `1 <= nbytes <= 8`.
#[verifier::external_body]
pub(crate) fn read_uint_be(buf: &[u8], nbytes: usize) -> (r: Option<u64>)
    requires
        1 <= nbytes <= 8,
    ensures
        r is Some <==> nbytes <= buf@.len(),
        r matches Some(v) ==> v == be_value(buf@.subrange(0, nbytes as int)),
{
    let mut cursor = std::io::Cursor::new(buf);
    cursor.read_uint::<BigEndian>(nbytes).ok()
}

/// The big-endian unsigned integer in the first `nbytes` bytes of `buf`.
/// There is none where `nbytes` is not one of 1 to 8, or where `buf` is
/// shorter than `nbytes`.
pub fn read_be(buf: &[u8], nbytes: u8) -> (r: Option<u64>)
    ensures
        r is Some <==> 1 <= nbytes <= 8 && nbytes <= buf@.len(),
        r matches Some(v) ==> v == be_value(buf@.subrange(0, nbytes as int)) && v < byte_range(
            nbytes as nat,
        ),
{
    if nbytes < 1 || nbytes > 8 {
        return None;
    }
    let r = read_uint_be(buf, nbytes as usize);
    proof {
        if nbytes <= buf@.len() {
            lemma_be_value_bound(buf@.subrange(0, nbytes as int));
        }
    }
    r
}

} // verus!

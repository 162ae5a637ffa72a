use vstd::prelude::*;
use bit_vec::BitVec;

verus! {

#[verifier::external_type_specification]
#[verifier::external_body]
#[verifier::reject_recursive_types(B)]
pub struct ExBitVec<B>(BitVec<B>);

/// The bits a `BitVec` holds, first to last.
pub uninterp spec fn bits_of(v: BitVec) -> Seq<bool>;

/// Bit `i` of a byte string, most significant bit of each byte first.
pub open spec fn byte_bit(bytes: Seq<u8>, i: int) -> bool {
    (bytes[i / 8] >> ((7 - i % 8) as u8)) & 1u8 == 1u8
}

/// The bits of a byte string, eight per byte, most significant first.
pub open spec fn bits_of_bytes(bytes: Seq<u8>) -> Seq<bool> {
    Seq::new(8 * bytes.len(), |i: int| byte_bit(bytes, i))
}

/// Relies on `BitVec::new`: an empty bit vector.
#[verifier::external_body]
pub(crate) fn empty_bits() -> (r: BitVec)
    ensures
        bits_of(r) == Seq::<bool>::empty(),
{
    BitVec::new()
}

/// Relies on `BitVec::from_bytes`: eight bits per byte, the most significant
/// bit of each byte first. It panics when the bit count overflows `usize`.
#[verifier::external_body]
pub(crate) fn bits_from_bytes(bytes: &[u8]) -> (r: BitVec)
    requires
        8 * bytes@.len() <= usize::MAX,
    ensures
        bits_of(r) == bits_of_bytes(bytes@),
{
    BitVec::from_bytes(bytes)
}

/// Relies on `BitVec::len`: the number of bits held.
#[verifier::external_body]
pub(crate) fn bit_len(v: &BitVec) -> (r: usize)
    ensures
        r == bits_of(*v).len(),
{
    v.len()
}

/// Relies on `BitVec`'s `Index<usize>`: the bit at `i`; it panics past the end.
#[verifier::external_body]
pub(crate) fn bit_at(v: &BitVec, i: usize) -> (r: bool)
    requires
        i < bits_of(*v).len(),
    ensures
        r == bits_of(*v)[i as int],
{
    v[i]
}

/// Relies on `BitVec::push`: appends one bit; it panics when the length
/// would overflow `usize`.
#[verifier::external_body]
pub(crate) fn push_bit(v: &mut BitVec, b: bool)
    requires
        bits_of(*old(v)).len() < usize::MAX,
    ensures
        bits_of(*final(v)) == bits_of(*old(v)).push(b),
{
    v.push(b)
}

} // verus!

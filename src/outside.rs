//! Calls into outside crates, each behind a contract taken from the crate's
//! source.
use bit_field::BitField;
use vstd::prelude::*;

verus! {

/// Relies on `bit_field::BitField::get_bit` for `u8`: tests bit `bit`, index 0
/// the least significant; it panics unless `bit < 8`.
#[verifier::external_body]
pub(crate) fn get_bit(x: u8, bit: usize) -> (r: bool)
    requires
        bit < 8,
    ensures
        r == (x & (1u8 << (bit as u8)) != 0),
{
    x.get_bit(bit)
}

/// Relies on `bit_field::BitField::set_bit` for `u8`: sets bit `bit` when
/// `value` holds and clears it otherwise; it panics unless `bit < 8`.
#[verifier::external_body]
pub(crate) fn set_bit(x: u8, bit: usize, value: bool) -> (r: u8)
    requires
        bit < 8,
    ensures
        r == (if value {
            x | (1u8 << (bit as u8))
        } else {
            x & !(1u8 << (bit as u8))
        }),
{
    let mut y = x;
    y.set_bit(bit, value);
    y
}

#[verifier::external_type_specification]
#[verifier::external_body]
#[verifier::reject_recursive_types(T)]
pub struct ExHeaplessVec<T, const N: usize>(heapless::Vec<T, N>);

/// The bytes that a payload vector holds, in order.
pub uninterp spec fn payload_items(v: heapless::Vec<u8, 255>) -> Seq<u8>;

/// Relies on `heapless::Vec::as_slice`: the stored bytes in order, at most the
/// capacity of 255.
#[verifier::external_body]
pub(crate) fn payload_slice(v: &heapless::Vec<u8, 255>) -> (r: &[u8])
    ensures
        r@ == payload_items(*v),
        r@.len() <= 255,
{
    v.as_slice()
}

} // verus!

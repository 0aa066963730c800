//! The byte order of the machine the code runs on.
use crate::format::ByteOrder;
use vstd::endian::{endianness, Endian};
use vstd::prelude::*;

verus! {

/// `u16::from_ne_bytes`: the number whose bytes, in the machine's own
/// order, are `bytes`. On a little-endian machine the first byte is the low
/// one, on a big-endian machine the high one.
#[verifier::external_body]
fn u16_from_ne_bytes(bytes: [u8; 2]) -> (r: u16)
    ensures
        endianness() == Endian::Little ==> r == bytes[0] + 256 * bytes[1],
        endianness() == Endian::Big ==> r == bytes[1] + 256 * bytes[0],
{
    u16::from_ne_bytes(bytes)
}

/// Whether the machine the code runs on stores the low byte of a number
/// first.
pub open spec fn machine_is_little_endian() -> bool {
    endianness() == Endian::Little
}

/// Whether the machine stores the low byte of a number first.
pub fn native_is_little_endian() -> (r: bool)
    ensures
        r == machine_is_little_endian(),
{
    u16_from_ne_bytes([1, 0]) == 1
}

/// Whether the byte order `order` reads and writes the low byte first:
/// `<` and no mark ask for little-endian, `>` for big-endian, and `@` for
/// the order of the machine the code runs on.
pub open spec fn order_is_little(order: ByteOrder) -> bool {
    match order {
        ByteOrder::Little => true,
        ByteOrder::Big => false,
        ByteOrder::Native => machine_is_little_endian(),
    }
}

/// Whether bytes are to be read and written least significant first under
/// the byte order `order`.
pub fn is_little_endian(order: ByteOrder) -> (r: bool)
    ensures
        r == order_is_little(order),
{
    match order {
        ByteOrder::Little => true,
        ByteOrder::Big => false,
        ByteOrder::Native => native_is_little_endian(),
    }
}

} // verus!

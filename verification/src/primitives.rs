//! Fixed-width primitive codec: 16-bit unsigned big-endian writes, used
//! for port numbers. This protocol subset never reads one back.

use vstd::prelude::*;

verus! {

/// The big-endian byte pair of a 16-bit value.
pub open spec fn u16_be_bytes(v: u16) -> Seq<u8> {
    seq![(v / 256) as u8, (v % 256) as u8]
}

/// Appends `value` to `buffer` in big-endian byte order.
pub fn write_u16(buffer: &mut Vec<u8>, value: u16)
    ensures
        final(buffer)@ == old(buffer)@ + u16_be_bytes(value),
{
    buffer.push((value / 256) as u8);
    buffer.push((value % 256) as u8);
    assert(buffer@ =~= old(buffer)@ + u16_be_bytes(value));
}

} // verus!

//! Colors written as 24-bit hexadecimal `0xRRGGBB` values.
use vstd::prelude::*;
use crate::vector::Vec3;

verus! {

/// The red, green and blue bytes of `0xRRGGBB`; higher bits are ignored.
pub fn hex_channels(value: u32) -> (r: Vec3<u8>)
    ensures
        r.x == (value / 0x10000) % 0x100,
        r.y == (value / 0x100) % 0x100,
        r.z == value % 0x100,
{
    proof {
        assert((value >> 16u32) & 0xffu32 == (value / 0x10000) % 0x100) by (bit_vector);
        assert((value >> 8u32) & 0xffu32 == (value / 0x100) % 0x100) by (bit_vector);
        assert(value & 0xffu32 == value % 0x100) by (bit_vector);
    }
    Vec3 {
        x: ((value >> 16) & 0xff) as u8,
        y: ((value >> 8) & 0xff) as u8,
        z: (value & 0xff) as u8,
    }
}

} // verus!

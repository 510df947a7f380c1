//! Little-endian conversion between bytes and 32-bit words.
use vstd::prelude::*;
use crate::model::{le_word, byte_of};

verus! {

/// The word stored little-endian in `b[off .. off + 4]`.
pub fn load32(b: &[u8], off: usize) -> (w: u32)
    requires
        off + 4 <= b@.len(),
    ensures
        w == le_word(b@, off as int),
{
    (b[off] as u32) + (b[off + 1] as u32) * 0x100 + (b[off + 2] as u32) * 0x1_0000
        + (b[off + 3] as u32) * 0x100_0000
}

/// Writes `w` little-endian into `b[off .. off + 4]`.
pub fn store32(b: &mut [u8; 32], off: usize, w: u32)
    requires
        off + 4 <= 32,
    ensures
        final(b)@ == old(b)@.update(off as int, byte_of(w, 0)).update(off + 1, byte_of(w, 1)).update(
            off + 2,
            byte_of(w, 2),
        ).update(off + 3, byte_of(w, 3)),
{
    b[off] = (w % 0x100) as u8;
    b[off + 1] = ((w / 0x100) % 0x100) as u8;
    b[off + 2] = ((w / 0x1_0000) % 0x100) as u8;
    b[off + 3] = (w / 0x100_0000) as u8;
}

} // verus!

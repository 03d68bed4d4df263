//! Gates of the image effects: what is sampled, and what is left out.

use vstd::prelude::*;

use crate::float_bits;

verus! {

/// The bit pattern of one.
pub const ONE: u32 = 0x3f80_0000;

/// Whether the ray of a lens was rendered; the others stay dark.
pub fn lens_ray_is_rendered(u: u32, v: u32) -> (yes: bool)
    ensures
        yes == !(float_bits::less(u, 0) || float_bits::less(ONE, u) || float_bits::less(v, 0)
            || float_bits::less(ONE, v)),
{
    !(float_bits::is_less(u, 0) || float_bits::is_less(ONE, u) || float_bits::is_less(v, 0)
        || float_bits::is_less(ONE, v))
}

/// The displaced and weighted taps of a lens's chromatic aberration; none where
/// the lens has no aberration and the pixel is sampled as it is.
pub fn aberration_taps(taps: u32, strength: u32) -> (count: Option<u32>)
    ensures
        count == if taps == 0 || float_bits::equal(strength, 0) {
            None
        } else {
            Some(taps)
        },
{
    if taps == 0 || float_bits::is_zero(strength) {
        None
    } else {
        Some(taps)
    }
}

/// The taps that smear a signal's colour: none where they would all fall on the
/// pixel.
pub fn chroma_taps(taps: u32, width: u32, desync: u32) -> (count: u32)
    ensures
        count == if taps > 1 && (!float_bits::equal(width, 0) || !float_bits::equal(desync, 0)) {
            taps
        } else {
            0
        },
{
    if taps > 1 && (!float_bits::is_zero(width) || !float_bits::is_zero(desync)) {
        taps
    } else {
        0
    }
}

/// Whether an amount adds anything.
pub fn adds(amount: u32) -> (yes: bool)
    ensures
        yes == !float_bits::equal(amount, 0),
{
    !float_bits::is_zero(amount)
}

/// Whether an optional texture is there: slot zero stands for none.
pub fn has_texture(slot: u32) -> (yes: bool)
    ensures
        yes == (slot != 0),
{
    slot != 0
}

/// Whether a threshold cuts anything off.
pub fn thresholds(threshold: u32) -> (yes: bool)
    ensures
        yes == float_bits::less(0, threshold),
{
    float_bits::is_less(0, threshold)
}

/// A draw of indexed geometry.
#[derive(Debug, Clone, Copy, PartialEq, Eq, Structural)]
pub struct DrawIndexedIndirectCommand {
    pub index_count: u32,
    pub instance_count: u32,
    pub first_index: u32,
    pub vertex_offset: i32,
    pub first_instance: u32,
}

/// Writes the draw of one triangle and the number of draws.
pub fn write_draw() -> (written: (DrawIndexedIndirectCommand, u32))
    ensures
        written.0 == (DrawIndexedIndirectCommand {
            index_count: 3,
            instance_count: 1,
            first_index: 0,
            vertex_offset: 0,
            first_instance: 0,
        }),
        written.1 == 1,
{
    (
        DrawIndexedIndirectCommand {
            index_count: 3,
            instance_count: 1,
            first_index: 0,
            vertex_offset: 0,
            first_instance: 0,
        },
        1,
    )
}

/// One invocation of a fill; those beyond the count write nothing.
pub fn fill(words: &mut Vec<u32>, invocation: u32, count: u32, value: u32)
    requires
        count <= old(words)@.len(),
    ensures
        final(words)@ == if invocation < count {
            old(words)@.update(invocation as int, value)
        } else {
            old(words)@
        },
{
    if invocation < count {
        words.set(invocation as usize, value);
    }
}

} // verus!

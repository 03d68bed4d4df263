//! UI material tags packed into the UI vertex stream.

use vstd::arithmetic::power2::*;
use vstd::prelude::*;

use crate::abi::{
    UI_MODE_ALPHA_PATTERN, UI_MODE_COLOR_PLANE, UI_PLANE_GB, UI_PLANE_HL, UI_PLANE_HS, UI_PLANE_RB,
    UI_PLANE_RG, Quadruple,
};
use crate::painter_order;

verus! {

/// Color axes displayed by a material color-plane quad.
#[derive(Debug, Clone, Copy, PartialEq, Eq, Structural)]
pub enum ColorPlaneAxes {
    /// Red across, green down; the fixed channel is blue.
    RedGreen,
    /// Red across, blue down; the fixed channel is green.
    RedBlue,
    /// Green across, blue down; the fixed channel is red.
    GreenBlue,
    /// Hue across, saturation down; the fixed channel is lightness.
    HueSaturation,
    /// Hue across, lightness down; the fixed channel is saturation.
    HueLightness,
}

impl Default for ColorPlaneAxes {
    fn default() -> (axes: ColorPlaneAxes)
        ensures
            axes == ColorPlaneAxes::HueLightness,
    {
        ColorPlaneAxes::HueLightness
    }
}

impl ColorPlaneAxes {
    /// The shader's number for the axes.
    pub open spec fn plane(self) -> u32 {
        match self {
            ColorPlaneAxes::RedGreen => UI_PLANE_RG,
            ColorPlaneAxes::RedBlue => UI_PLANE_RB,
            ColorPlaneAxes::GreenBlue => UI_PLANE_GB,
            ColorPlaneAxes::HueSaturation => UI_PLANE_HS,
            ColorPlaneAxes::HueLightness => UI_PLANE_HL,
        }
    }

    /// The shader's number for the axes.
    pub fn variant(self) -> (variant: u32)
        ensures
            variant == self.plane(),
    {
        match self {
            ColorPlaneAxes::RedGreen => UI_PLANE_RG,
            ColorPlaneAxes::RedBlue => UI_PLANE_RB,
            ColorPlaneAxes::GreenBlue => UI_PLANE_GB,
            ColorPlaneAxes::HueSaturation => UI_PLANE_HS,
            ColorPlaneAxes::HueLightness => UI_PLANE_HL,
        }
    }
}

/// The shader tells all axes apart.
pub proof fn law_planes_are_distinct(a: ColorPlaneAxes, b: ColorPlaneAxes)
    ensures
        a.plane() == b.plane() <==> a == b,
{
}

/// Parameters of a material.
#[derive(Debug, Clone, Copy, PartialEq, Eq, Structural)]
pub struct UiMaterialData {
    pub variant: u32,
    /// Bits of the channel that the plane does not show.
    pub fixed_channel: u32,
}

/// Bits of the single-precision value `m * 2^(e - 23)`.
pub open spec fn encoded(m: nat, e: int) -> int
    decreases
            (if m >= 0x100_0000 {
                m as int
            } else {
                0
            }),
            (if m < 0x80_0000 {
                0x80_0000 - m
            } else {
                0
            }),
{
    if m == 0 {
        0
    } else if m >= 0x100_0000 {
        encoded(m / 2, e + 1)
    } else if m < 0x80_0000 {
        encoded(2 * m, e - 1)
    } else {
        (e + 126) * 0x80_0000 + m
    }
}

/// Bits of the single-precision value nearest to a whole number.
pub open spec fn whole_bits(n: u32) -> int {
    encoded(painter_order::round_magnitude(n as nat), 23)
}

proof fn lemma_powers_in_order(i: nat, j: nat)
    requires
        pow2(i) <= pow2(j),
    ensures
        i <= j,
{
    if j < i {
        lemma_pow2_strictly_increases(j, i);
    }
}

/// Finds the bits of the single-precision value nearest to a whole number.
fn bits_of_whole(n: u32) -> (bits: u32)
    ensures
        bits == whole_bits(n),
{
    let rounded: u64 = painter_order::round_to_significand(n as u64);
    if rounded == 0 {
        return 0;
    }
    let mut m: u64 = rounded;
    let mut step: u64 = 1;
    let mut up: u64 = 0;
    proof {
        lemma2_to64();
    }
    while m >= 0x100_0000
        invariant
            rounded <= 0x2_0000_0000,
            m > 0,
            step * m <= rounded,
            1 <= step,
            step == pow2(up as nat),
            up <= 10,
            encoded(m as nat, 23 + up as int) == encoded(rounded as nat, 23),
        decreases m,
    {
        proof {
            let half: int = m as int / 2;
            assert((2 * step) * half <= step * m) by (nonlinear_arith)
                requires
                    2 * half <= m,
                    1 <= step,
            ;
            assert(step * 0x80_0000 <= step * half) by (nonlinear_arith)
                requires
                    0x80_0000 <= half,
                    1 <= step,
            ;
            assert((2 * step) * half == 2 * (step * half)) by (nonlinear_arith);
            lemma_pow2_unfold((up + 1) as nat);
            lemma2_to64();
            lemma_powers_in_order((up + 1) as nat, 10);
        }
        step = 2 * step;
        m = m / 2;
        up = up + 1;
    }
    let mut down: u64 = 0;
    while m < 0x80_0000
        invariant
            0 < m < 0x100_0000,
            up <= 10,
            down <= 23,
            pow2(down as nat) <= m,
            encoded(m as nat, 23 + up - down) == encoded(rounded as nat, 23),
        decreases 0x100_0000 - m,
    {
        proof {
            lemma_pow2_unfold((down + 1) as nat);
            lemma2_to64();
            lemma_powers_in_order((down + 1) as nat, 23);
        }
        m = 2 * m;
        down = down + 1;
    }
    ((149 + up - down) * 0x80_0000 + m) as u32
}

impl UiMaterialData {
    /// The parameters as the shader reads them: the channel that the plane does
    /// not show, and the number of the axes.
    pub open spec fn packed(self) -> Quadruple {
        Quadruple { x: self.fixed_channel, y: whole_bits(self.variant) as u32, z: 0, w: 0 }
    }

    /// Packs the parameters as the shader reads them.
    pub fn to_color2(self) -> (color2: Quadruple)
        ensures
            color2 == self.packed(),
    {
        Quadruple { x: self.fixed_channel, y: bits_of_whole(self.variant), z: 0, w: 0 }
    }
}

/// Packed parameters tell all axes and fixed channels apart.
pub proof fn law_packed_axes_are_read_back(
    a: ColorPlaneAxes,
    b: ColorPlaneAxes,
    fixed_a: u32,
    fixed_b: u32,
)
    ensures
        (UiMaterialData { variant: a.plane(), fixed_channel: fixed_a }).packed() == (
        UiMaterialData { variant: b.plane(), fixed_channel: fixed_b }).packed() <==> a == b
            && fixed_a == fixed_b,
{
    lemma_small_bits();
}

/// The bits of the numbers that the axes have.
proof fn lemma_small_bits()
    ensures
        whole_bits(0) == 0,
        whole_bits(1) == 0x3f80_0000,
        whole_bits(2) == 0x4000_0000,
        whole_bits(3) == 0x4040_0000,
        whole_bits(4) == 0x4080_0000,
{
    reveal_with_fuel(encoded, 25);
    assert forall|n: u32| n < 5 implies #[trigger] painter_order::round_magnitude(n as nat)
        == n by {
        assert(painter_order::spacing(n as nat) == 1);
    }
    assert(painter_order::round_magnitude(0) == 0);
    assert(painter_order::round_magnitude(1) == 1);
    assert(painter_order::round_magnitude(2) == 2);
    assert(painter_order::round_magnitude(3) == 3);
    assert(painter_order::round_magnitude(4) == 4);
}

/// Marks a UI node for material shading.
#[derive(Debug, Clone, Copy, PartialEq, Eq, Structural)]
pub struct UiMaterialTag {
    pub mode: u32,
    pub data: UiMaterialData,
}

impl UiMaterialTag {
    /// A checkerboard alpha-pattern material.
    pub fn alpha_pattern() -> (tag: UiMaterialTag)
        ensures
            tag.mode == UI_MODE_ALPHA_PATTERN,
            tag.data == (UiMaterialData { variant: 0, fixed_channel: 0 }),
    {
        UiMaterialTag {
            mode: UI_MODE_ALPHA_PATTERN,
            data: UiMaterialData { variant: 0, fixed_channel: 0 },
        }
    }

    /// A color-plane material with one fixed channel.
    pub fn color_plane(axes: ColorPlaneAxes, fixed_channel: u32) -> (tag: UiMaterialTag)
        ensures
            tag.mode == UI_MODE_COLOR_PLANE,
            tag.data == (UiMaterialData { variant: axes.plane(), fixed_channel }),
    {
        UiMaterialTag {
            mode: UI_MODE_COLOR_PLANE,
            data: UiMaterialData { variant: axes.variant(), fixed_channel },
        }
    }
}

} // verus!

//! Coverage of a pixel by a glyph's curves.
//!
//! Along a ray from the pixel each curve crosses the axis at its first root, at
//! its second, at both or at neither. Which of them count follows from the signs
//! of the curve's three control points alone, so that neighbouring curves agree
//! on the point they share.

use vstd::prelude::*;

use crate::bits;
use crate::float_bits;
use crate::paint;

verus! {

/// Whether a coordinate's sign bit is set.
pub open spec fn is_negative(value: u32) -> bool {
    value >= 0x8000_0000
}

/// Whether the first root of a curve counts: it leaves the far side there.
pub open spec fn first_root_counts(y1: u32, y2: u32, y3: u32) -> bool {
    let (a, b, c) = (is_negative(y1), is_negative(y2), is_negative(y3));
    (c && !(a && b)) || (b && !a)
}

/// Whether the second root of a curve counts: it enters the far side there.
pub open spec fn second_root_counts(y1: u32, y2: u32, y3: u32) -> bool {
    let (a, b, c) = (is_negative(y1), is_negative(y2), is_negative(y3));
    (a && !(b && c)) || (b && !c)
}

/// The table of roots, one bit for each pattern of signs and each root.
pub const ROOT_TABLE: u32 = 0x2e74;

/// Tells which roots of a curve count: bit 0 for the first, bit 8 for the
/// second.
pub fn text_calc_root_code(y1: u32, y2: u32, y3: u32) -> (code: u32)
    ensures
        code == (if first_root_counts(y1, y2, y3) {
            1int
        } else {
            0
        }) + (if second_root_counts(y1, y2, y3) {
            0x100int
        } else {
            0
        }),
        code & 1 != 0 <==> first_root_counts(y1, y2, y3),
{
    let i1: u32 = y1 >> 31;
    let i2: u32 = y2 >> 30;
    let i3: u32 = y3 >> 29;
    let low: u32 = (i2 & 2) | (i1 & !2u32);
    let shift: u32 = (i3 & 4) | (low & !4u32);
    proof {
        assert({
            let (a, b, c) = (y1 >= 0x8000_0000u32, y2 >= 0x8000_0000u32, y3 >= 0x8000_0000u32);
            let low = ((y2 >> 30) & 2) | ((y1 >> 31) & !2u32);
            let shift = ((y3 >> 29) & 4) | (low & !4u32);
            let code = (0x2e74u32 >> shift) & 0x0101u32;
            &&& shift < 8
            &&& ((code & 1 != 0) == ((c && !(a && b)) || (b && !a)))
            &&& code == (if (c && !(a && b)) || (b && !a) {
                1u32
            } else {
                0u32
            }) + (if (a && !(b && c)) || (b && !c) {
                0x100u32
            } else {
                0u32
            })
        }) by (bit_vector);
    }
    (ROOT_TABLE >> shift) & 0x0101u32
}

/// What a curve adds to the winding of a point.
pub open spec fn crossings(y1: u32, y2: u32, y3: u32) -> int {
    (if first_root_counts(y1, y2, y3) {
        1int
    } else {
        0
    }) - (if second_root_counts(y1, y2, y3) {
        1int
    } else {
        0
    })
}

pub open spec fn side(y: u32) -> int {
    if is_negative(y) {
        1
    } else {
        0
    }
}

/// A curve adds to the winding just what its ends say: the side it ends on less
/// the side it starts from, whatever it does in between.
pub proof fn law_crossings_follow_the_ends(y1: u32, y2: u32, y3: u32)
    ensures
        crossings(y1, y2, y3) == side(y3) - side(y1),
{
}

/// A quadratic curve's coordinates across a ray.
pub struct CurveSigns {
    pub y1: u32,
    pub y2: u32,
    pub y3: u32,
}

/// The winding of the first `n` curves.
pub open spec fn winding(curves: Seq<CurveSigns>, n: int) -> int
    decreases n,
{
    if n <= 0 {
        0
    } else {
        winding(curves, n - 1) + crossings(curves[n - 1].y1, curves[n - 1].y2, curves[n - 1].y3)
    }
}

/// The curves of a closed contour cancel out: none is counted twice or missed
/// where two of them meet.
pub proof fn law_closed_contours_cancel(curves: Seq<CurveSigns>)
    requires
        curves.len() > 0,
        forall|i: int| 0 < i < curves.len() ==> (#[trigger] curves[i]).y1 == curves[i - 1].y3,
        curves[0].y1 == curves[curves.len() - 1].y3,
    ensures
        winding(curves, curves.len() as int) == 0,
{
    lemma_winding(curves, curves.len() as int);
}

proof fn lemma_winding(curves: Seq<CurveSigns>, n: int)
    requires
        0 < n <= curves.len(),
        forall|i: int| 0 < i < curves.len() ==> (#[trigger] curves[i]).y1 == curves[i - 1].y3,
    ensures
        winding(curves, n) == side(curves[n - 1].y3) - side(curves[0].y1),
    decreases n,
{
    law_crossings_follow_the_ends(curves[n - 1].y1, curves[n - 1].y2, curves[n - 1].y3);
    reveal_with_fuel(winding, 2);
    if n > 1 {
        lemma_winding(curves, n - 1);
        assert(curves[n - 1].y1 == curves[n - 2].y3);
    }
}

// ---------------------------------------------------------------------------
// Bands

/// The bands of a glyph.
#[derive(Debug, Clone, Copy, PartialEq, Eq, Structural)]
pub struct BandLimits {
    pub vertical: u32,
    pub horizontal: u32,
}

/// Reads the last vertical and the last horizontal band of a glyph.
pub fn band_limits(band_max: u32) -> (limits: BandLimits)
    ensures
        limits.vertical == band_max % 65536,
        limits.horizontal == band_max / 65536,
{
    proof {
        assert(band_max & 0xffff == band_max % 65536 && band_max >> 16 == band_max / 65536)
            by (bit_vector);
    }
    BandLimits { vertical: band_max & 0xffff, horizontal: band_max >> 16 }
}

/// A band: a run of curve indices.
#[derive(Debug, Clone, Copy, PartialEq, Eq, Structural)]
pub struct TextBandHeader {
    pub first: u32,
    pub count: u32,
}

/// What is known of a curve of a band.
#[derive(Debug, Clone, Copy, PartialEq, Eq, Structural)]
pub struct BandCurve {
    /// The curve lies wholly behind the pixel, as do all that follow.
    pub behind: bool,
    pub y1: u32,
    pub y2: u32,
    pub y3: u32,
}

/// A curve whose roots have to be solved.
#[derive(Debug, Clone, Copy, PartialEq, Eq, Structural)]
pub struct Crossing {
    pub curve: u32,
    pub first: bool,
    pub second: bool,
}

/// The curves of the first `n` of a band that cross, up to the first that lies
/// behind.
pub open spec fn band_crossings(indices: Seq<u32>, band: TextBandHeader, curves: Seq<BandCurve>, n: int) -> Seq<Crossing>
    decreases n,
{
    if n <= 0 {
        Seq::empty()
    } else {
        let before = band_crossings(indices, band, curves, n - 1);
        let curve = curves[n - 1];
        if exists|i: int| 0 <= i < n && (#[trigger] curves[i]).behind {
            before
        } else if first_root_counts(curve.y1, curve.y2, curve.y3) || second_root_counts(
            curve.y1,
            curve.y2,
            curve.y3,
        ) {
            before.push(
                Crossing {
                    curve: indices[band.first + n - 1],
                    first: first_root_counts(curve.y1, curve.y2, curve.y3),
                    second: second_root_counts(curve.y1, curve.y2, curve.y3),
                },
            )
        } else {
            before
        }
    }
}

proof fn lemma_nothing_behind(indices: Seq<u32>, band: TextBandHeader, curves: Seq<BandCurve>, at: int, n: int)
    requires
        0 <= at < n <= curves.len(),
        curves[at].behind,
    ensures
        band_crossings(indices, band, curves, n) == band_crossings(indices, band, curves, at),
    decreases n,
{
    assert(exists|i: int| 0 <= i < n && (#[trigger] curves[i]).behind) by {
        assert(curves[at].behind);
    }
    if n > at + 1 {
        lemma_nothing_behind(indices, band, curves, at, n - 1);
    }
}

/// Lists the curves of a band whose roots have to be solved.
pub fn text_band_coverage(indices: &Vec<u32>, band: TextBandHeader, curves: &Vec<BandCurve>) -> (crossings: Vec<Crossing>)
    requires
        band.first + band.count <= indices@.len(),
        curves@.len() == band.count,
    ensures
        crossings@ == band_crossings(indices@, band, curves@, band.count as int),
{
    let mut crossings: Vec<Crossing> = Vec::new();
    let total: usize = indices.len();
    let mut i: u32 = 0;
    while i < band.count
        invariant
            i <= band.count,
            total == indices@.len(),
            band.first + band.count <= total,
            curves@.len() == band.count,
            crossings@ == band_crossings(indices@, band, curves@, i as int),
            forall|p: int| 0 <= p < i ==> !(#[trigger] curves@[p]).behind,
        decreases band.count - i,
    {
        let curve = curves[i as usize];
        assert(curve == curves@[i as int]);
        if curve.behind {
            proof {
                lemma_nothing_behind(indices@, band, curves@, i as int, band.count as int);
            }
            return crossings;
        }
        let code: u32 = text_calc_root_code(curve.y1, curve.y2, curve.y3);
        assert(!(exists|p: int| 0 <= p < i + 1 && (#[trigger] curves@[p]).behind));
        if code != 0 {
            crossings.push(
                Crossing {
                    curve: indices[band.first as usize + i as usize],
                    first: (code & 1) != 0,
                    second: code > 1,
                },
            );
        }
        i = i + 1;
    }
    crossings
}

/// The corner of a glyph's quad: right for odd vertices, upper for the second
/// pair.
#[derive(Debug, Clone, Copy, PartialEq, Eq, Structural)]
pub struct GlyphCorner {
    pub right: bool,
    pub upper: bool,
}

/// Finds the corner of a vertex of a glyph's strip.
pub fn text_corner(vertex: u32) -> (corner: GlyphCorner)
    ensures
        corner.right == (vertex % 2 == 1),
        corner.upper == (vertex / 2 % 2 == 1),
{
    GlyphCorner { right: vertex % 2 == 1, upper: vertex / 2 % 2 == 1 }
}

/// Finds the glyph that an instance of a draw shows; none beyond the draw's
/// glyphs.
pub fn text_vert(glyphs: &Vec<u32>, instance: u32, glyph_count: u32) -> (glyph: Option<u32>)
    requires
        glyph_count <= glyphs@.len(),
    ensures
        glyph == if instance < glyph_count {
            Some(glyphs@[instance as int])
        } else {
            None
        },
{
    if instance >= glyph_count {
        return None;
    }
    Some(glyphs[instance as usize])
}

/// A colour's bytes: red, green, blue and alpha.
#[derive(Debug, Clone, Copy, PartialEq, Eq, Structural)]
pub struct ColorBytes {
    pub red: u32,
    pub green: u32,
    pub blue: u32,
    pub alpha: u32,
}

/// Takes a packed colour apart.
pub fn text_unpack_color(color: u32) -> (bytes: ColorBytes)
    ensures
        bytes.red == color % 256,
        bytes.green == color / 256 % 256,
        bytes.blue == color / 65536 % 256,
        bytes.alpha == color / 16777216,
        bytes.red + 256 * bytes.green + 65536 * bytes.blue + 16777216 * bytes.alpha == color,
{
    ColorBytes {
        red: bits::extract_byte(color, 0),
        green: bits::extract_byte(color, 1),
        blue: bits::extract_byte(color, 2),
        alpha: bits::extract_byte(color, 3),
    }
}

/// A packed colour is taken apart to the bytes that it was made of.
pub proof fn law_colors_are_read_back(red: u8, green: u8, blue: u8, alpha: u8)
    ensures
        ({
            let packed = paint::packed_rgba(red, green, blue, alpha);
            &&& packed % 256 == red
            &&& packed / 256 % 256 == green
            &&& packed / 65536 % 256 == blue
            &&& packed / 16777216 == alpha
        }),
{
}

/// One 65536th: a leading coefficient below it counts as none.
pub const NEARLY_LINEAR: u32 = 0x3780_0000;

/// Whether a curve is solved as a straight line.
pub fn is_nearly_linear(leading: u32) -> (yes: bool)
    ensures
        yes == (float_bits::magnitude(leading) < NEARLY_LINEAR),
{
    if leading < 0x8000_0000 {
        leading < NEARLY_LINEAR
    } else {
        leading - 0x8000_0000 < NEARLY_LINEAR
    }
}

} // verus!

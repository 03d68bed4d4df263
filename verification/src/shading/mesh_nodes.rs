//! Compressed wide nodes of a mesh's bounding-volume hierarchy.
//!
//! A node holds up to eight children in twenty words: an origin, three
//! power-of-two extents and a mask of its inner children, the first child node
//! and the first primitive, one meta byte for each child, and the children's
//! boxes in 256ths of the extents. Which boxes a segment crosses is computed by
//! the caller; which nodes and primitives that leaves to visit is decided here.

use vstd::prelude::*;

use crate::bits;
use crate::float_bits;

verus! {

/// The direction below which a component counts as this large, with its sign.
pub const LEAST_DIRECTION: u32 = 0x0da2_4260;

/// A direction's component, kept away from zero.
pub open spec fn kept_from_zero(component: u32) -> u32 {
    if float_bits::magnitude(component) < LEAST_DIRECTION {
        if component < 0x8000_0000 {
            LEAST_DIRECTION
        } else {
            (LEAST_DIRECTION + 0x8000_0000) as u32
        }
    } else {
        component
    }
}

/// Keeps a direction's component away from zero, with its sign.
pub fn safe_direction(component: u32) -> (safe: u32)
    ensures
        safe == kept_from_zero(component),
{
    if component < 0x8000_0000 {
        if component < LEAST_DIRECTION {
            LEAST_DIRECTION
        } else {
            component
        }
    } else if component - 0x8000_0000 < LEAST_DIRECTION {
        LEAST_DIRECTION + 0x8000_0000
    } else {
        component
    }
}

/// A safe direction is never zero and has the sign that it had.
pub proof fn law_safe_direction_is_not_zero(component: u32)
    ensures
        !float_bits::zero(kept_from_zero(component)),
        kept_from_zero(component) < 0x8000_0000 <==> component < 0x8000_0000,
        kept_from_zero(kept_from_zero(component)) == kept_from_zero(component),
{
}

/// Which components of a direction point backwards.
#[derive(Debug, Clone, Copy, PartialEq, Eq, Structural)]
pub struct Backwards {
    pub x: bool,
    pub y: bool,
    pub z: bool,
}

/// The octant that a direction comes from: one bit for each component that
/// does not point backwards.
pub open spec fn octant(backwards: Backwards) -> u32 {
    ((if backwards.x { 0int } else { 4 }) + (if backwards.y { 0int } else { 2 }) + (if backwards.z {
        0int
    } else {
        1
    })) as u32
}

/// Tells which components of a direction point backwards.
pub fn backwards_of(x: u32, y: u32, z: u32) -> (backwards: Backwards)
    ensures
        backwards == (Backwards {
            x: float_bits::less(x, 0),
            y: float_bits::less(y, 0),
            z: float_bits::less(z, 0),
        }),
{
    Backwards {
        x: float_bits::is_less(x, 0),
        y: float_bits::is_less(y, 0),
        z: float_bits::is_less(z, 0),
    }
}

/// The octant of a direction in each of the four bytes.
pub fn ray_octant_inv4(backwards: Backwards) -> (octants: u32)
    ensures
        octants == octant(backwards) * 0x0101_0101,
        octants % 256 == octant(backwards),
        octant(backwards) < 8,
{
    let x: u32 = if backwards.x {
        0
    } else {
        0x0404_0404
    };
    let y: u32 = if backwards.y {
        0
    } else {
        0x0202_0202
    };
    let z: u32 = if backwards.z {
        0
    } else {
        0x0101_0101
    };
    proof {
        assert((x | y | z) == x + y + z) by (bit_vector)
            requires
                x == 0 || x == 0x0404_0404u32,
                y == 0 || y == 0x0202_0202u32,
                z == 0 || z == 0x0101_0101u32,
        ;
    }
    x | y | z
}

/// A node of the hierarchy.
#[derive(Debug, Clone, Copy)]
pub struct CwbvhNode {
    pub words: [u32; 20],
}

impl CwbvhNode {
    /// The meta byte of a child.
    pub open spec fn meta(self, child: int) -> u32 {
        bits::byte_of(self.words[6 + child / 4], (child % 4) as u32)
    }

    /// The slots that hold inner children, one bit each.
    pub open spec fn inner_slots(self) -> u32 {
        bits::byte_of(self.words[3], 3)
    }

    /// The node of the first inner child.
    pub open spec fn first_child(self) -> u32 {
        self.words[4]
    }

    /// The first of the primitives.
    pub open spec fn first_primitive(self) -> u32 {
        self.words[5]
    }
}

/// Whether a meta byte belongs to an inner child.
pub open spec fn is_inner(meta: u32) -> bool {
    meta & 0x18 == 0x18
}

/// The first bit of a child in the mask of what is left to visit: the slot and
/// the octant for an inner child, the first of its primitives for a leaf.
pub open spec fn first_bit(meta: u32, octant: u32) -> u32 {
    if is_inner(meta) {
        (meta ^ octant) & 0x1f
    } else {
        meta & 0x1f
    }
}

/// The bits of a child in the mask of what is left to visit: one for an inner
/// child, one for each primitive of a leaf.
pub open spec fn child_mask(meta: u32, octant: u32) -> u32 {
    ((meta >> 5) & 7) << first_bit(meta, octant)
}

/// What is left to visit after the first `n` children's boxes were tested: the
/// low 24 bits stand for primitives, the high 8 for nodes.
pub open spec fn hit_mask(node: CwbvhNode, octant: u32, crossed: Seq<bool>, n: int) -> u32
    decreases n,
{
    if n <= 0 {
        0
    } else if crossed[n - 1] {
        hit_mask(node, octant, crossed, n - 1) | child_mask(node.meta(n - 1), octant)
    } else {
        hit_mask(node, octant, crossed, n - 1)
    }
}

/// Four meta bytes are taken apart at once.
proof fn lemma_meta_bytes(meta4: u32, octant: u32, octants: u32, child: u32)
    requires
        octant < 8,
        octants == octant * 0x0101_0101,
        child < 4,
    ensures
        ({
            let inner = (((meta4 & (meta4 << 1)) & 0x1010_1010) >> 4);
            let inner_mask = (inner * 0xff) as u32;
            let index4 = (meta4 ^ (octants & inner_mask)) & 0x1f1f_1f1f;
            let bits4 = (meta4 >> 5) & 0x0707_0707;
            let meta = bits::byte_of(meta4, child);
            &&& inner * 0xff <= u32::MAX
            &&& bits::byte_of(index4, child) == first_bit(meta, octant)
            &&& bits::byte_of(index4, child) < 32
            &&& bits::byte_of(bits4, child) == (meta >> 5) & 7
        }),
{
    assert({
        let inner = (((meta4 & (meta4 << 1)) & 0x1010_1010) >> 4);
        inner * 0xff <= 0xffff_ffffu32
    }) by (bit_vector);
    assert({
        let inner = (((meta4 & (meta4 << 1)) & 0x1010_1010) >> 4);
        let inner_mask = (inner * 0xff) as u32;
        let index4 = (meta4 ^ (octants & inner_mask)) & 0x1f1f_1f1f;
        let bits4 = (meta4 >> 5) & 0x0707_0707;
        let meta = bits::byte_of(meta4, child);
        &&& bits::byte_of(index4, child) == first_bit(meta, octant)
        &&& bits::byte_of(index4, child) < 32
        &&& bits::byte_of(bits4, child) == (meta >> 5) & 7
    }) by (bit_vector)
        requires
            octant < 8,
            octants == octant * 0x0101_0101,
            child < 4,
    ;
}

/// Collects what a segment leaves to visit in a node, given which of the
/// children's boxes it crosses.
pub fn node_intersect(node: &CwbvhNode, octants: u32, crossed: &[bool; 8]) -> (mask: u32)
    requires
        octants % 256 < 8,
        octants == (octants % 256) * 0x0101_0101,
    ensures
        mask == hit_mask(*node, octants % 256, crossed@, 8),
{
    let ghost octant: u32 = octants % 256;
    let mut mask: u32 = 0;
    let mut half: usize = 0;
    while half < 2
        invariant
            half <= 2,
            octant < 8,
            octants == octant * 0x0101_0101,
            mask == hit_mask(*node, octant, crossed@, 4 * half),
        decreases 2 - half,
    {
        let meta4: u32 = node.words[6 + half];
        let inner4: u32 = (meta4 & (meta4 << 1)) & 0x1010_1010;
        proof {
            lemma_meta_bytes(meta4, octant, octants, 0);
        }
        let inner_mask4: u32 = (inner4 >> 4) * 0xff;
        let index4: u32 = (meta4 ^ (octants & inner_mask4)) & 0x1f1f_1f1f;
        let bits4: u32 = (meta4 >> 5) & 0x0707_0707;
        let mut child: u32 = 0;
        while child < 4
            invariant
                child <= 4,
                half < 2,
                octant < 8,
                octants == octant * 0x0101_0101,
                meta4 == node.words[6 + half],
                inner_mask4 == (((meta4 & (meta4 << 1)) & 0x1010_1010) >> 4) * 0xff,
                index4 == (meta4 ^ (octants & inner_mask4)) & 0x1f1f_1f1f,
                bits4 == (meta4 >> 5) & 0x0707_0707,
                mask == hit_mask(*node, octant, crossed@, 4 * half + child),
            decreases 4 - child,
        {
            if crossed[4 * half + child as usize] {
                proof {
                    lemma_meta_bytes(meta4, octant, octants, child);
                    assert(node.meta(4 * half + child) == bits::byte_of(meta4, child));
                }
                let child_bits: u32 = bits::extract_byte(bits4, child);
                let bit_index: u32 = bits::extract_byte(index4, child);
                mask = mask | (child_bits << bit_index);
            }
            child = child + 1;
        }
        half = half + 1;
    }
    mask
}

/// A child's box in 256ths of the node's extents, the near side first as the
/// direction goes.
#[derive(Debug, Clone, Copy, PartialEq, Eq, Structural)]
pub struct ChildSlab {
    pub near_x: u32,
    pub near_y: u32,
    pub near_z: u32,
    pub far_x: u32,
    pub far_y: u32,
    pub far_z: u32,
}

/// The lower (or, in the second pair of words, the upper) bound of a child.
pub open spec fn bound(node: CwbvhNode, first_word: int, child: int) -> u32 {
    bits::byte_of(node.words[first_word + child / 4], (child % 4) as u32)
}

fn child_bound(node: &CwbvhNode, first_word: usize, child: u32) -> (value: u32)
    requires
        child < 8,
        first_word <= 18,
    ensures
        value == bound(*node, first_word as int, child as int),
{
    bits::extract_byte(node.words[first_word + (child / 4) as usize], child % 4)
}

/// Reads a child's box.
pub fn child_slab(node: &CwbvhNode, backwards: Backwards, child: u32) -> (slab: ChildSlab)
    requires
        child < 8,
    ensures
        slab.near_x == bound(*node, if backwards.x { 10 } else { 8 }, child as int),
        slab.far_x == bound(*node, if backwards.x { 8 } else { 10 }, child as int),
        slab.near_y == bound(*node, if backwards.y { 14 } else { 12 }, child as int),
        slab.far_y == bound(*node, if backwards.y { 12 } else { 14 }, child as int),
        slab.near_z == bound(*node, if backwards.z { 18 } else { 16 }, child as int),
        slab.far_z == bound(*node, if backwards.z { 16 } else { 18 }, child as int),
{
    let low_x: u32 = child_bound(node, 8, child);
    let high_x: u32 = child_bound(node, 10, child);
    let low_y: u32 = child_bound(node, 12, child);
    let high_y: u32 = child_bound(node, 14, child);
    let low_z: u32 = child_bound(node, 16, child);
    let high_z: u32 = child_bound(node, 18, child);
    ChildSlab {
        near_x: if backwards.x { high_x } else { low_x },
        near_y: if backwards.y { high_y } else { low_y },
        near_z: if backwards.z { high_z } else { low_z },
        far_x: if backwards.x { low_x } else { high_x },
        far_y: if backwards.y { low_y } else { high_y },
        far_z: if backwards.z { low_z } else { high_z },
    }
}

/// The bit pattern of a node's extent along an axis: a power of two whose
/// exponent the node holds.
pub fn extent_bits(node: &CwbvhNode, axis: u32) -> (extent: u32)
    requires
        axis < 3,
    ensures
        extent == bits::byte_of(node.words[3], axis) * 0x80_0000,
{
    let exponent: u32 = bits::extract_byte(node.words[3], axis);
    proof {
        assert(exponent << 23 == exponent * 0x80_0000) by (bit_vector)
            requires
                exponent < 256,
        ;
    }
    exponent << 23
}

/// The bit of an inner child leads back to its slot.
pub proof fn law_inner_child_keeps_its_slot(slot: u32, octant: u32)
    requires
        slot < 8,
        octant < 8,
    ensures
        is_inner((0x38 + slot) as u32),
        ({
            let offset = first_bit((0x38 + slot) as u32, octant);
            &&& 24 <= offset < 32
            &&& child_mask((0x38 + slot) as u32, octant) == 1u32 << offset
            &&& ((offset - 24) as u32) ^ octant == slot
        }),
{
    assert({
        let meta = (0x38 + slot) as u32;
        let offset = (meta ^ octant) & 0x1f;
        &&& meta & 0x18 == 0x18
        &&& 24 <= offset < 32
        &&& ((meta >> 5) & 7) == 1
        &&& ((offset - 24) as u32) ^ octant == slot
    }) by (bit_vector)
        requires
            slot < 8,
            octant < 8,
    ;
}

} // verus!

//! Vertex pulling: which corner of which quad a vertex belongs to.

use vstd::prelude::*;

verus! {

/// The corner of each vertex of a quad's two triangles.
pub open spec fn corner_of(k: u32) -> u32 {
    if k == 0 || k == 3 {
        0
    } else if k == 1 {
        3
    } else if k == 2 || k == 4 {
        2
    } else {
        1
    }
}

/// Finds the corner of a vertex: the top left, the bottom left and the bottom
/// right, then the top left, the bottom right and the top right.
pub fn ui_corner(k: u32) -> (corner: u32)
    ensures
        corner == corner_of(k),
        corner < 4,
{
    match k {
        0 | 3 => 0,
        1 => 3,
        2 | 4 => 2,
        _ => 1,
    }
}

/// Finds the stored vertex that a drawn vertex is pulled from; none beyond the
/// last quad.
pub fn ui_vert(vertex: u32, quad_count: u32) -> (stored: Option<u32>)
    ensures
        stored is Some <==> vertex as int / 6 < quad_count,
        stored matches Some(at) ==> at == 4 * (vertex as int / 6) + corner_of(vertex % 6) && at < 4
            * quad_count,
{
    let quad: u32 = vertex / 6;
    if quad >= quad_count {
        return None;
    }
    Some(quad * 4 + ui_corner(vertex % 6))
}

/// The two triangles of a quad use each corner, share the diagonal from the top
/// left to the bottom right, and turn the same way round.
pub proof fn law_triangles_share_a_diagonal(corner: u32)
    requires
        corner < 4,
    ensures
        corner_of(0) == corner_of(3),
        corner_of(2) == corner_of(4),
        corner == corner_of(0) || corner == corner_of(1) || corner == corner_of(2) || corner
            == corner_of(5),
        (corner_of(1) + 1) % 4 == corner_of(0),
        (corner_of(2) + 1) % 4 == corner_of(1),
        (corner_of(5) + 1) % 4 == corner_of(4),
        (corner_of(3) + 1) % 4 == corner_of(5),
{
}

/// Every corner of every quad is drawn by some vertex.
pub proof fn law_every_corner_is_drawn(quad: int, corner: u32, quad_count: int)
    requires
        0 <= quad < quad_count,
        corner < 4,
    ensures
        exists|k: u32|
            #![trigger corner_of(k)]
            k < 6 && (6 * quad + k) / 6 == quad && (6 * quad + k) % 6 == k && corner_of(k)
                == corner,
{
    if corner == 0 {
        assert(corner_of(0) == 0);
    } else if corner == 1 {
        assert(corner_of(5) == 1);
    } else if corner == 2 {
        assert(corner_of(2) == 2);
    } else {
        assert(corner_of(1) == 3);
    }
}

/// A vertex of the triangle that covers the screen, as texture coordinates.
#[derive(Debug, Clone, Copy, PartialEq, Eq, Structural)]
pub struct ScreenVertex {
    pub u: u32,
    pub v: u32,
}

/// Finds a vertex of the triangle that covers the screen: twice the screen's
/// width and height are enough for one triangle.
pub fn fullscreen_vert(vertex: u32) -> (place: ScreenVertex)
    requires
        vertex < 3,
    ensures
        place == (ScreenVertex {
            u: if vertex == 2 { 2 } else { 0 },
            v: if vertex == 1 { 2 } else { 0 },
        }),
{
    let u: u32 = if vertex / 2 % 2 == 1 {
        2
    } else {
        0
    };
    let v: u32 = if vertex % 2 == 1 {
        2
    } else {
        0
    };
    ScreenVertex { u, v }
}

} // verus!

//! Gizmos: which instance a vertex belongs to, and how its shape is drawn.

use vstd::prelude::*;

use crate::float_bits;

verus! {

/// The vertices that each instance is drawn with: those of a cube.
pub const GIZMO_VERTS_PER_INSTANCE: u32 = 36;

/// The instance shows through what lies in front of it.
pub const GIZMO_FLAG_XRAY: u32 = 1;

/// The width of a stroke that has none of its own, in pixels.
pub const DEFAULT_STROKE: u32 = 0x3fc0_0000;

/// A gizmo's shape.
#[derive(Debug, Clone, Copy, PartialEq, Eq, Structural)]
pub enum GizmoShape {
    BoxEdges,
    LatticeCell,
    Ring,
    Disc,
    Arrow,
    Patch,
    Handle,
}

/// A gizmo.
#[derive(Debug, Clone, Copy, PartialEq, Eq, Structural)]
pub struct GizmoInstance {
    pub flags: u32,
    pub shape: GizmoShape,
}

/// What a vertex of a gizmo is placed on.
#[derive(Debug, Clone, Copy, PartialEq, Eq, Structural)]
pub enum GizmoVertex {
    /// A vertex of the cube.
    Cube(u32),
    /// A corner of a quad.
    Corner(u32),
    /// The middle of the quad: the vertex draws nothing.
    Collapsed,
}

/// The place of a vertex of a shape.
pub open spec fn vertex_of(shape: GizmoShape, k: u32) -> GizmoVertex {
    if shape == GizmoShape::BoxEdges || shape == GizmoShape::LatticeCell {
        GizmoVertex::Cube(k)
    } else if k < 6 {
        GizmoVertex::Corner(k)
    } else {
        GizmoVertex::Collapsed
    }
}

/// Whether an instance belongs to a pass.
pub open spec fn in_pass(instance: GizmoInstance, xray_pass: bool) -> bool {
    (instance.flags & GIZMO_FLAG_XRAY != 0) == xray_pass
}

/// Finds the instance of a vertex and its place on it. Vertices beyond the last
/// instance, or of another pass, have none.
pub fn gizmo_vert(instances: &Vec<GizmoInstance>, vertex: u32, xray_pass: bool) -> (place: Option<(u32, GizmoVertex)>)
    ensures
        ({
            let index = vertex as int / 36;
            place == if index < instances@.len() && in_pass(instances@[index], xray_pass) {
                Some((index as u32, vertex_of(instances@[index].shape, vertex % 36)))
            } else {
                None
            }
        }),
{
    let index: u32 = vertex / GIZMO_VERTS_PER_INSTANCE;
    let k: u32 = vertex % GIZMO_VERTS_PER_INSTANCE;
    if index as usize >= instances.len() {
        return None;
    }
    let instance = instances[index as usize];
    let xray = instance.flags & GIZMO_FLAG_XRAY != 0;
    if xray != xray_pass {
        return None;
    }
    let place = if instance.shape == GizmoShape::BoxEdges || instance.shape
        == GizmoShape::LatticeCell {
        GizmoVertex::Cube(k)
    } else if k < 6 {
        GizmoVertex::Corner(k)
    } else {
        GizmoVertex::Collapsed
    };
    Some((index, place))
}

/// Each instance is drawn in just one of the two passes.
pub proof fn law_passes_share_the_instances(instance: GizmoInstance)
    ensures
        in_pass(instance, true) != in_pass(instance, false),
{
}

/// How a gizmo covers a pixel.
#[derive(Debug, Clone, Copy, PartialEq, Eq, Structural)]
pub enum GizmoCoverage {
    /// Strokes along the edges of a box, with a grid on its faces or not.
    Edges { grid: bool, width: u32 },
    /// A filled disc.
    Disc,
    /// The stroke of a circle.
    Ring { width: u32 },
    /// A filled patch.
    Patch,
    /// A filled arrow; parts without a size of their own are sized by its
    /// length.
    Arrow { own_head_length: bool, own_head_half: bool, own_shaft_half: bool },
    /// A filled square with rounded corners.
    Handle,
}

/// A size of one's own, or the default.
pub open spec fn own_or(size: u32, default: u32) -> u32 {
    if float_bits::less(0, size) {
        size
    } else {
        default
    }
}

fn own_or_default(size: u32, default: u32) -> (chosen: u32)
    ensures
        chosen == own_or(size, default),
{
    if float_bits::is_less(0, size) {
        size
    } else {
        default
    }
}

/// Chooses how a gizmo covers a pixel from its shape and parameters.
pub fn gizmo_frag(shape: GizmoShape, x: u32, y: u32, z: u32) -> (coverage: GizmoCoverage)
    ensures
        coverage == match shape {
            GizmoShape::BoxEdges => GizmoCoverage::Edges {
                grid: false,
                width: own_or(x, DEFAULT_STROKE),
            },
            GizmoShape::LatticeCell => GizmoCoverage::Edges {
                grid: true,
                width: own_or(x, DEFAULT_STROKE),
            },
            GizmoShape::Disc => GizmoCoverage::Disc,
            GizmoShape::Ring => GizmoCoverage::Ring { width: own_or(y, DEFAULT_STROKE) },
            GizmoShape::Patch => GizmoCoverage::Patch,
            GizmoShape::Arrow => GizmoCoverage::Arrow {
                own_head_length: float_bits::less(0, z),
                own_head_half: float_bits::less(0, y),
                own_shaft_half: float_bits::less(0, x),
            },
            GizmoShape::Handle => GizmoCoverage::Handle,
        },
{
    match shape {
        GizmoShape::BoxEdges => GizmoCoverage::Edges {
            grid: false,
            width: own_or_default(x, DEFAULT_STROKE),
        },
        GizmoShape::LatticeCell => GizmoCoverage::Edges {
            grid: true,
            width: own_or_default(x, DEFAULT_STROKE),
        },
        GizmoShape::Disc => GizmoCoverage::Disc,
        GizmoShape::Ring => GizmoCoverage::Ring { width: own_or_default(y, DEFAULT_STROKE) },
        GizmoShape::Patch => GizmoCoverage::Patch,
        GizmoShape::Arrow => GizmoCoverage::Arrow {
            own_head_length: float_bits::is_less(0, z),
            own_head_half: float_bits::is_less(0, y),
            own_shaft_half: float_bits::is_less(0, x),
        },
        GizmoShape::Handle => GizmoCoverage::Handle,
    }
}

/// Whether a pixel is drawn at all.
pub fn is_covered(coverage: u32) -> (yes: bool)
    ensures
        yes == !float_bits::at_most(coverage, 0),
{
    !float_bits::is_at_most(coverage, 0)
}

} // verus!

//! Linework: ink along the edges between tokens.
//!
//! A pixel compares its token with those of its four neighbours. Only where one
//! differs are triangles looked up, and the outcome of the tests on them is
//! what a pixel's ink is chosen from.

use vstd::prelude::*;

use crate::float_bits;
use crate::shading::clusters;
use crate::shading::clusters::{
    Cluster, MeshBatch, MeshInstance, Meshlet, CLUSTER_TOKEN_MASK, MESH_FLAG_NO_LINEWORK,
};

verus! {

/// A pixel.
#[derive(Debug, Clone, Copy, PartialEq, Eq, Structural)]
pub struct Pixel {
    pub x: u32,
    pub y: u32,
}

/// The neighbours of a pixel: left, right, above and below.
pub struct Taps {
    pub left: Pixel,
    pub right: Pixel,
    pub up: Pixel,
    pub down: Pixel,
}

/// Finds the neighbours of a pixel; those beyond the edge fall back on it.
pub fn neighbours(at: Pixel, width: u32, height: u32) -> (taps: Taps)
    requires
        at.x < width,
        at.y < height,
    ensures
        taps.left == (Pixel { x: (if at.x > 0 { at.x - 1 } else { 0 }) as u32, y: at.y }),
        taps.right == (Pixel {
            x: (if at.x < width - 1 { at.x + 1 } else { width - 1 }) as u32,
            y: at.y,
        }),
        taps.up == (Pixel { x: at.x, y: (if at.y > 0 { at.y - 1 } else { 0 }) as u32 }),
        taps.down == (Pixel {
            x: at.x,
            y: (if at.y < height - 1 { at.y + 1 } else { height - 1 }) as u32,
        }),
        taps.left.x < width,
        taps.right.x < width,
        taps.up.y < height,
        taps.down.y < height,
{
    let max_x: u32 = width - 1;
    let max_y: u32 = height - 1;
    let left: u32 = if at.x > 0 {
        at.x - 1
    } else {
        0
    };
    let right: u32 = if at.x < max_x {
        at.x + 1
    } else {
        max_x
    };
    let up: u32 = if at.y > 0 {
        at.y - 1
    } else {
        0
    };
    let down: u32 = if at.y < max_y {
        at.y + 1
    } else {
        max_y
    };
    Taps {
        left: Pixel { x: left, y: at.y },
        right: Pixel { x: right, y: at.y },
        up: Pixel { x: at.x, y: up },
        down: Pixel { x: at.x, y: down },
    }
}

/// Whether a pixel can have ink: it shows a mesh, and a neighbour shows
/// something else.
pub open spec fn is_edge(center: u32, taps: Seq<u32>) -> bool {
    center != 0 && exists|i: int| 0 <= i < taps.len() && #[trigger] taps[i] != center
}

/// Tells whether a pixel can have ink.
pub fn touches_edge(center: u32, taps: &[u32; 4]) -> (yes: bool)
    ensures
        yes == is_edge(center, taps@),
{
    if center == 0 {
        return false;
    }
    let all = taps[0] == center && taps[1] == center && taps[2] == center && taps[3] == center;
    assert(!all ==> taps@[0] != center || taps@[1] != center || taps@[2] != center || taps@[3]
        != center);
    !all
}

/// What tokens are resolved through.
pub struct MeshFrame {
    pub clusters: Vec<Cluster>,
    pub meshlets: Vec<Meshlet>,
    pub instances: Vec<MeshInstance>,
    pub batches: Vec<MeshBatch>,
    pub index_data: Vec<u32>,
}

impl MeshFrame {
    /// Everything that is named is there.
    pub open spec fn valid(self) -> bool {
        &&& forall|c: int|
            0 <= c < self.clusters@.len() ==> (#[trigger] self.clusters@[c]).meshlet_index
                < self.meshlets@.len() && self.clusters@[c].instance_id < self.instances@.len()
        &&& forall|i: int|
            0 <= i < self.instances@.len() ==> (#[trigger] self.instances@[i]).batch_index
                < self.batches@.len()
        &&& forall|m: int|
            0 <= m < self.meshlets@.len() ==> (#[trigger] self.meshlets@[m]).first_index + 3
                * self.meshlets@[m].tri_count <= self.index_data@.len()
        &&& self.index_data@.len() <= u32::MAX
    }

    pub open spec fn cluster_of(self, token: u32) -> Cluster {
        self.clusters@[(token & CLUSTER_TOKEN_MASK) - 1]
    }

    pub open spec fn meshlet_of(self, token: u32) -> Meshlet {
        self.meshlets@[self.cluster_of(token).meshlet_index as int]
    }

    pub open spec fn instance_of(self, token: u32) -> MeshInstance {
        self.instances@[self.cluster_of(token).instance_id as int]
    }

    /// Where a corner of a token's triangle stands in the index data.
    pub open spec fn corner_at(self, token: u32, corner: int) -> int {
        self.meshlet_of(token).first_index + 3 * (token >> 25) + corner
    }

    /// The mesh vertex that a vertex of a cluster is taken from; none where it
    /// only pads the cluster.
    pub open spec fn drawn_vertex(self, cluster_index: int, vertex: int) -> Option<u32> {
        let meshlet = self.meshlets@[self.clusters@[cluster_index].meshlet_index as int];
        if vertex >= 3 * meshlet.tri_count {
            None
        } else {
            Some(self.index_data@[meshlet.first_index + vertex])
        }
    }
}

/// Finds the mesh vertex that a vertex of a cluster is taken from.
pub fn mesh_vert(frame: &MeshFrame, cluster_index: u32, vertex: u32) -> (drawn: Option<u32>)
    requires
        frame.valid(),
        cluster_index < frame.clusters@.len(),
    ensures
        drawn == frame.drawn_vertex(cluster_index as int, vertex as int),
{
    let cluster = frame.clusters[cluster_index as usize];
    let meshlet = frame.meshlets[cluster.meshlet_index as usize];
    if clusters::is_padding(vertex, &meshlet) {
        return None;
    }
    Some(frame.index_data[meshlet.first_index as usize + vertex as usize])
}

/// A vertex of a pass that draws clusters a further time.
#[derive(Debug, Clone, Copy, PartialEq, Eq, Structural)]
pub struct PassVertex {
    /// The mesh vertex that it is taken from; none where it only pads.
    pub drawn: Option<u32>,
    /// What the pass writes, zero where the vertex only pads.
    pub tag: u32,
}

impl PassVertex {
    /// A vertex that carries a tag unless it only pads.
    pub open spec fn tagged(drawn: Option<u32>, tag: u32) -> PassVertex {
        PassVertex {
            drawn,
            tag: if drawn is Some {
                tag
            } else {
                0
            },
        }
    }
}

impl MeshFrame {
    /// A vertex of the depth prepass: it carries its cluster.
    pub open spec fn prepass_vertex(self, cluster_index: u32, vertex: int) -> PassVertex {
        PassVertex::tagged(self.drawn_vertex(cluster_index as int, vertex), cluster_index)
    }

    /// A vertex of the silhouettes: it carries its instance's outline group.
    pub open spec fn silhouette_vertex(self, cluster_index: u32, vertex: int) -> PassVertex {
        let cluster = self.clusters@[cluster_index as int];
        PassVertex::tagged(
            self.drawn_vertex(cluster_index as int, vertex),
            self.instances@[cluster.instance_id as int].outline_group,
        )
    }
}

/// Finds what the depth prepass draws a vertex of a cluster with.
pub fn mesh_prepass_vert(frame: &MeshFrame, cluster_index: u32, vertex: u32) -> (out: PassVertex)
    requires
        frame.valid(),
        cluster_index < frame.clusters@.len(),
    ensures
        out == frame.prepass_vertex(cluster_index, vertex as int),
{
    let drawn = mesh_vert(frame, cluster_index, vertex);
    let tag: u32 = match drawn {
        Some(_) => cluster_index,
        None => 0,
    };
    PassVertex { drawn, tag }
}

/// Finds what the silhouettes are drawn with at a vertex of a cluster.
pub fn mesh_silhouette_vert(frame: &MeshFrame, cluster_index: u32, vertex: u32) -> (out: PassVertex)
    requires
        frame.valid(),
        cluster_index < frame.clusters@.len(),
    ensures
        out == frame.silhouette_vertex(cluster_index, vertex as int),
{
    let drawn = mesh_vert(frame, cluster_index, vertex);
    let cluster = frame.clusters[cluster_index as usize];
    let tag: u32 = match drawn {
        Some(_) => frame.instances[cluster.instance_id as usize].outline_group,
        None => 0,
    };
    PassVertex { drawn, tag }
}

/// The prepass, the silhouettes and the shaded meshes take each vertex from the
/// same place, so that their depths can be compared for equality.
pub proof fn law_passes_place_vertices_alike(frame: MeshFrame, cluster_index: u32, vertex: int)
    ensures
        frame.prepass_vertex(cluster_index, vertex).drawn == frame.drawn_vertex(
            cluster_index as int,
            vertex,
        ),
        frame.silhouette_vertex(cluster_index, vertex).drawn == frame.drawn_vertex(
            cluster_index as int,
            vertex,
        ),
{
}

/// A triangle that a token stands for.
#[derive(Debug, Clone, Copy, PartialEq, Eq, Structural)]
pub struct LineworkTriangle {
    pub instance_id: u32,
    pub mesh_index: u32,
    pub a: u32,
    pub b: u32,
    pub c: u32,
}

/// Resolves a token to its instance's flags and its triangle. There is no
/// triangle where the meshlet has none of that number or the instance draws no
/// linework.
pub fn linework_resolve(frame: &MeshFrame, token: u32) -> (resolved: (u32, Option<LineworkTriangle>))
    requires
        frame.valid(),
        token & CLUSTER_TOKEN_MASK != 0,
        (token & CLUSTER_TOKEN_MASK) <= frame.clusters@.len(),
    ensures
        resolved.0 == frame.instance_of(token).flags,
        resolved.1 is Some <==> token >> 25 < frame.meshlet_of(token).tri_count
            && frame.instance_of(token).flags & MESH_FLAG_NO_LINEWORK == 0,
        resolved.1 matches Some(t) ==> {
            &&& t.instance_id == frame.cluster_of(token).instance_id
            &&& t.mesh_index == frame.batches@[frame.instance_of(token).batch_index as int].mesh_index
            &&& t.a == frame.index_data@[frame.corner_at(token, 0)]
            &&& t.b == frame.index_data@[frame.corner_at(token, 1)]
            &&& t.c == frame.index_data@[frame.corner_at(token, 2)]
        },
{
    let place = clusters::token_place(token);
    let cluster = frame.clusters[place.cluster_index as usize];
    let meshlet = frame.meshlets[cluster.meshlet_index as usize];
    let instance = frame.instances[cluster.instance_id as usize];
    if place.primitive >= meshlet.tri_count || instance.flags & MESH_FLAG_NO_LINEWORK != 0 {
        return (instance.flags, None);
    }
    let batch = frame.batches[instance.batch_index as usize];
    let first: usize = meshlet.first_index as usize + place.primitive as usize * 3;
    (
        instance.flags,
        Some(
            LineworkTriangle {
                instance_id: cluster.instance_id,
                mesh_index: batch.mesh_index,
                a: frame.index_data[first],
                b: frame.index_data[first + 1],
                c: frame.index_data[first + 2],
            },
        ),
    )
}

/// The triangle that linework finds for a pixel is the one that was drawn there:
/// a token leads to the cluster it was made for and to the vertices of its
/// primitive.
pub proof fn law_linework_sees_what_was_drawn(frame: MeshFrame, primitive: u32, cluster_index: u32)
    requires
        primitive <= 0x7f,
        cluster_index < CLUSTER_TOKEN_MASK,
        cluster_index < frame.clusters@.len(),
        primitive < frame.meshlets@[frame.clusters@[cluster_index as int].meshlet_index as int].tri_count,
    ensures
        ({
            let token = clusters::token_of(primitive, cluster_index);
            &&& token & CLUSTER_TOKEN_MASK != 0
            &&& frame.cluster_of(token) == frame.clusters@[cluster_index as int]
            &&& token >> 25 < frame.meshlet_of(token).tri_count
            &&& forall|corner: int|
                0 <= corner < 3 ==> frame.drawn_vertex(
                    cluster_index as int,
                    3 * primitive + corner,
                ) == Some(frame.index_data@[#[trigger] frame.corner_at(token, corner)])
        }),
{
    clusters::law_token_is_read_back(primitive, cluster_index);
}

/// The area below which a triangle has no normal, as a bit pattern.
pub const DEGENERATE_AREA: u32 = 0x2b8c_bccc;

/// What a pixel shows, and what its own tests gave.
#[derive(Debug, Clone, Copy, PartialEq, Eq, Structural)]
pub struct LineworkPixel {
    pub token: u32,
    /// Its instance's flags.
    pub flags: u32,
    /// The squared length of its triangle's normal; zero where there is no
    /// triangle.
    pub area_squared: u32,
    /// How far the pixel's depth lies from the triangle's plane.
    pub plane_distance: u32,
    pub depth: u32,
}

/// Whether the triangle of a pixel can be trusted: its instance draws linework,
/// it has an area, and the pixel's depth lies on its plane.
pub open spec fn is_trusted(center: LineworkPixel, plane_epsilon: u32) -> bool {
    &&& center.flags & MESH_FLAG_NO_LINEWORK == 0
    &&& !float_bits::at_most(center.area_squared, DEGENERATE_AREA)
    &&& !float_bits::less(plane_epsilon, center.plane_distance)
}

/// Tells whether the triangle of a pixel can be trusted.
pub fn center_holds(center: LineworkPixel, plane_epsilon: u32) -> (yes: bool)
    ensures
        yes == is_trusted(center, plane_epsilon),
{
    center.flags & MESH_FLAG_NO_LINEWORK == 0 && !float_bits::is_at_most(
        center.area_squared,
        DEGENERATE_AREA,
    ) && !float_bits::is_less(plane_epsilon, center.plane_distance)
}

/// What a neighbour's tests gave.
#[derive(Debug, Clone, Copy, PartialEq, Eq, Structural)]
pub struct Neighbour {
    pub token: u32,
    /// Its instance's flags.
    pub flags: u32,
    /// The squared length of its triangle's normal.
    pub area_squared: u32,
    /// The ink of the crease between the two triangles.
    pub crease: u32,
    /// The ink of the step from one plane to the other.
    pub step: u32,
    pub depth: u32,
}

/// The ink after one neighbour. One that shows the same adds nothing, the void
/// adds a full step, and a mesh adds its crease, and its step where it lies
/// behind.
pub open spec fn inked(edge: u32, center: u32, depth: u32, step_strength: u32, n: Neighbour) -> u32 {
    if n.token == center {
        edge
    } else if n.token == 0 {
        float_bits::larger(edge, step_strength)
    } else if n.flags & MESH_FLAG_NO_LINEWORK == 0 && float_bits::less(
        DEGENERATE_AREA,
        n.area_squared,
    ) {
        let creased = float_bits::larger(edge, n.crease);
        if float_bits::less(n.depth, depth) {
            float_bits::larger(creased, n.step)
        } else {
            creased
        }
    } else {
        edge
    }
}

/// The ink of the first `n` neighbours.
pub open spec fn ink(
    center: u32,
    depth: u32,
    step_strength: u32,
    neighbours: Seq<Neighbour>,
    n: int,
) -> u32
    decreases n,
{
    if n <= 0 {
        0
    } else {
        inked(
            ink(center, depth, step_strength, neighbours, n - 1),
            center,
            depth,
            step_strength,
            neighbours[n - 1],
        )
    }
}

/// The tokens that neighbours show.
pub open spec fn tokens(neighbours: Seq<Neighbour>) -> Seq<u32> {
    neighbours.map_values(|n: Neighbour| n.token)
}

/// A pixel's ink: none unless it shows a mesh beside something else and its
/// triangle can be trusted.
pub open spec fn pixel_ink(
    center: LineworkPixel,
    plane_epsilon: u32,
    step_strength: u32,
    neighbours: Seq<Neighbour>,
) -> u32 {
    if is_edge(center.token, tokens(neighbours)) && is_trusted(center, plane_epsilon) {
        ink(center.token, center.depth, step_strength, neighbours, neighbours.len() as int)
    } else {
        0
    }
}

/// Chooses a pixel's ink from its own tests and from its neighbours.
pub fn mesh_linework_frag(
    center: LineworkPixel,
    plane_epsilon: u32,
    step_strength: u32,
    neighbours: &[Neighbour; 4],
) -> (edge: u32)
    ensures
        edge == pixel_ink(center, plane_epsilon, step_strength, neighbours@),
{
    let taps: [u32; 4] = [
        neighbours[0].token,
        neighbours[1].token,
        neighbours[2].token,
        neighbours[3].token,
    ];
    assert(taps@ =~= tokens(neighbours@));
    if !touches_edge(center.token, &taps) || !center_holds(center, plane_epsilon) {
        return 0;
    }
    let mut edge: u32 = 0;
    let mut tap: usize = 0;
    while tap < 4
        invariant
            tap <= 4,
            edge == ink(center.token, center.depth, step_strength, neighbours@, tap as int),
        decreases 4 - tap,
    {
        let n = neighbours[tap];
        if n.token != center.token {
            if n.token == 0 {
                edge = float_bits::larger_of(edge, step_strength);
            } else if n.flags & MESH_FLAG_NO_LINEWORK == 0 && float_bits::is_less(
                DEGENERATE_AREA,
                n.area_squared,
            ) {
                edge = float_bits::larger_of(edge, n.crease);
                if float_bits::is_less(n.depth, center.depth) {
                    edge = float_bits::larger_of(edge, n.step);
                }
            }
        }
        tap = tap + 1;
    }
    edge
}

/// A pixel whose neighbours all show the same, or that shows none, has no ink.
pub proof fn law_interiors_have_no_ink(
    center: LineworkPixel,
    plane_epsilon: u32,
    step_strength: u32,
    neighbours: Seq<Neighbour>,
)
    requires
        center.token == 0 || forall|i: int|
            0 <= i < neighbours.len() ==> (#[trigger] neighbours[i]).token == center.token,
    ensures
        pixel_ink(center, plane_epsilon, step_strength, neighbours) == 0,
{
    if is_edge(center.token, tokens(neighbours)) {
        let i = choose|i: int|
            0 <= i < tokens(neighbours).len() && #[trigger] tokens(neighbours)[i] != center.token;
        assert(neighbours[i].token != center.token);
    }
}

/// An instance that draws no linework has no ink, whatever lies beside it.
pub proof fn law_excluded_instances_have_no_ink(
    center: LineworkPixel,
    plane_epsilon: u32,
    step_strength: u32,
    neighbours: Seq<Neighbour>,
)
    requires
        center.flags & MESH_FLAG_NO_LINEWORK != 0,
    ensures
        pixel_ink(center, plane_epsilon, step_strength, neighbours) == 0,
{
}

proof fn lemma_excluded_neighbours(
    center: u32,
    depth: u32,
    step_strength: u32,
    neighbours: Seq<Neighbour>,
    n: int,
)
    requires
        0 <= n <= neighbours.len(),
        forall|i: int|
            0 <= i < n ==> (#[trigger] neighbours[i]).token == center || (neighbours[i].token != 0
                && neighbours[i].flags & MESH_FLAG_NO_LINEWORK != 0),
    ensures
        ink(center, depth, step_strength, neighbours, n) == 0,
    decreases n,
{
    if n > 0 {
        lemma_excluded_neighbours(center, depth, step_strength, neighbours, n - 1);
    }
}

/// Neighbours that draw no linework leave no halo.
pub proof fn law_excluded_neighbours_leave_no_halo(
    center: LineworkPixel,
    plane_epsilon: u32,
    step_strength: u32,
    neighbours: Seq<Neighbour>,
)
    requires
        forall|i: int|
            0 <= i < neighbours.len() ==> (#[trigger] neighbours[i]).token == center.token || (
            neighbours[i].token != 0 && neighbours[i].flags & MESH_FLAG_NO_LINEWORK != 0),
    ensures
        pixel_ink(center, plane_epsilon, step_strength, neighbours) == 0,
{
    lemma_excluded_neighbours(
        center.token,
        center.depth,
        step_strength,
        neighbours,
        neighbours.len() as int,
    );
}

} // verus!

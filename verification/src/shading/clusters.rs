//! Visible clusters of meshes: culling into the ranges of batches, the draws
//! over those ranges, and the tokens that pixels keep of what they show.

use vstd::prelude::*;

verus! {

/// The instance draws no linework.
pub const MESH_FLAG_NO_LINEWORK: u32 = 1;

/// The instance is skinned.
pub const MESH_FLAG_SKINNED: u32 = 2;

/// A placed mesh.
#[derive(Debug, Clone, Copy, PartialEq, Eq, Structural)]
pub struct MeshInstance {
    pub flags: u32,
    pub batch_index: u32,
    /// The slot of its deformer, or zero.
    pub deformer_slot: u32,
    /// The group that it is outlined with, or zero.
    pub outline_group: u32,
}

/// Instances that are drawn with one mesh.
#[derive(Debug, Clone, Copy, PartialEq, Eq, Structural)]
pub struct MeshBatch {
    pub mesh_index: u32,
    /// The first cluster of the batch's range.
    pub cluster_base: u32,
    /// The clusters that the range holds.
    pub cluster_capacity: u32,
}

/// A mesh.
#[derive(Debug, Clone, Copy, PartialEq, Eq, Structural)]
pub struct MeshEntry {
    pub meshlet_offset: u32,
    pub meshlet_count: u32,
    /// The vertices that a cluster of the mesh is drawn with.
    pub cluster_vertex_count: u32,
}

/// A piece of a mesh.
#[derive(Debug, Clone, Copy, PartialEq, Eq, Structural)]
pub struct Meshlet {
    pub first_index: u32,
    pub tri_count: u32,
}

/// A piece of an instance that survived culling.
#[derive(Debug, Clone, Copy, PartialEq, Eq, Structural)]
pub struct Cluster {
    pub instance_id: u32,
    pub meshlet_index: u32,
}

/// A draw over the clusters of a batch.
#[derive(Debug, Clone, Copy, PartialEq, Eq, Structural)]
pub struct ClusterDraw {
    pub vertex_count: u32,
    pub instance_count: u32,
    pub first_vertex: u32,
    pub first_instance: u32,
    pub batch_index: u32,
}

/// What culling reads.
pub struct ClusterScene {
    pub instances: Vec<MeshInstance>,
    pub batches: Vec<MeshBatch>,
    pub meshes: Vec<MeshEntry>,
    pub meshlets: Vec<Meshlet>,
    /// The most meshlets that a mesh has.
    pub max_meshlets_per_mesh: u32,
    /// Instances with one of these flags are left out.
    pub cull_mask: u32,
}

impl ClusterScene {
    /// Batches name meshes, and meshes name meshlets, that are there.
    pub open spec fn valid(self) -> bool {
        &&& self.instances@.len() <= u32::MAX
        &&& self.batches@.len() <= u32::MAX
        &&& forall|b: int|
            0 <= b < self.batches@.len() ==> (#[trigger] self.batches@[b]).mesh_index
                < self.meshes@.len()
        &&& forall|m: int|
            0 <= m < self.meshes@.len() ==> (#[trigger] self.meshes@[m]).meshlet_offset
                + self.meshes@[m].meshlet_count <= self.meshlets@.len()
        &&& self.meshlets@.len() <= u32::MAX
    }

    /// The mesh of an instance.
    pub open spec fn mesh_of(self, instance: MeshInstance) -> MeshEntry {
        self.meshes@[self.batches@[instance.batch_index as int].mesh_index as int]
    }

    /// Whether an instance has a meshlet to test.
    pub open spec fn is_candidate(self, instance_id: u32, local_meshlet: u32) -> bool {
        &&& instance_id < self.instances@.len()
        &&& local_meshlet < self.max_meshlets_per_mesh
        &&& self.instances@[instance_id as int].batch_index < self.batches@.len()
        &&& self.instances@[instance_id as int].flags & self.cull_mask == 0
        &&& local_meshlet < self.mesh_of(self.instances@[instance_id as int]).meshlet_count
    }
}

/// A meshlet of an instance that has to be tested.
#[derive(Debug, Clone, Copy, PartialEq, Eq, Structural)]
pub struct CullCandidate {
    pub cluster: Cluster,
    pub batch_index: u32,
    /// Facing away may hide it: the mesh is not deformed.
    pub test_cone: bool,
}

/// Finds the meshlet that an invocation tests.
pub fn cull_candidate(scene: &ClusterScene, instance_id: u32, local_meshlet: u32) -> (candidate: Option<CullCandidate>)
    requires
        scene.valid(),
    ensures
        candidate is Some <==> scene.is_candidate(instance_id, local_meshlet),
        candidate matches Some(c) ==> {
            let instance = scene.instances@[instance_id as int];
            &&& c.cluster.instance_id == instance_id
            &&& c.cluster.meshlet_index == scene.mesh_of(instance).meshlet_offset + local_meshlet
            &&& c.cluster.meshlet_index < scene.meshlets@.len()
            &&& c.batch_index == instance.batch_index
            &&& c.test_cone == (instance.flags & MESH_FLAG_SKINNED == 0 && instance.deformer_slot
                == 0)
        },
{
    if instance_id as usize >= scene.instances.len() || local_meshlet
        >= scene.max_meshlets_per_mesh {
        return None;
    }
    let instance = scene.instances[instance_id as usize];
    if instance.batch_index as usize >= scene.batches.len() || (instance.flags & scene.cull_mask)
        != 0 {
        return None;
    }
    let batch = scene.batches[instance.batch_index as usize];
    let mesh = scene.meshes[batch.mesh_index as usize];
    if local_meshlet >= mesh.meshlet_count {
        return None;
    }
    Some(
        CullCandidate {
            cluster: Cluster { instance_id, meshlet_index: mesh.meshlet_offset + local_meshlet },
            batch_index: instance.batch_index,
            test_cone: instance.flags & MESH_FLAG_SKINNED == 0 && instance.deformer_slot == 0,
        },
    )
}

/// What survives a candidate's tests: it does not face away where that counts,
/// and its sphere meets the view.
pub open spec fn survives(test_cone: bool, faces_away: bool, in_view: bool) -> bool {
    !(test_cone && faces_away) && in_view
}

/// The clusters that survive, in the ranges of their batches.
pub struct VisibleClusters {
    pub clusters: Vec<Cluster>,
    /// The survivors of each batch.
    pub counts: Vec<u32>,
}

/// The state of the survivors.
#[verifier::ext_equal]
pub struct VisibleModel {
    pub clusters: Seq<Cluster>,
    pub counts: Seq<u32>,
}

impl View for VisibleClusters {
    type V = VisibleModel;

    open spec fn view(&self) -> VisibleModel {
        VisibleModel { clusters: self.clusters@, counts: self.counts@ }
    }
}

impl VisibleModel {
    /// The state after one more survivor: it takes the next place of its batch,
    /// or none where the range is full.
    pub open spec fn with(self, batches: Seq<MeshBatch>, batch: int, cluster: Cluster) -> VisibleModel {
        VisibleModel {
            clusters: if self.counts[batch] < batches[batch].cluster_capacity {
                self.clusters.update(batches[batch].cluster_base + self.counts[batch], cluster)
            } else {
                self.clusters
            },
            counts: self.counts.update(batch, self.counts[batch].wrapping_add(1)),
        }
    }
}

/// Whether the ranges of all batches lie within the clusters.
pub open spec fn ranges_fit(batches: Seq<MeshBatch>, clusters: nat) -> bool {
    clusters <= u32::MAX && forall|b: int|
        0 <= b < batches.len() ==> (#[trigger] batches[b]).cluster_base
            + batches[b].cluster_capacity <= clusters
}

/// Keeps a candidate that passes its tests. A range that is full takes no more,
/// but the survivor is counted.
pub fn cluster_cull(
    visible: &mut VisibleClusters,
    scene: &ClusterScene,
    candidate: CullCandidate,
    faces_away: bool,
    in_view: bool,
)
    requires
        candidate.batch_index < scene.batches@.len(),
        old(visible)@.counts.len() == scene.batches@.len(),
        ranges_fit(scene.batches@, old(visible)@.clusters.len()),
    ensures
        final(visible)@ == if survives(candidate.test_cone, faces_away, in_view) {
            old(visible)@.with(scene.batches@, candidate.batch_index as int, candidate.cluster)
        } else {
            old(visible)@
        },
{
    if candidate.test_cone && faces_away {
        return;
    }
    if !in_view {
        return;
    }
    let batch = scene.batches[candidate.batch_index as usize];
    let slot: u32 = visible.counts[candidate.batch_index as usize];
    visible.counts.set(candidate.batch_index as usize, slot.wrapping_add(1));
    if slot >= batch.cluster_capacity {
        return;
    }
    let ghost total = visible.clusters@.len();
    assert(batch.cluster_base + batch.cluster_capacity <= total);
    let at: u32 = batch.cluster_base + slot;
    visible.clusters.set(at as usize, candidate.cluster);
}

/// One survivor.
pub struct Survivor {
    pub batch: int,
    pub cluster: Cluster,
}

/// The state after the first `n` survivors.
pub open spec fn visible_after(
    start: VisibleModel,
    batches: Seq<MeshBatch>,
    survivors: Seq<Survivor>,
    n: int,
) -> VisibleModel
    decreases n,
{
    if n <= 0 {
        start
    } else {
        visible_after(start, batches, survivors, n - 1).with(
            batches,
            survivors[n - 1].batch,
            survivors[n - 1].cluster,
        )
    }
}

/// How many of the first `n` survivors belong to a batch.
pub open spec fn survivors_of(survivors: Seq<Survivor>, batch: int, n: int) -> int
    decreases n,
{
    if n <= 0 {
        0
    } else {
        survivors_of(survivors, batch, n - 1) + (if survivors[n - 1].batch == batch {
            1int
        } else {
            0
        })
    }
}

proof fn lemma_counts(
    start: VisibleModel,
    batches: Seq<MeshBatch>,
    survivors: Seq<Survivor>,
    n: int,
    batch: int,
)
    requires
        0 <= n <= survivors.len(),
        survivors.len() <= u32::MAX,
        start.counts == Seq::new(batches.len(), |i: int| 0u32),
        ranges_fit(batches, start.clusters.len()),
        forall|i: int|
            0 <= i < survivors.len() ==> 0 <= (#[trigger] survivors[i]).batch < batches.len(),
        0 <= batch < batches.len(),
    ensures
        visible_after(start, batches, survivors, n).counts.len() == batches.len(),
        visible_after(start, batches, survivors, n).counts[batch] == survivors_of(
            survivors,
            batch,
            n,
        ),
        visible_after(start, batches, survivors, n).clusters.len() == start.clusters.len(),
        0 <= survivors_of(survivors, batch, n) <= n,
    decreases n,
{
    if n > 0 {
        lemma_counts(start, batches, survivors, n - 1, batch);
        lemma_counts(start, batches, survivors, n - 1, survivors[n - 1].batch);
    }
}

/// Whether the ranges of two batches do not meet.
pub open spec fn ranges_apart(batches: Seq<MeshBatch>) -> bool {
    forall|a: int, b: int|
        0 <= a < batches.len() && 0 <= b < batches.len() && a != b ==> (
        #[trigger] batches[a]).cluster_base + batches[a].cluster_capacity
            <= (#[trigger] batches[b]).cluster_base || batches[b].cluster_base
            + batches[b].cluster_capacity <= batches[a].cluster_base
}

/// A survivor that found a place keeps it: no other survivor is written there.
pub proof fn law_survivors_keep_their_place(
    start: VisibleModel,
    batches: Seq<MeshBatch>,
    survivors: Seq<Survivor>,
    k: int,
    n: int,
)
    requires
        0 <= k < n <= survivors.len(),
        survivors.len() <= u32::MAX,
        start.counts == Seq::new(batches.len(), |i: int| 0u32),
        ranges_fit(batches, start.clusters.len()),
        ranges_apart(batches),
        forall|i: int|
            0 <= i < survivors.len() ==> 0 <= (#[trigger] survivors[i]).batch < batches.len(),
        survivors_of(survivors, survivors[k].batch, k)
            < batches[survivors[k].batch].cluster_capacity,
    ensures
        visible_after(start, batches, survivors, n).clusters[batches[survivors[k].batch].cluster_base
            + survivors_of(survivors, survivors[k].batch, k)] == survivors[k].cluster,
    decreases n,
{
    let batch = survivors[k].batch;
    let place = batches[batch].cluster_base + survivors_of(survivors, batch, k);
    lemma_counts(start, batches, survivors, n - 1, survivors[n - 1].batch);
    lemma_counts(start, batches, survivors, k, batch);
    if k < n - 1 {
        law_survivors_keep_their_place(start, batches, survivors, k, n - 1);
        lemma_survivors_grow(survivors, batch, k + 1, n - 1);
    }
}

proof fn lemma_survivors_grow(survivors: Seq<Survivor>, batch: int, from: int, to: int)
    requires
        from <= to,
    ensures
        survivors_of(survivors, batch, from) <= survivors_of(survivors, batch, to),
    decreases to - from,
{
    if from < to {
        lemma_survivors_grow(survivors, batch, from, to - 1);
    }
}

/// Builds the draw of each batch; a batch without survivors draws no instance.
pub fn cluster_build_args(scene: &ClusterScene, counts: &Vec<u32>) -> (draws: Vec<ClusterDraw>)
    requires
        scene.valid(),
        counts@.len() == scene.batches@.len(),
    ensures
        draws@.len() == scene.batches@.len(),
        forall|b: int|
            0 <= b < draws@.len() ==> #[trigger] draws@[b] == (ClusterDraw {
                vertex_count: scene.meshes@[scene.batches@[b].mesh_index as int].cluster_vertex_count,
                instance_count: counts@[b],
                first_vertex: 0,
                first_instance: scene.batches@[b].cluster_base,
                batch_index: b as u32,
            }),
{
    let mut draws: Vec<ClusterDraw> = Vec::new();
    let batch_count: usize = scene.batches.len();
    let mut b: usize = 0;
    while b < batch_count
        invariant
            b <= batch_count,
            batch_count == scene.batches@.len(),
            counts@.len() == batch_count,
            scene.valid(),
            draws@.len() == b,
            forall|p: int|
                0 <= p < b ==> #[trigger] draws@[p] == (ClusterDraw {
                    vertex_count: scene.meshes@[scene.batches@[p].mesh_index as int].cluster_vertex_count,
                    instance_count: counts@[p],
                    first_vertex: 0,
                    first_instance: scene.batches@[p].cluster_base,
                    batch_index: p as u32,
                }),
        decreases batch_count - b,
    {
        let batch = scene.batches[b];
        let mesh = scene.meshes[batch.mesh_index as usize];
        draws.push(
            ClusterDraw {
                vertex_count: mesh.cluster_vertex_count,
                instance_count: counts[b],
                first_vertex: 0,
                first_instance: batch.cluster_base,
                batch_index: b as u32,
            },
        );
        b = b + 1;
    }
    draws
}

/// Whether a vertex only pads a cluster to the size of its mesh's largest.
pub fn is_padding(vertex: u32, meshlet: &Meshlet) -> (yes: bool)
    ensures
        yes == (vertex >= meshlet.tri_count * 3),
{
    vertex / 3 >= meshlet.tri_count
}

/// The corner of a triangle that a vertex index belongs to is padded with its
/// whole triangle.
pub proof fn law_triangles_are_padded_whole(triangle: int, corner: int, tri_count: int)
    requires
        0 <= corner < 3,
    ensures
        (triangle * 3 + corner >= tri_count * 3) == (triangle >= tri_count),
{
}

// ---------------------------------------------------------------------------
// Visibility tokens

/// The most that a token can say of a cluster.
pub const CLUSTER_TOKEN_MASK: u32 = 0x01ff_ffff;

/// The token of a triangle: the primitive in the seven high bits, the cluster
/// and one in the others.
pub open spec fn token_of(primitive: u32, cluster_index: u32) -> u32 {
    ((primitive & 0x7f) << 25) | (cluster_index.wrapping_add(1) & CLUSTER_TOKEN_MASK)
}

/// Makes the token of a triangle.
pub fn mesh_prepass_frag(primitive: u32, cluster_index: u32) -> (token: u32)
    ensures
        token == token_of(primitive, cluster_index),
{
    let visible: u32 = cluster_index.wrapping_add(1);
    ((primitive & 0x7f) << 25) | (visible & CLUSTER_TOKEN_MASK)
}

/// What a token says.
#[derive(Debug, Clone, Copy, PartialEq, Eq, Structural)]
pub struct TokenPlace {
    pub primitive: u32,
    pub cluster_index: u32,
}

/// Reads a token that is not zero.
pub fn token_place(token: u32) -> (place: TokenPlace)
    requires
        token & CLUSTER_TOKEN_MASK != 0,
    ensures
        place.primitive == token >> 25,
        place.cluster_index == (token & CLUSTER_TOKEN_MASK) - 1,
{
    TokenPlace { primitive: token >> 25, cluster_index: (token & CLUSTER_TOKEN_MASK) - 1 }
}

/// A token gives back what it was made of, and is never the token of the sky.
pub proof fn law_token_is_read_back(primitive: u32, cluster_index: u32)
    requires
        primitive <= 0x7f,
        cluster_index < CLUSTER_TOKEN_MASK,
    ensures
        token_of(primitive, cluster_index) != 0,
        token_of(primitive, cluster_index) & CLUSTER_TOKEN_MASK == cluster_index + 1,
        token_of(primitive, cluster_index) >> 25 == primitive,
{
    let visible = (cluster_index + 1) as u32;
    assert({
        let token = ((primitive & 0x7f) << 25) | (visible & 0x01ff_ffffu32);
        &&& token & 0x01ff_ffffu32 == visible
        &&& token >> 25 == primitive
    }) by (bit_vector)
        requires
            primitive <= 0x7f,
            0 < visible <= 0x01ff_ffff,
    ;
    assert(0u32 & 0x01ff_ffffu32 == 0u32) by (bit_vector);
}

/// A material's place in the surface attachment: zero stands for no mesh.
pub fn surface_material(material_index: u32) -> (marker: u32)
    requires
        material_index < u32::MAX,
    ensures
        marker == material_index + 1,
{
    material_index + 1
}

/// The sampler of a map: the frame's own where the material has none; none
/// without a map.
pub open spec fn chosen_sampler(map: u32, sampler: u32, default_sampler: u32) -> Option<u32> {
    if map == 0 {
        None
    } else if sampler == 0 {
        Some(default_sampler)
    } else {
        Some(sampler)
    }
}

/// Chooses the sampler of a map.
pub fn color_sampler(map: u32, sampler: u32, default_sampler: u32) -> (chosen: Option<u32>)
    ensures
        chosen == chosen_sampler(map, sampler, default_sampler),
{
    if map == 0 {
        None
    } else if sampler == 0 {
        Some(default_sampler)
    } else {
        Some(sampler)
    }
}

} // verus!

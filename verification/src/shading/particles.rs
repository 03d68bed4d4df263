//! Particle pools: seeds, allocation in a ring, lifetimes, and the lists of
//! what is drawn with each primitive.

use vstd::prelude::*;
use vstd::arithmetic::div_mod::*;

use crate::float_bits;

verus! {

/// The samples in each row of a material's curves.
pub const LUT_SAMPLES: u32 = 256;

/// The particle is alive.
pub const PARTICLE_ACTIVE: u32 = 1;

/// Particles of the emitter move with it.
pub const EMITTER_LOCAL_COORDS: u32 = 1;

/// Particles of the emitter keep the material's colour.
pub const EMITTER_IGNORE_TINT: u32 = 2;

/// The invocations that one group of an update has.
pub const UPDATE_GROUP: u32 = 256;

// ---------------------------------------------------------------------------
// Seeds

/// A seed, scrambled.
pub open spec fn hashed(seed: u32) -> u32 {
    let a = seed.wrapping_add(0x9e37_79b9);
    let b = (a ^ (a >> 16)).wrapping_mul(0x85eb_ca6b);
    let c = (b ^ (b >> 13)).wrapping_mul(0xc2b2_ae35);
    c ^ (c >> 16)
}

/// Scrambles a seed.
pub fn hash(seed: u32) -> (value: u32)
    ensures
        value == hashed(seed),
{
    let a: u32 = seed.wrapping_add(0x9e37_79b9);
    let b: u32 = (a ^ (a >> 16)).wrapping_mul(0x85eb_ca6b);
    let c: u32 = (b ^ (b >> 13)).wrapping_mul(0xc2b2_ae35);
    c ^ (c >> 16)
}

proof fn lemma_mul_undone(x: u32, factor: u32, inverse: u32)
    requires
        (factor * inverse) % 0x1_0000_0000 == 1,
    ensures
        x.wrapping_mul(factor).wrapping_mul(inverse) == x,
{
    let m = 0x1_0000_0000int;
    lemma_mul_mod_noop_left(x * factor, inverse as int, m);
    assert(x * factor * inverse == x * (factor * inverse)) by (nonlinear_arith);
    lemma_mul_mod_noop_right(x as int, factor * inverse, m);
    lemma_small_mod(x as nat, m as nat);
}

/// Two seeds are never scrambled to the same value.
pub proof fn law_seeds_stay_apart(s: u32, t: u32)
    requires
        hashed(s) == hashed(t),
    ensures
        s == t,
{
    let a = s.wrapping_add(0x9e37_79b9);
    let d = t.wrapping_add(0x9e37_79b9);
    let b = (a ^ (a >> 16)).wrapping_mul(0x85eb_ca6b);
    let e = (d ^ (d >> 16)).wrapping_mul(0x85eb_ca6b);
    let c = (b ^ (b >> 13)).wrapping_mul(0xc2b2_ae35);
    let f = (e ^ (e >> 13)).wrapping_mul(0xc2b2_ae35);
    assert(c ^ (c >> 16) == f ^ (f >> 16) ==> c == f) by (bit_vector);
    lemma_mul_undone(b ^ (b >> 13), 0xc2b2_ae35, 0x7ed1_b41d);
    lemma_mul_undone(e ^ (e >> 13), 0xc2b2_ae35, 0x7ed1_b41d);
    assert(b ^ (b >> 13) == e ^ (e >> 13) ==> b == e) by (bit_vector);
    lemma_mul_undone(a ^ (a >> 16), 0x85eb_ca6b, 0xa5cb_9243);
    lemma_mul_undone(d ^ (d >> 16), 0x85eb_ca6b, 0xa5cb_9243);
    assert(a ^ (a >> 16) == d ^ (d >> 16) ==> a == d) by (bit_vector);
}

/// The seed of an interior node of a bolt; the ends are pinned.
pub fn bolt_node_seed(spawn_seed: u32, node: u32, segments: u32) -> (seed: Option<u32>)
    ensures
        seed == if node == 0 || node >= segments {
            None
        } else {
            Some(hashed(spawn_seed ^ node.wrapping_mul(0x9e37_79b9)))
        },
{
    if node == 0 || node >= segments {
        return None;
    }
    Some(hash(spawn_seed ^ node.wrapping_mul(0x9e37_79b9)))
}

// ---------------------------------------------------------------------------
// Allocation

/// The particles that have been allocated, up to the size of the pool.
pub open spec fn in_use(allocated: u32, pool: u32) -> u32 {
    if allocated < pool {
        allocated
    } else {
        pool
    }
}

/// Counts the particles that have been allocated.
pub fn particles_in_use(allocated: u32, pool: u32) -> (count: u32)
    ensures
        count == in_use(allocated, pool),
{
    if allocated < pool {
        allocated
    } else {
        pool
    }
}

/// What a frame starts with: no instance is drawn, and as many groups update as
/// the particles in use take.
pub fn particle_reset(instance_counts: &mut Vec<u32>, allocated: u32, pool: u32) -> (groups: u32)
    ensures
        final(instance_counts)@ == Seq::new(old(instance_counts)@.len(), |i: int| 0u32),
        (groups - 1) * UPDATE_GROUP < in_use(allocated, pool) <= groups * UPDATE_GROUP || (groups
            == 0 && in_use(allocated, pool) == 0),
{
    let primitives: usize = instance_counts.len();
    let mut i: usize = 0;
    while i < primitives
        invariant
            i <= primitives,
            primitives == old(instance_counts)@.len(),
            instance_counts@.len() == primitives,
            forall|p: int| 0 <= p < i ==> #[trigger] instance_counts@[p] == 0,
        decreases primitives - i,
    {
        instance_counts.set(i, 0);
        i = i + 1;
    }
    assert(instance_counts@ =~= Seq::new(old(instance_counts)@.len(), |i: int| 0u32));
    let active: u32 = particles_in_use(allocated, pool);
    if active % UPDATE_GROUP == 0 {
        active / UPDATE_GROUP
    } else {
        active / UPDATE_GROUP + 1
    }
}

/// An emitter.
#[derive(Debug, Clone, Copy, PartialEq, Eq, Structural)]
pub struct Emitter {
    pub flags: u32,
    pub spawn_seed: u32,
    pub max_particles: u32,
    pub material_index: u32,
    pub shape_index: u32,
}

/// A new particle: its place in the pool, its seed, and what it has from its
/// emitter.
#[derive(Debug, Clone, Copy, PartialEq, Eq, Structural)]
pub struct Spawn {
    pub particle_index: u32,
    pub seed: u32,
    pub emitter_index: u32,
    pub material_index: u32,
    pub shape_index: u32,
    pub flags: u32,
    /// Its position and velocity stay relative to the emitter.
    pub local_coords: bool,
    /// Its colour is multiplied by the emitter's.
    pub tinted: bool,
}

/// Whether a lane of an emitter's group spawns.
pub open spec fn spawns(emitters: Seq<Emitter>, requested: Seq<u32>, emitter: u32, lane: u32) -> bool {
    &&& emitter < emitters.len()
    &&& lane < requested[emitter as int]
    &&& lane < emitters[emitter as int].max_particles
}

/// The spawn that an allocation makes.
pub open spec fn spawn_at(
    emitters: Seq<Emitter>,
    index: u32,
    lane: u32,
    allocation: u32,
    pool: u32,
) -> Spawn {
    let emitter = emitters[index as int];
    Spawn {
        particle_index: allocation % pool,
        seed: hashed(emitter.spawn_seed ^ lane ^ allocation.wrapping_mul(65537)),
        emitter_index: index,
        material_index: emitter.material_index,
        shape_index: emitter.shape_index,
        flags: PARTICLE_ACTIVE,
        local_coords: emitter.flags & EMITTER_LOCAL_COORDS != 0,
        tinted: emitter.flags & EMITTER_IGNORE_TINT == 0,
    }
}

/// Allocates the particle of a lane: the pool is a ring, so the oldest particle
/// makes room.
pub fn particle_emit(
    allocated: &mut u32,
    emitters: &Vec<Emitter>,
    requested: &Vec<u32>,
    emitter: u32,
    lane: u32,
    pool: u32,
) -> (spawn: Option<Spawn>)
    requires
        pool > 0,
        emitters@.len() == requested@.len(),
    ensures
        spawn is Some <==> spawns(emitters@, requested@, emitter, lane),
        spawn matches Some(s) ==> s == spawn_at(
            emitters@,
            emitter,
            lane,
            *old(allocated),
            pool,
        ) && s.particle_index < pool && *final(allocated) == old(allocated).wrapping_add(1),
        spawn is None ==> *final(allocated) == *old(allocated),
{
    if emitter as usize >= emitters.len() || lane >= requested[emitter as usize] {
        return None;
    }
    let chosen = emitters[emitter as usize];
    if lane >= chosen.max_particles {
        return None;
    }
    let allocation: u32 = *allocated;
    *allocated = allocation.wrapping_add(1);
    Some(
        Spawn {
            particle_index: allocation % pool,
            seed: hash(chosen.spawn_seed ^ lane ^ allocation.wrapping_mul(65537)),
            emitter_index: emitter,
            material_index: chosen.material_index,
            shape_index: chosen.shape_index,
            flags: PARTICLE_ACTIVE,
            local_coords: chosen.flags & EMITTER_LOCAL_COORDS != 0,
            tinted: chosen.flags & EMITTER_IGNORE_TINT == 0,
        },
    )
}

/// As many allocations in a row as the pool has places all go to different
/// places.
pub proof fn law_ring_is_used_evenly(first: u32, a: int, b: int, pool: u32)
    requires
        pool > 0,
        0 <= a < b < pool,
        first + b <= u32::MAX,
    ensures
        (first + a) % (pool as int) != (first + b) % (pool as int),
{
    let x = first + a;
    let y = first + b;
    let m = pool as int;
    if x % m == y % m {
        lemma_fundamental_div_mod(x, m);
        lemma_fundamental_div_mod(y, m);
        assert(false) by (nonlinear_arith)
            requires
                x == m * (x / m) + x % m,
                y == m * (y / m) + y % m,
                x % m == y % m,
                0 < y - x < m,
                m > 0,
        ;
    }
}

// ---------------------------------------------------------------------------
// Update and drawing

/// What becomes of a particle in a frame.
#[derive(Debug, Clone, Copy, PartialEq, Eq, Structural)]
pub enum ParticleStep {
    /// It is not alive.
    Skip,
    /// It has reached its age: its lifetime is written, its flags are cleared,
    /// and the rest of it stays.
    Retire,
    /// It moves on, and turns where it spins.
    Advance { spins: bool },
}

/// A living particle, as bit patterns. Its lifetime already holds this frame.
#[derive(Debug, Clone, Copy, PartialEq, Eq, Structural)]
pub struct ParticleAge {
    pub flags: u32,
    pub lifetime: u32,
    pub max_lifetime: u32,
    pub angular_velocity: u32,
    /// The alignment of its material.
    pub alignment: u32,
}

/// Whether a particle turns in space: one that is shown as a mesh and has an
/// angular velocity.
pub open spec fn spins(particle: ParticleAge) -> bool {
    aligned_by(particle.alignment) == Alignment::Mesh && !float_bits::equal(
        particle.angular_velocity,
        0,
    )
}

/// Decides what becomes of a particle.
pub fn particle_update(index: u32, pool: u32, particle: ParticleAge) -> (step: ParticleStep)
    ensures
        step == if index >= pool || particle.flags & PARTICLE_ACTIVE == 0 {
            ParticleStep::Skip
        } else if float_bits::at_most(particle.max_lifetime, particle.lifetime) {
            ParticleStep::Retire
        } else {
            ParticleStep::Advance { spins: spins(particle) }
        },
{
    if index >= pool {
        return ParticleStep::Skip;
    }
    if particle.flags & PARTICLE_ACTIVE == 0 {
        return ParticleStep::Skip;
    }
    if float_bits::is_at_most(particle.max_lifetime, particle.lifetime) {
        return ParticleStep::Retire;
    }
    let is_mesh = match alignment_of(particle.alignment) {
        Alignment::Mesh => true,
        _ => false,
    };
    ParticleStep::Advance { spins: is_mesh && !float_bits::is_zero(particle.angular_velocity) }
}

/// The sample of a row of a material's curves.
pub fn lut_index(row: u32, sample: u32) -> (index: u32)
    requires
        row < 3,
        sample < LUT_SAMPLES,
    ensures
        index == row * 256 + sample,
        index < 768,
{
    row * LUT_SAMPLES + sample
}

/// Where a particle lies in the view, as bit patterns and comparisons made by
/// the caller.
#[derive(Debug, Clone, Copy, PartialEq, Eq, Structural)]
pub struct ParticleView {
    /// The distance before the camera.
    pub clip_w: u32,
    /// It lies within the view and a margin of its size.
    pub in_view: bool,
    /// Its radius on the screen, in pixels.
    pub pixels: u32,
}

/// Half a pixel.
pub const HALF: u32 = 0x3f00_0000;

/// Whether a particle is drawn: in front of the camera, within the view, and
/// not smaller than half a pixel.
pub open spec fn is_drawn(view: ParticleView) -> bool {
    !float_bits::at_most(view.clip_w, 0) && view.in_view && !float_bits::less(view.pixels, HALF)
}

/// The particles that are drawn with each primitive.
pub struct DrawLists {
    /// How many each primitive has, as far as they were counted.
    pub counts: Vec<u32>,
    /// The particles, a pool's length for each primitive.
    pub visible: Vec<u32>,
}

/// The state of the lists.
#[verifier::ext_equal]
pub struct DrawModel {
    pub counts: Seq<u32>,
    pub visible: Seq<u32>,
}

impl View for DrawLists {
    type V = DrawModel;

    open spec fn view(&self) -> DrawModel {
        DrawModel { counts: self.counts@, visible: self.visible@ }
    }
}

impl DrawModel {
    /// The lists with one more particle.
    pub open spec fn with(self, primitive: int, particle: u32, pool: u32) -> DrawModel {
        DrawModel {
            counts: self.counts.update(primitive, self.counts[primitive].wrapping_add(1)),
            visible: if self.counts[primitive] < pool {
                self.visible.update(primitive * pool + self.counts[primitive], particle)
            } else {
                self.visible
            },
        }
    }
}

/// Adds a particle to the list of its primitive where it is drawn.
pub fn particle_draw_prepare(
    lists: &mut DrawLists,
    index: u32,
    allocated: u32,
    pool: u32,
    flags: u32,
    primitive: u32,
    view: ParticleView,
)
    requires
        old(lists)@.visible.len() == old(lists)@.counts.len() * pool,
    ensures
        final(lists)@ == if index < in_use(allocated, pool) && flags & PARTICLE_ACTIVE != 0
            && primitive < old(lists)@.counts.len() && is_drawn(view) {
            old(lists)@.with(primitive as int, index, pool)
        } else {
            old(lists)@
        },
{
    if index >= particles_in_use(allocated, pool) {
        return;
    }
    if flags & PARTICLE_ACTIVE == 0 {
        return;
    }
    let primitives: usize = lists.counts.len();
    if primitive as usize >= primitives {
        return;
    }
    if float_bits::is_at_most(view.clip_w, 0) {
        return;
    }
    if !view.in_view {
        return;
    }
    if float_bits::is_less(view.pixels, HALF) {
        return;
    }
    let slot: u32 = lists.counts[primitive as usize];
    lists.counts.set(primitive as usize, slot.wrapping_add(1));
    if slot >= pool {
        return;
    }
    let total: usize = lists.visible.len();
    proof {
        assert(primitive * pool + slot < total && primitive * pool >= 0) by (nonlinear_arith)
            requires
                primitive < primitives,
                slot < pool,
                total == primitives * pool,
        ;
    }
    let at: usize = primitive as usize * pool as usize + slot as usize;
    lists.visible.set(at, index);
}

/// The lists of two primitives do not meet.
pub proof fn law_lists_lie_apart(p: int, q: int, s: int, t: int, pool: int)
    requires
        0 <= p,
        0 <= q,
        p != q,
        0 <= s < pool,
        0 <= t < pool,
    ensures
        p * pool + s != q * pool + t,
{
    assert(p * pool + s != q * pool + t) by (nonlinear_arith)
        requires
            p != q,
            0 <= s < pool,
            0 <= t < pool,
    ;
}

/// How a particle's mesh is turned.
#[derive(Debug, Clone, Copy, PartialEq, Eq, Structural)]
pub enum Alignment {
    /// To the camera.
    Billboard,
    /// By its own rotation.
    Mesh,
    /// With its upward side along the velocity.
    Velocity,
    /// To the camera, with its upward side along the velocity.
    BillboardVelocity,
    /// To the camera, upright.
    Upright,
}

/// The alignment that a material's code stands for.
pub open spec fn aligned_by(code: u32) -> Alignment {
    if code == 1 {
        Alignment::Mesh
    } else if code == 2 {
        Alignment::Velocity
    } else if code == 3 {
        Alignment::BillboardVelocity
    } else if code == 4 {
        Alignment::Upright
    } else {
        Alignment::Billboard
    }
}

/// Reads a material's alignment.
pub fn alignment_of(code: u32) -> (alignment: Alignment)
    ensures
        alignment == aligned_by(code),
{
    match code {
        1 => Alignment::Mesh,
        2 => Alignment::Velocity,
        3 => Alignment::BillboardVelocity,
        4 => Alignment::Upright,
        _ => Alignment::Billboard,
    }
}

/// How a particle's mesh is placed.
#[derive(Debug, Clone, Copy, PartialEq, Eq, Structural)]
pub struct ParticlePlan {
    /// Position and velocity are taken through the emitter's transform.
    pub moves_with_emitter: bool,
    /// The mesh is turned in its own plane before it is aligned.
    pub turns: bool,
    pub alignment: Alignment,
}

/// Plans how a particle's mesh is placed. Meshes that have a rotation of their
/// own are not turned besides.
pub fn particle_vert(emitter_flags: u32, alignment: u32) -> (plan: ParticlePlan)
    ensures
        plan.moves_with_emitter == (emitter_flags & EMITTER_LOCAL_COORDS != 0),
        plan.turns == (plan.alignment != Alignment::Mesh),
        plan.alignment == aligned_by(alignment),
{
    let alignment = alignment_of(alignment);
    let turns = match alignment {
        Alignment::Mesh => false,
        _ => true,
    };
    ParticlePlan { moves_with_emitter: emitter_flags & EMITTER_LOCAL_COORDS != 0, turns, alignment }
}

/// The shape that particles spawn in.
#[derive(Debug, Clone, Copy, PartialEq, Eq, Structural)]
pub enum SpawnShape {
    /// The emitter's place; a cone's direction is in its velocities.
    Point,
    Ball,
    Sphere,
    Cuboid,
    Ring,
    /// A path of segments, walked by stratum.
    Bolt,
}

/// Reads a shape.
pub fn shape_of(code: u32) -> (shape: SpawnShape)
    ensures
        shape == if code == 1 {
            SpawnShape::Ball
        } else if code == 2 {
            SpawnShape::Sphere
        } else if code == 3 {
            SpawnShape::Cuboid
        } else if code == 5 {
            SpawnShape::Ring
        } else if code == 6 {
            SpawnShape::Bolt
        } else {
            SpawnShape::Point
        },
{
    match code {
        1 => SpawnShape::Ball,
        2 => SpawnShape::Sphere,
        3 => SpawnShape::Cuboid,
        5 => SpawnShape::Ring,
        6 => SpawnShape::Bolt,
        _ => SpawnShape::Point,
    }
}

} // verus!

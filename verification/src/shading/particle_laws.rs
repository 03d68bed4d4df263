//! What particles promise: what they have from their emitter, what becomes of
//! them, and which are drawn.

use vstd::prelude::*;

use crate::float_bits;
use crate::shading::particles;
use crate::shading::particles::{Alignment, DrawModel, Emitter, ParticleAge, ParticleView};

verus! {

/// A spawned particle has its emitter's material and its emitter's shape, is
/// alive, and knows its emitter.
pub proof fn law_particles_take_after_their_emitter(
    emitters: Seq<Emitter>,
    index: u32,
    lane: u32,
    allocation: u32,
    pool: u32,
)
    requires
        index < emitters.len(),
        pool > 0,
    ensures
        ({
            let spawn = particles::spawn_at(emitters, index, lane, allocation, pool);
            &&& spawn.shape_index == emitters[index as int].shape_index
            &&& spawn.material_index == emitters[index as int].material_index
            &&& spawn.emitter_index == index
            &&& spawn.flags == 1
            &&& spawn.particle_index < pool
            &&& spawn.local_coords == (emitters[index as int].flags & 1 != 0)
            &&& spawn.tinted == (emitters[index as int].flags & 2 == 0)
        }),
{
}

/// What one emitter spawns does not depend on the others.
pub proof fn law_emitters_do_not_mix(
    emitters: Seq<Emitter>,
    others: Seq<Emitter>,
    index: u32,
    lane: u32,
    allocation: u32,
    pool: u32,
)
    requires
        index < emitters.len(),
        index < others.len(),
        others[index as int] == emitters[index as int],
    ensures
        particles::spawn_at(emitters, index, lane, allocation, pool) == particles::spawn_at(
            others,
            index,
            lane,
            allocation,
            pool,
        ),
{
}

/// Allocations fill the pool from its start and go round.
pub proof fn law_pool_is_filled_in_order(
    emitters: Seq<Emitter>,
    index: u32,
    lane: u32,
    allocation: u32,
    pool: u32,
)
    requires
        pool > 0,
    ensures
        allocation < pool ==> particles::spawn_at(
            emitters,
            index,
            lane,
            allocation,
            pool,
        ).particle_index == allocation,
        allocation >= pool ==> particles::spawn_at(
            emitters,
            index,
            lane,
            allocation,
            pool,
        ).particle_index == particles::spawn_at(
            emitters,
            index,
            lane,
            (allocation - pool) as u32,
            pool,
        ).particle_index,
{
    if allocation >= pool {
        vstd::arithmetic::div_mod::lemma_mod_sub_multiples_vanish(allocation as int, pool as int);
    } else {
        vstd::arithmetic::div_mod::lemma_small_mod(allocation as nat, pool as nat);
    }
}

/// Two lanes of an emitter that are given the same allocation number have
/// different seeds.
pub proof fn law_lanes_have_different_seeds(
    emitters: Seq<Emitter>,
    index: u32,
    a: u32,
    b: u32,
    allocation: u32,
    pool: u32,
)
    requires
        a != b,
    ensures
        particles::spawn_at(emitters, index, a, allocation, pool).seed != particles::spawn_at(
            emitters,
            index,
            b,
            allocation,
            pool,
        ).seed,
{
    let seed = emitters[index as int].spawn_seed;
    let mixed = allocation.wrapping_mul(65537);
    if particles::spawn_at(emitters, index, a, allocation, pool).seed == particles::spawn_at(
        emitters,
        index,
        b,
        allocation,
        pool,
    ).seed {
        particles::law_seeds_stay_apart(seed ^ a ^ mixed, seed ^ b ^ mixed);
        assert(seed ^ a ^ mixed == seed ^ b ^ mixed ==> a == b) by (bit_vector);
    }
}

/// A lane spawns just where its emitter exists, was asked for more than so many
/// particles, and may have more than so many.
pub proof fn law_lanes_spawn_as_requested(
    emitters: Seq<Emitter>,
    requested: Seq<u32>,
    emitter: u32,
    lane: u32,
)
    ensures
        emitter >= emitters.len() ==> !particles::spawns(emitters, requested, emitter, lane),
        emitter < emitters.len() && particles::spawns(emitters, requested, emitter, lane) ==> lane
            < requested[emitter as int] && lane < emitters[emitter as int].max_particles,
        emitter < emitters.len() && lane < requested[emitter as int] && lane
            < emitters[emitter as int].max_particles ==> particles::spawns(
            emitters,
            requested,
            emitter,
            lane,
        ),
{
}

/// No more particles are in use than were allocated or fit in the pool.
pub proof fn law_use_is_bounded(allocated: u32, pool: u32)
    ensures
        particles::in_use(allocated, pool) <= allocated,
        particles::in_use(allocated, pool) <= pool,
        particles::in_use(allocated, pool) == allocated || particles::in_use(allocated, pool)
            == pool,
{
}

/// Only meshes spin, and only with an angular velocity.
pub proof fn law_only_meshes_spin(particle: ParticleAge)
    ensures
        particles::spins(particle) ==> particle.alignment == 1,
        particles::spins(particle) ==> particle.angular_velocity != 0 && particle.angular_velocity
            != 0x8000_0000,
        particle.alignment == 1 && particle.angular_velocity != 0 && particle.angular_velocity
            != 0x8000_0000 ==> particles::spins(particle),
{
}

/// The codes of alignments.
pub proof fn law_alignment_codes(code: u32)
    ensures
        particles::aligned_by(code) == Alignment::Mesh <==> code == 1,
        particles::aligned_by(code) == Alignment::Velocity <==> code == 2,
        particles::aligned_by(code) == Alignment::BillboardVelocity <==> code == 3,
        particles::aligned_by(code) == Alignment::Upright <==> code == 4,
        particles::aligned_by(code) == Alignment::Billboard <==> code == 0 || code > 4,
{
}

/// What is drawn lies in front of the camera and within the view, and is at
/// least half a pixel large.
pub proof fn law_drawn_particles_can_be_seen(view: ParticleView)
    requires
        !float_bits::is_nan(view.clip_w),
        !float_bits::is_nan(view.pixels),
    ensures
        particles::is_drawn(view) == (float_bits::less(0, view.clip_w) && view.in_view
            && float_bits::at_most(0x3f00_0000, view.pixels)),
{
}

/// A particle that is added stands at the end of its primitive's list, which
/// grows by one; the lists of all other primitives and all earlier entries stay.
pub proof fn law_particle_joins_its_list(
    lists: DrawModel,
    primitive: int,
    particle: u32,
    pool: u32,
    q: int,
    s: int,
)
    requires
        0 <= primitive < lists.counts.len(),
        0 <= q < lists.counts.len(),
        lists.visible.len() == lists.counts.len() * pool,
        lists.counts[primitive] < pool,
        0 <= s < pool,
        q != primitive || s != lists.counts[primitive],
    ensures
        ({
            let after = lists.with(primitive, particle, pool);
            &&& after.counts.len() == lists.counts.len()
            &&& after.visible.len() == lists.visible.len()
            &&& after.counts[primitive] == lists.counts[primitive] + 1
            &&& after.visible[primitive * pool + lists.counts[primitive]] == particle
            &&& q != primitive ==> after.counts[q] == lists.counts[q]
            &&& after.visible[q * pool + s] == lists.visible[q * pool + s]
        }),
{
    let at = primitive * pool + lists.counts[primitive];
    let other = q * pool + s;
    assert(0 <= at < lists.visible.len()) by (nonlinear_arith)
        requires
            at == primitive * pool + lists.counts[primitive],
            0 <= primitive < lists.counts.len(),
            0 <= lists.counts[primitive] < pool,
            lists.visible.len() == lists.counts.len() * pool,
    ;
    assert(0 <= other < lists.visible.len()) by (nonlinear_arith)
        requires
            other == q * pool + s,
            0 <= q < lists.counts.len(),
            0 <= s < pool,
            lists.visible.len() == lists.counts.len() * pool,
    ;
    if q != primitive {
        particles::law_lists_lie_apart(
            primitive,
            q,
            lists.counts[primitive] as int,
            s,
            pool as int,
        );
    }
}

/// A list that is full takes no further particle, but counts it.
pub proof fn law_full_lists_only_count(lists: DrawModel, primitive: int, particle: u32, pool: u32)
    requires
        0 <= primitive < lists.counts.len(),
        pool <= lists.counts[primitive] < u32::MAX,
    ensures
        lists.with(primitive, particle, pool).visible == lists.visible,
        lists.with(primitive, particle, pool).counts[primitive] == lists.counts[primitive] + 1,
{
}

/// Seeds are scrambled by one addition, two multiplications and three foldings
/// of the upper bits onto the lower ones, all within 32 bits.
pub proof fn law_seeds_are_scrambled(seed: u32, a: u32, b: u32, c: u32)
    requires
        a == (seed + 0x9e37_79b9) % 0x1_0000_0000,
        b == ((a ^ (a >> 16)) * 0x85eb_ca6b) % 0x1_0000_0000,
        c == ((b ^ (b >> 13)) * 0xc2b2_ae35) % 0x1_0000_0000,
    ensures
        particles::hashed(seed) == c ^ (c >> 16),
{
}

} // verus!

//! Decisions of the volumetric fog: which lights a tile evaluates, what each
//! slice of a column integrates, and where fog hides all that lies behind it.

use vstd::prelude::*;

use crate::float_bits;
use crate::shading::extinction;
use crate::shading::extinction::{ExtinctionColumn, Splat, TintColumn, NEVER, SLICES};

verus! {

// ---------------------------------------------------------------------------
// Lights of a tile

/// The pixels on a side of a tile that shares a list of lights.
pub const FOG_LIGHT_TILE: u32 = 8;

/// The lights of one tile.
pub struct LightTile {
    /// How many lights came.
    pub count: u32,
    /// Those that found a slot.
    pub lights: Vec<u32>,
    /// Not all did.
    pub overflow: bool,
}

/// The state of one tile.
#[verifier::ext_equal]
pub struct TileModel {
    pub count: u32,
    pub lights: Seq<u32>,
    pub overflow: bool,
}

impl View for LightTile {
    type V = TileModel;

    open spec fn view(&self) -> TileModel {
        TileModel { count: self.count, lights: self.lights@, overflow: self.overflow }
    }
}

impl TileModel {
    /// The slots are filled from the first on.
    pub open spec fn valid(self, per_tile: u32) -> bool {
        &&& self.lights.len() == if self.count < per_tile {
            self.count
        } else {
            per_tile
        }
        &&& self.overflow == (self.count > per_tile)
    }

    /// The tile after one more light.
    pub open spec fn with(self, light: u32, per_tile: u32) -> TileModel {
        TileModel {
            count: (self.count + 1) as u32,
            lights: if self.count < per_tile {
                self.lights.push(light)
            } else {
                self.lights
            },
            overflow: self.overflow || self.count >= per_tile,
        }
    }
}

impl LightTile {
    /// A tile without lights.
    pub fn empty() -> (tile: LightTile)
        ensures
            tile@ == (TileModel { count: 0, lights: Seq::empty(), overflow: false }),
            forall|per_tile: u32| tile@.valid(per_tile),
    {
        LightTile { count: 0, lights: Vec::new(), overflow: false }
    }

    /// Adds a light, or marks the tile where no slot is left.
    pub fn add_light(&mut self, light: u32, per_tile: u32)
        requires
            old(self)@.valid(per_tile),
            old(self)@.count < u32::MAX,
        ensures
            final(self)@ == old(self)@.with(light, per_tile),
            final(self)@.valid(per_tile),
    {
        let slot: u32 = self.count;
        self.count = slot + 1;
        if slot < per_tile {
            self.lights.push(light);
        } else {
            self.overflow = true;
        }
    }
}

/// The tiles that a light reaches, both ends included.
#[derive(Debug, Clone, Copy, PartialEq, Eq, Structural)]
pub struct TileBounds {
    pub min_x: u32,
    pub min_y: u32,
    pub max_x: u32,
    pub max_y: u32,
}

impl TileBounds {
    pub open spec fn is_empty(self) -> bool {
        self.min_x > self.max_x || self.min_y > self.max_y
    }

    pub open spec fn covers(self, x: int, y: int) -> bool {
        self.min_x <= x <= self.max_x && self.min_y <= y <= self.max_y
    }
}

/// The tiles of one row that were reached before `x`, or of earlier rows.
spec fn reached_before(bounds: TileBounds, tile: int, width: int, x: int, y: int) -> bool {
    bounds.covers(tile % width, tile / width) && (tile / width < y || (tile / width == y && tile
        % width < x))
}

proof fn lemma_tile_place(x: int, y: int, width: int)
    requires
        0 <= x < width,
        0 <= y,
    ensures
        (y * width + x) % width == x,
        (y * width + x) / width == y,
{
    vstd::arithmetic::div_mod::lemma_fundamental_div_mod_converse(y * width + x, width, y, x);
}

/// Adds a light to each tile that it reaches.
pub fn fog_light_grid(
    grid: &mut Vec<LightTile>,
    width: u32,
    per_tile: u32,
    light: u32,
    bounds: TileBounds,
)
    requires
        width > 0,
        old(grid)@.len() <= u32::MAX,
        !bounds.is_empty() ==> bounds.max_x < width && (bounds.max_y + 1) * width <= old(
            grid,
        )@.len(),
        forall|t: int|
            0 <= t < old(grid)@.len() ==> (#[trigger] old(grid)@[t])@.valid(per_tile) && old(
                grid,
            )@[t]@.count < u32::MAX,
    ensures
        final(grid)@.len() == old(grid)@.len(),
        forall|t: int|
            0 <= t < final(grid)@.len() ==> (#[trigger] final(grid)@[t])@ == (if bounds.covers(
                t % width as int,
                t / width as int,
            ) {
                old(grid)@[t]@.with(light, per_tile)
            } else {
                old(grid)@[t]@
            }) && final(grid)@[t]@.valid(per_tile),
{
    if bounds.min_x > bounds.max_x || bounds.min_y > bounds.max_y {
        return;
    }
    let ghost before = grid@;
    let tiles: usize = grid.len();
    let mut y: u32 = bounds.min_y;
    while y <= bounds.max_y
        invariant
            width > 0,
            before.len() == tiles,
            grid@.len() == tiles,
            tiles <= u32::MAX,
            bounds.max_x < width,
            bounds.min_x <= bounds.max_x,
            bounds.min_y <= y <= bounds.max_y + 1,
            (bounds.max_y + 1) * width <= tiles,
            forall|t: int|
                0 <= t < tiles ==> (#[trigger] before[t])@.valid(per_tile) && before[t]@.count
                    < u32::MAX,
            forall|t: int|
                0 <= t < tiles ==> (#[trigger] grid@[t])@ == (if reached_before(
                    bounds,
                    t,
                    width as int,
                    0,
                    y as int,
                ) {
                    before[t]@.with(light, per_tile)
                } else {
                    before[t]@
                }),
        decreases bounds.max_y + 1 - y,
    {
        let mut x: u32 = bounds.min_x;
        proof {
            assert forall|t: int| 0 <= t < tiles implies (#[trigger] grid@[t])@ == (
            if reached_before(bounds, t, width as int, x as int, y as int) {
                before[t]@.with(light, per_tile)
            } else {
                before[t]@
            }) by {
                assert(t % width as int >= 0);
            }
            assert(bounds.max_y + 1 <= tiles) by (nonlinear_arith)
                requires
                    (bounds.max_y + 1) * width <= tiles,
                    width > 0,
            ;
        }
        while x <= bounds.max_x
            invariant
                width > 0,
                before.len() == tiles,
                grid@.len() == tiles,
                tiles <= u32::MAX,
                bounds.max_x < width,
                bounds.min_x <= x <= bounds.max_x + 1,
                bounds.min_y <= y <= bounds.max_y,
                (bounds.max_y + 1) * width <= tiles,
                forall|t: int|
                    0 <= t < tiles ==> (#[trigger] before[t])@.valid(per_tile) && before[t]@.count
                        < u32::MAX,
                forall|t: int|
                    0 <= t < tiles ==> (#[trigger] grid@[t])@ == (if reached_before(
                        bounds,
                        t,
                        width as int,
                        x as int,
                        y as int,
                    ) {
                        before[t]@.with(light, per_tile)
                    } else {
                        before[t]@
                    }),
            decreases bounds.max_x + 1 - x,
        {
            proof {
                lemma_tile_place(x as int, y as int, width as int);
                assert(y * width + x < tiles) by (nonlinear_arith)
                    requires
                        y <= bounds.max_y,
                        x < width,
                        (bounds.max_y + 1) * width <= tiles,
                ;
                assert(y * width >= 0) by (nonlinear_arith);
            }
            let tile: usize = (y * width + x) as usize;
            let ghost held = grid@;
            assert(!reached_before(bounds, tile as int, width as int, x as int, y as int));
            assert(held[tile as int]@ == before[tile as int]@);
            let slot = &mut grid[tile];
            slot.add_light(light, per_tile);
            proof {
                assert forall|t: int| 0 <= t < tiles implies (#[trigger] grid@[t])@ == (
                if reached_before(bounds, t, width as int, x + 1, y as int) {
                    before[t]@.with(light, per_tile)
                } else {
                    before[t]@
                }) by {
                    if t != tile {
                        assert(grid@[t] == held[t]);
                        if t / width as int == y && t % width as int == x {
                            vstd::arithmetic::div_mod::lemma_fundamental_div_mod(t, width as int);
                            assert(t == y * width + x) by (nonlinear_arith)
                                requires
                                    t == width * (t / width as int) + t % width as int,
                                    t / width as int == y,
                                    t % width as int == x,
                            ;
                        }
                    }
                }
            }
            x = x + 1;
        }
        proof {
            assert forall|t: int| 0 <= t < tiles implies (#[trigger] grid@[t])@ == (
            if reached_before(bounds, t, width as int, 0, y + 1) {
                before[t]@.with(light, per_tile)
            } else {
                before[t]@
            }) by {
                assert(t % width as int >= 0);
            }
        }
        y = y + 1;
    }
}

/// The tile of a pixel.
pub fn fog_light_tile(x: u32, y: u32, width: u32) -> (tile: u32)
    requires
        (y as int / 8) * width + x as int / 8 <= u32::MAX,
    ensures
        tile == (y as int / 8) * width + x as int / 8,
{
    proof {
        assert((y as int / 8) * width >= 0) by (nonlinear_arith);
    }
    (y / FOG_LIGHT_TILE) * width + x / FOG_LIGHT_TILE
}

/// The lights that a tile evaluates: all where the list overflowed, else those
/// in the list.
pub open spec fn evaluated(tile: TileModel, light_count: u32) -> Seq<u32> {
    if light_count == 0 {
        Seq::empty()
    } else if tile.overflow {
        Seq::new(light_count as nat, |i: int| i as u32)
    } else {
        tile.lights
    }
}

/// Lists the lights that a tile evaluates.
pub fn fog_light(tile: &LightTile, light_count: u32) -> (lights: Vec<u32>)
    ensures
        lights@ == evaluated(tile@, light_count),
{
    let mut lights: Vec<u32> = Vec::new();
    if light_count == 0 {
        return lights;
    }
    if tile.overflow {
        let mut i: u32 = 0;
        while i < light_count
            invariant
                i <= light_count,
                lights@.len() == i,
                forall|p: int| 0 <= p < i ==> #[trigger] lights@[p] == p,
            decreases light_count - i,
        {
            lights.push(i);
            i = i + 1;
        }
        assert(lights@ =~= Seq::new(light_count as nat, |i: int| i as u32));
    } else {
        let held: usize = tile.lights.len();
        let mut i: usize = 0;
        while i < held
            invariant
                i <= held,
                held == tile.lights@.len(),
                lights@ == tile.lights@.take(i as int),
            decreases held - i,
        {
            lights.push(tile.lights[i]);
            proof {
                assert(tile.lights@.take(i + 1) =~= tile.lights@.take(i as int).push(
                    tile.lights@[i as int],
                ));
            }
            i = i + 1;
        }
        assert(tile.lights@.take(held as int) =~= tile.lights@);
    }
    lights
}

/// A tile after lights came one by one.
pub open spec fn tile_after(lights: Seq<u32>, per_tile: u32, n: int) -> TileModel
    decreases n,
{
    if n <= 0 {
        TileModel { count: 0, lights: Seq::empty(), overflow: false }
    } else {
        tile_after(lights, per_tile, n - 1).with(lights[n - 1], per_tile)
    }
}

proof fn lemma_tile_after(lights: Seq<u32>, per_tile: u32, n: int)
    requires
        0 <= n <= lights.len(),
        lights.len() <= u32::MAX,
    ensures
        tile_after(lights, per_tile, n).count == n,
        tile_after(lights, per_tile, n).overflow == (n > per_tile),
        n <= per_tile ==> tile_after(lights, per_tile, n).lights == lights.take(n),
    decreases n,
{
    if n > 0 {
        lemma_tile_after(lights, per_tile, n - 1);
        if n <= per_tile {
            assert(lights.take(n) =~= lights.take(n - 1).push(lights[n - 1]));
        }
    } else {
        assert(lights.take(0) =~= Seq::<u32>::empty());
    }
}

/// No light that reaches a tile is lost, however many there are.
pub proof fn law_no_light_is_lost(lights: Seq<u32>, per_tile: u32, light_count: u32, k: int)
    requires
        0 <= k < lights.len(),
        lights.len() <= u32::MAX,
        lights[k] < light_count,
    ensures
        evaluated(tile_after(lights, per_tile, lights.len() as int), light_count).contains(
            lights[k],
        ),
{
    let n = lights.len() as int;
    lemma_tile_after(lights, per_tile, n);
    let list = evaluated(tile_after(lights, per_tile, n), light_count);
    if n > per_tile {
        assert(list[lights[k] as int] == lights[k]);
    } else {
        assert(list[k] == lights[k]);
    }
}

// ---------------------------------------------------------------------------
// Integration of a column

/// What a colour channel does in a slice.
#[derive(Debug, Clone, Copy, PartialEq, Eq, Structural)]
pub enum ChannelStep {
    /// Nothing passes any more.
    Dark,
    /// As much passes as this field leaves.
    Through(u32),
}

/// What all channels do in a slice.
#[derive(Debug, Clone, Copy, PartialEq, Eq, Structural)]
pub struct TintStep {
    pub red: ChannelStep,
    pub green: ChannelStep,
    pub blue: ChannelStep,
}

/// What a slice integrates.
#[derive(Debug, Clone, Copy, PartialEq, Eq, Structural)]
pub enum SliceStep {
    /// The column is opaque here: the light so far is written, with nothing
    /// passing.
    Saturated,
    /// Scattering is added with this extinction; colours change where the fog
    /// is tinted.
    Integrate(u32, Option<TintStep>),
}

/// A channel's step.
pub open spec fn channel_step(slice: u32, overflow: u32, field: int) -> ChannelStep {
    if slice >= overflow {
        ChannelStep::Dark
    } else {
        ChannelStep::Through(field as u32)
    }
}

/// A slice's tint.
pub open spec fn tint_step(tints: extinction::TintModel, slice: u32) -> TintStep {
    let held = tints.occupancy.holds(slice);
    let word = tints.words[slice as int];
    TintStep {
        red: channel_step(
            slice,
            tints.overflow.red,
            if held {
                extinction::field_of(word, 0)
            } else {
                0
            },
        ),
        green: channel_step(
            slice,
            tints.overflow.green,
            if held {
                extinction::field_of(word, 1)
            } else {
                0
            },
        ),
        blue: channel_step(
            slice,
            tints.overflow.blue,
            if held {
                extinction::field_of(word, 2)
            } else {
                0
            },
        ),
    }
}

/// A slice's step, given the column's extinction and tint where those are on.
pub open spec fn slice_step(
    oit: Option<extinction::ExtinctionModel>,
    tints: Option<extinction::TintModel>,
    slice: u32,
) -> SliceStep {
    if oit is Some && slice >= oit->0.overflow {
        SliceStep::Saturated
    } else {
        SliceStep::Integrate(
            if oit is Some && oit->0.occupancy.holds(slice) {
                oit->0.lane(slice)
            } else {
                0
            },
            if tints is Some {
                Some(tint_step(tints->0, slice))
            } else {
                None
            },
        )
    }
}

pub open spec fn extinction_view(oit: Option<&ExtinctionColumn>) -> Option<
    extinction::ExtinctionModel,
> {
    match oit {
        Some(column) => Some(column@),
        None => None,
    }
}

pub open spec fn tint_view(tints: Option<&TintColumn>) -> Option<extinction::TintModel> {
    match tints {
        Some(column) => Some(column@),
        None => None,
    }
}

fn channel(slice: u32, overflow: u32, held: bool, word: u32, which: u32) -> (step: ChannelStep)
    requires
        which < 3,
    ensures
        step == channel_step(
            slice,
            overflow,
            if held {
                extinction::field_of(word, which as int)
            } else {
                0
            },
        ),
{
    if slice >= overflow {
        ChannelStep::Dark
    } else if held {
        ChannelStep::Through(extinction::ext_rgb_field(word, which))
    } else {
        ChannelStep::Through(0)
    }
}

/// Plans the integration of a column, slice by slice.
pub fn fog_integrate(
    oit: Option<&ExtinctionColumn>,
    tints: Option<&TintColumn>,
    volume_depth: u32,
    curve_slices: u32,
) -> (steps: Vec<SliceStep>)
    requires
        volume_depth <= SLICES || curve_slices <= SLICES,
        oit matches Some(column) ==> (if volume_depth < curve_slices {
            volume_depth
        } else {
            curve_slices
        }) <= 4 * column@.words.len(),
        tints matches Some(column) ==> (if volume_depth < curve_slices {
            volume_depth
        } else {
            curve_slices
        }) <= column@.words.len(),
    ensures
        steps@.len() == if volume_depth < curve_slices {
            volume_depth
        } else {
            curve_slices
        },
        forall|i: int|
            0 <= i < steps@.len() ==> #[trigger] steps@[i] == slice_step(
                extinction_view(oit),
                tint_view(tints),
                i as u32,
            ),
{
    let slice_count: u32 = if volume_depth < curve_slices {
        volume_depth
    } else {
        curve_slices
    };
    let overflow: u32 = match oit {
        Some(column) => column.overflow,
        None => NEVER,
    };
    let mut steps: Vec<SliceStep> = Vec::new();
    let mut i: u32 = 0;
    while i < slice_count
        invariant
            i <= slice_count <= SLICES,
            oit matches Some(column) ==> slice_count <= 4 * column@.words.len() && overflow
                == column@.overflow,
            oit is None ==> overflow == NEVER,
            tints matches Some(column) ==> slice_count <= column@.words.len(),
            steps@.len() == i,
            forall|p: int|
                0 <= p < i ==> #[trigger] steps@[p] == slice_step(
                    extinction_view(oit),
                    tint_view(tints),
                    p as u32,
                ),
        decreases slice_count - i,
    {
        if i >= overflow {
            steps.push(SliceStep::Saturated);
        } else {
            let mut amount: u32 = 0;
            if let Some(column) = oit {
                if column.occupancy.contains(i) {
                    amount = crate::bits::extract_byte(column.words[(i / 4) as usize], i % 4);
                }
            }
            let mut tint: Option<TintStep> = None;
            if let Some(column) = tints {
                let held = column.occupancy.contains(i);
                let word: u32 = column.words[i as usize];
                tint = Some(
                    TintStep {
                        red: channel(i, column.overflow.red, held, word, 0),
                        green: channel(i, column.overflow.green, held, word, 1),
                        blue: channel(i, column.overflow.blue, held, word, 2),
                    },
                );
            }
            steps.push(SliceStep::Integrate(amount, tint));
        }
        i = i + 1;
    }
    steps
}

/// A column that is opaque in one slice is opaque in all that follow.
pub proof fn law_opaque_stays_opaque(
    oit: Option<extinction::ExtinctionModel>,
    tints: Option<extinction::TintModel>,
    i: u32,
    j: u32,
)
    requires
        i <= j,
        slice_step(oit, tints, i) == SliceStep::Saturated,
    ensures
        slice_step(oit, tints, j) == SliceStep::Saturated,
{
}

/// Where a column is not opaque, integration sees exactly what was splatted
/// into the slice.
pub proof fn law_integration_sees_every_splat(
    words: nat,
    splats: Seq<Splat>,
    tints: Option<extinction::TintModel>,
    slice: u32,
)
    requires
        4 * words <= SLICES,
        slice < 4 * words,
        forall|i: int|
            0 <= i < splats.len() ==> (#[trigger] splats[i]).slice < 4 * words && splats[i].amount
                <= 255,
    ensures
        slice_step(
            Some(extinction::column_after(words, splats, splats.len() as int)),
            tints,
            slice,
        ) matches SliceStep::Integrate(amount, _) ==> amount == extinction::added(
            splats,
            slice as int,
            splats.len() as int,
        ),
{
    let n = splats.len() as int;
    let column = extinction::column_after(words, splats, n);
    if slice < column.overflow {
        if column.occupancy.holds(slice) {
            extinction::law_extinction_adds_up(words, splats, slice);
        } else {
            extinction::law_empty_slices_hold_nothing(words, splats, n, slice);
        }
    }
}

/// Whether nothing passes a slice any more: it is opaque, or as little passes
/// as does not count.
pub open spec fn ends(steps: Seq<SliceStep>, throughputs: Seq<u32>, epsilon: u32, i: int) -> bool {
    steps[i] == SliceStep::Saturated || float_bits::at_most(throughputs[i], epsilon)
}

/// Finds the first slice that nothing passes.
pub fn zero_slice(steps: &Vec<SliceStep>, throughputs: &Vec<u32>, epsilon: u32) -> (slice: Option<u32>)
    requires
        steps@.len() == throughputs@.len(),
        steps@.len() <= u32::MAX,
    ensures
        match slice {
            Some(z) => z < steps@.len() && ends(steps@, throughputs@, epsilon, z as int) && forall|
                i: int,
            |
                0 <= i < z ==> !#[trigger] ends(steps@, throughputs@, epsilon, i),
            None => forall|i: int|
                0 <= i < steps@.len() ==> !#[trigger] ends(steps@, throughputs@, epsilon, i),
        },
{
    let count: usize = steps.len();
    let mut i: usize = 0;
    while i < count
        invariant
            i <= count,
            count == steps@.len(),
            count == throughputs@.len(),
            count <= u32::MAX,
            forall|p: int| 0 <= p < i ==> !#[trigger] ends(steps@, throughputs@, epsilon, p),
        decreases count - i,
    {
        let saturated = match steps[i] {
            SliceStep::Saturated => true,
            SliceStep::Integrate(_, _) => false,
        };
        if saturated || float_bits::is_at_most(throughputs[i], epsilon) {
            assert(ends(steps@, throughputs@, epsilon, i as int));
            return Some(i as u32);
        }
        i = i + 1;
    }
    None
}

// ---------------------------------------------------------------------------
// What opaque fog hides

/// A quad over a tile of the screen behind which fog hides everything.
#[derive(Debug, Clone, Copy, PartialEq, Eq, Structural)]
pub struct FogPrimeQuad {
    /// The tile's column in the low half, its row in the high half.
    pub tile: u32,
    pub depth: u32,
}

/// A range of froxel columns, both ends included.
#[derive(Debug, Clone, Copy, PartialEq, Eq, Structural)]
pub struct FroxelRange {
    pub x0: u32,
    pub x1: u32,
    pub y0: u32,
    pub y1: u32,
}

impl FroxelRange {
    /// A column of the range, by its place in a grid of some width.
    pub open spec fn covers(self, at: int, width: int) -> bool {
        self.x0 <= at % width <= self.x1 && self.y0 <= at / width <= self.y1
    }

    /// One of the columns that come before a place, row by row.
    pub open spec fn covers_before(self, at: int, width: int, x: int, y: int) -> bool {
        self.covers(at, width) && (at / width < y || (at / width == y && at % width < x))
    }
}

/// The number of tiles that a length takes.
pub fn tiles_over(length: u32, tile: u32) -> (tiles: u32)
    requires
        tile > 0,
    ensures
        (tiles - 1) * tile < length <= tiles * tile || (length == 0 && tiles == 0),
{
    let whole: u32 = length / tile;
    proof {
        vstd::arithmetic::div_mod::lemma_fundamental_div_mod(length as int, tile as int);
        assert(tile * whole == whole * tile) by (nonlinear_arith);
        assert((whole - 1) * tile == whole * tile - tile) by (nonlinear_arith);
        assert((whole + 1) * tile == whole * tile + tile) by (nonlinear_arith);
        assert(whole <= length) by (nonlinear_arith)
            requires
                whole * tile <= length,
                tile > 0,
        ;
    }
    if length % tile == 0 {
        whole
    } else {
        proof {
            assert(whole < length) by (nonlinear_arith)
                requires
                    whole * tile < length,
                    tile > 0,
                    whole >= 0,
            ;
        }
        whole + 1
    }
}

/// Finds the last of the first opaque slices of a range of columns; none where
/// something passes a column.
pub fn prime_boundary(zero_slices: &Vec<Option<u32>>, width: u32, range: FroxelRange) -> (boundary: Option<u32>)
    requires
        width > 0,
        range.x1 < width,
        (range.y1 + 1) * width <= zero_slices@.len() <= u32::MAX,
    ensures
        boundary is None <==> exists|at: int|
            0 <= at < zero_slices@.len() && range.covers(at, width as int)
                && (#[trigger] zero_slices@[at]) is None,
        boundary matches Some(b) ==> {
            &&& forall|at: int|
                0 <= at < zero_slices@.len() && range.covers(at, width as int)
                    ==> (#[trigger] zero_slices@[at])->0 <= b
            &&& b == 0 || exists|at: int|
                0 <= at < zero_slices@.len() && range.covers(at, width as int)
                    && #[trigger] zero_slices@[at] == Some(b)
        },
{
    let columns: usize = zero_slices.len();
    let mut boundary: u32 = 0;
    let mut y: u32 = range.y0;
    proof {
        assert(range.y1 + 1 <= columns) by (nonlinear_arith)
            requires
                (range.y1 + 1) * width <= columns,
                width > 0,
        ;
    }
    while y <= range.y1
        invariant
            width > 0,
            range.x1 < width,
            range.y0 <= y,
            y <= range.y1 + 1 || y == range.y0,
            range.y1 + 1 <= columns,
            (range.y1 + 1) * width <= columns,
            columns == zero_slices@.len(),
            columns <= u32::MAX,
            forall|at: int|
                0 <= at < columns && range.covers_before(at, width as int, 0, y as int)
                    ==> (#[trigger] zero_slices@[at]) is Some && zero_slices@[at]->0 <= boundary,
            boundary == 0 || exists|at: int|
                0 <= at < columns && range.covers(at, width as int) && #[trigger] zero_slices@[at]
                    == Some(boundary),
        decreases range.y1 + 1 - y,
    {
        let mut x: u32 = range.x0;
        proof {
            assert forall|at: int|
                0 <= at < columns && range.covers_before(
                    at,
                    width as int,
                    x as int,
                    y as int,
                ) implies (#[trigger] zero_slices@[at]) is Some && zero_slices@[at]->0
                <= boundary by {
                assert(range.covers_before(at, width as int, 0, y as int));
            }
        }
        while x <= range.x1
            invariant
                width > 0,
                range.x1 < width,
                range.x0 <= x,
                x <= range.x1 + 1 || x == range.x0,
                range.y0 <= y <= range.y1,
                (range.y1 + 1) * width <= columns,
                columns == zero_slices@.len(),
                columns <= u32::MAX,
                forall|at: int|
                    0 <= at < columns && range.covers_before(at, width as int, x as int, y as int)
                        ==> (#[trigger] zero_slices@[at]) is Some && zero_slices@[at]->0
                        <= boundary,
                boundary == 0 || exists|at: int|
                    0 <= at < columns && range.covers(at, width as int)
                        && #[trigger] zero_slices@[at] == Some(boundary),
            decreases range.x1 + 1 - x,
        {
            proof {
                lemma_tile_place(x as int, y as int, width as int);
                assert(y * width + x < columns) by (nonlinear_arith)
                    requires
                        y <= range.y1,
                        x < width,
                        (range.y1 + 1) * width <= columns,
                ;
                assert(y * width >= 0) by (nonlinear_arith);
            }
            let at: usize = (y * width + x) as usize;
            match zero_slices[at] {
                None => {
                    assert(range.covers(at as int, width as int));
                    return None;
                },
                Some(slice) => {
                    let ghost before = boundary;
                    if boundary < slice {
                        boundary = slice;
                    }
                    proof {
                        assert(range.covers(at as int, width as int));
                        assert(zero_slices@[at as int] == Some(slice));
                        assert forall|c: int|
                            0 <= c < columns && range.covers_before(
                                c,
                                width as int,
                                x + 1,
                                y as int,
                            ) implies (#[trigger] zero_slices@[c]) is Some && zero_slices@[c]->0
                            <= boundary by {
                            if !range.covers_before(c, width as int, x as int, y as int) {
                                vstd::arithmetic::div_mod::lemma_fundamental_div_mod(
                                    c,
                                    width as int,
                                );
                                assert(c == y * width + x) by (nonlinear_arith)
                                    requires
                                        c == width * (c / width as int) + c % width as int,
                                        c / width as int == y,
                                        c % width as int == x,
                                ;
                            }
                        }
                    }
                },
            }
            x = x + 1;
        }
        proof {
            assert forall|at: int|
                0 <= at < columns && range.covers_before(
                    at,
                    width as int,
                    0,
                    y + 1,
                ) implies (#[trigger] zero_slices@[at]) is Some && zero_slices@[at]->0
                <= boundary by {
                assert(range.covers_before(at, width as int, x as int, y as int));
            }
        }
        y = y + 1;
    }
    proof {
        assert forall|at: int|
            0 <= at < columns && range.covers(at, width as int) implies (
        #[trigger] zero_slices@[at]) is Some && zero_slices@[at]->0 <= boundary by {
            assert(range.covers_before(at, width as int, 0, y as int));
        }
    }
    Some(boundary)
}

/// A tile's column and row in one word.
pub open spec fn packed_tile(x: u32, y: u32) -> u32 {
    x | (y << 16)
}

/// A packed tile is unpacked to what it was.
pub proof fn law_tile_unpacks(x: u32, y: u32)
    requires
        x < 65536,
        y < 65536,
    ensures
        packed_tile(x, y) & 0xffff == x,
        packed_tile(x, y) >> 16 == y,
{
    assert((x | (y << 16)) & 0xffff == x && (x | (y << 16)) >> 16 == y) by (bit_vector)
        requires
            x < 65536,
            y < 65536,
    ;
}

/// Adds the quad of a tile, unless it would lie at or behind the far plane.
pub fn fog_prime_spawn(quads: &mut Vec<FogPrimeQuad>, x: u32, y: u32, depth: u32)
    ensures
        final(quads)@ == if float_bits::at_most(depth, 0) {
            old(quads)@
        } else {
            old(quads)@.push(FogPrimeQuad { tile: packed_tile(x, y), depth })
        },
{
    if float_bits::is_at_most(depth, 0) {
        return;
    }
    quads.push(FogPrimeQuad { tile: x | (y << 16), depth });
}

/// The column of a quad's tile.
pub fn quad_column(quad: &FogPrimeQuad) -> (x: u32)
    ensures
        x == quad.tile & 0xffff,
{
    quad.tile & 0xffff
}

/// The row of a quad's tile.
pub fn quad_row(quad: &FogPrimeQuad) -> (y: u32)
    ensures
        y == quad.tile >> 16,
{
    quad.tile >> 16
}

/// A corner of a quad.
#[derive(Debug, Clone, Copy, PartialEq, Eq, Structural)]
pub struct QuadCorner {
    /// On the right side.
    pub right: bool,
    /// On the lower side.
    pub lower: bool,
}

/// The corner of each vertex of a quad's two triangles.
pub open spec fn corner_of(vertex: i32) -> QuadCorner {
    if vertex == 0 || vertex == 3 {
        QuadCorner { right: false, lower: false }
    } else if vertex == 1 {
        QuadCorner { right: false, lower: true }
    } else if vertex == 2 || vertex == 4 {
        QuadCorner { right: true, lower: true }
    } else {
        QuadCorner { right: true, lower: false }
    }
}

/// Finds the corner of a vertex.
pub fn oit_quad_corner(vertex: i32) -> (corner: QuadCorner)
    ensures
        corner == corner_of(vertex),
{
    match vertex {
        0 | 3 => QuadCorner { right: false, lower: false },
        1 => QuadCorner { right: false, lower: true },
        2 | 4 => QuadCorner { right: true, lower: true },
        _ => QuadCorner { right: true, lower: false },
    }
}

/// The two triangles share one diagonal and touch all four corners.
pub proof fn law_triangles_make_a_quad(corner: QuadCorner)
    ensures
        corner_of(0) == corner_of(3),
        corner_of(2) == corner_of(4),
        corner_of(1).right != corner_of(5).right,
        corner_of(1).lower != corner_of(5).lower,
        corner == corner_of(0) || corner == corner_of(1) || corner == corner_of(2) || corner
            == corner_of(5),
{
}

// ---------------------------------------------------------------------------
// Occlusion of the sun and the far end

/// The most taps towards the sun.
pub const OCCLUSION_STEPS_MAX: u32 = 64;

/// The taps towards the sun: none without an occluder or where it has no
/// extent.
pub fn occlusion_steps(texture: u32, steps: u32, max_extent: u32) -> (taps: u32)
    ensures
        taps == if texture == 0 || float_bits::at_most(max_extent, 0) {
            0
        } else if steps < OCCLUSION_STEPS_MAX {
            steps
        } else {
            OCCLUSION_STEPS_MAX
        },
{
    if texture == 0 || float_bits::is_at_most(max_extent, 0) {
        0
    } else if steps < OCCLUSION_STEPS_MAX {
        steps
    } else {
        OCCLUSION_STEPS_MAX
    }
}

/// Whether a coordinate lies in the unit cube.
pub fn in_unit_cube(x: u32, y: u32, z: u32) -> (inside: bool)
    ensures
        inside == (float_bits::at_most(0, x) && float_bits::at_most(0, y) && float_bits::at_most(
            0,
            z,
        ) && float_bits::at_most(x, 0x3f80_0000) && float_bits::at_most(y, 0x3f80_0000)
            && float_bits::at_most(z, 0x3f80_0000)),
{
    float_bits::is_at_most(0, x) && float_bits::is_at_most(0, y) && float_bits::is_at_most(0, z)
        && float_bits::is_at_most(x, 0x3f80_0000) && float_bits::is_at_most(y, 0x3f80_0000)
        && float_bits::is_at_most(z, 0x3f80_0000)
}

/// Whether the taps end here: the tap hit the occluder and nothing is visible
/// any more.
pub fn occlusion_ends(inside: bool, visibility: u32) -> (done: bool)
    ensures
        done == (inside && float_bits::at_most(visibility, 0)),
{
    inside && float_bits::is_at_most(visibility, 0)
}

/// How the fog goes on behind the last slice.
#[derive(Debug, Clone, Copy, PartialEq, Eq, Structural)]
pub enum Beyond {
    /// The surface lies within the slices.
    Nothing,
    /// Up to the surface.
    ToSurface,
    /// Without end.
    Endless,
}

/// Tells how the fog goes on behind the last slice. A pixel without a surface
/// lies at infinity.
pub fn fog_beyond(depth: u32, surface_z: u32, far: u32) -> (beyond: Beyond)
    ensures
        ({
            let z = if float_bits::less(0, depth) {
                surface_z
            } else {
                0x7f80_0000u32
            };
            beyond == if !float_bits::less(far, z) {
                Beyond::Nothing
            } else if float_bits::magnitude(z) < 0x7f80_0000 {
                Beyond::ToSurface
            } else {
                Beyond::Endless
            }
        }),
{
    let z: u32 = if float_bits::is_less(0, depth) {
        surface_z
    } else {
        0x7f80_0000
    };
    if !float_bits::is_less(far, z) {
        Beyond::Nothing
    } else if float_bits::is_finite(z) {
        Beyond::ToSurface
    } else {
        Beyond::Endless
    }
}

/// Whether a pixel has any transparent emission to add.
pub fn oit_resolves(weight: u32) -> (yes: bool)
    ensures
        yes == !float_bits::equal(weight, 0),
{
    !float_bits::is_equal(weight, 0)
}

} // verus!

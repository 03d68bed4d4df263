//! The UI render pass as a list of commands.
//!
//! Batches come in painter's order; there is no depth test. Quads are drawn
//! with six identity indices each, so that the shader sees consecutive vertex
//! numbers.

use vstd::prelude::*;

use crate::abi::Quadruple;

verus! {

/// Quads that one batch can draw at most.
pub const MAX_QUADS: u32 = 65536;

/// Indices per quad.
pub const INDICES_PER_QUAD: u32 = 6;

/// Mask that writes all four channels.
pub const COLOR_WRITE_RGBA: u8 = 0xF;

/// A rectangle of target pixels.
#[derive(Debug, Clone, Copy, PartialEq, Eq)]
pub struct UiScissor {
    pub offset: [i32; 2],
    pub extent: [u32; 2],
}

/// What happens to the target's contents when a pass begins.
#[derive(Debug, Clone, Copy, PartialEq, Eq, Structural)]
pub enum LoadOp {
    Load,
    Clear,
}

/// What happens to the target's contents when a pass ends.
#[derive(Debug, Clone, Copy, PartialEq, Eq, Structural)]
pub enum StoreOp {
    Store,
    Discard,
}

/// The texture that a pass draws to.
#[derive(Debug, Clone, Copy, PartialEq, Eq)]
pub struct UiPassTarget {
    /// Handle of the texture.
    pub texture: u64,
    pub size: [u32; 2],
    pub load_op: LoadOp,
    pub store_op: StoreOp,
    pub clear_color: Quadruple,
}

impl UiPassTarget {
    /// Draws over what the target holds.
    pub fn overlay(texture: u64, size: [u32; 2]) -> (target: UiPassTarget)
        ensures
            target == (UiPassTarget {
                texture,
                size,
                load_op: LoadOp::Load,
                store_op: StoreOp::Store,
                clear_color: Quadruple { x: 0, y: 0, z: 0, w: 0 },
            }),
    {
        UiPassTarget {
            texture,
            size,
            load_op: LoadOp::Load,
            store_op: StoreOp::Store,
            clear_color: Quadruple::zeros(),
        }
    }

    /// Clears the target before drawing.
    pub fn clear(texture: u64, size: [u32; 2], clear_color: Quadruple) -> (target: UiPassTarget)
        ensures
            target == (UiPassTarget {
                texture,
                size,
                load_op: LoadOp::Clear,
                store_op: StoreOp::Store,
                clear_color,
            }),
    {
        UiPassTarget {
            texture,
            size,
            load_op: LoadOp::Clear,
            store_op: StoreOp::Store,
            clear_color,
        }
    }
}

/// One draw of quads.
#[derive(Debug, Clone, Copy, PartialEq, Eq)]
pub struct UiBatch {
    /// GPU address of the draw's parameters.
    pub draw: u64,
    pub quad_count: u32,
    /// Restricts the draw; without one it covers the whole target.
    pub scissor: Option<UiScissor>,
}

/// One draw of shadows.
#[derive(Debug, Clone, Copy, PartialEq, Eq)]
pub struct UiShadowBatch {
    /// GPU address of the draw's parameters.
    pub draw: u64,
    pub quad_count: u32,
    /// Restricts the draw; without one it covers the whole target.
    pub scissor: Option<UiScissor>,
}

/// Factors of a blend equation.
#[derive(Debug, Clone, Copy, PartialEq, Eq, Structural)]
pub enum BlendFactor {
    One,
    SrcAlpha,
    OneMinusSrcAlpha,
}

/// How source and destination are combined.
#[derive(Debug, Clone, Copy, PartialEq, Eq, Structural)]
pub enum BlendOp {
    Add,
}

/// Blending of drawn pixels.
#[derive(Debug, Clone, Copy, PartialEq, Eq, Structural)]
pub struct BlendState {
    pub enable: bool,
    pub color_op: BlendOp,
    pub src_color_factor: BlendFactor,
    pub dst_color_factor: BlendFactor,
    pub alpha_op: BlendOp,
    pub src_alpha_factor: BlendFactor,
    pub dst_alpha_factor: BlendFactor,
    pub color_write_mask: u8,
}

/// Straight-alpha compositing; the alpha channel's source factor is one, so
/// that coverage is not squared.
pub open spec fn straight_alpha() -> BlendState {
    BlendState {
        enable: true,
        color_op: BlendOp::Add,
        src_color_factor: BlendFactor::SrcAlpha,
        dst_color_factor: BlendFactor::OneMinusSrcAlpha,
        alpha_op: BlendOp::Add,
        src_alpha_factor: BlendFactor::One,
        dst_alpha_factor: BlendFactor::OneMinusSrcAlpha,
        color_write_mask: COLOR_WRITE_RGBA,
    }
}

/// Straight-alpha compositing.
pub fn straight_alpha_blend_state() -> (state: BlendState)
    ensures
        state == straight_alpha(),
{
    BlendState {
        enable: true,
        color_op: BlendOp::Add,
        src_color_factor: BlendFactor::SrcAlpha,
        dst_color_factor: BlendFactor::OneMinusSrcAlpha,
        alpha_op: BlendOp::Add,
        src_alpha_factor: BlendFactor::One,
        dst_alpha_factor: BlendFactor::OneMinusSrcAlpha,
        color_write_mask: COLOR_WRITE_RGBA,
    }
}

/// Which pair of shaders draws.
#[derive(Debug, Clone, Copy, PartialEq, Eq, Structural)]
pub enum UiPipeline {
    Quads,
    Shadows,
}

/// One command of a pass.
#[derive(Debug, Clone, Copy, PartialEq, Eq)]
pub enum PassCommand {
    BeginRenderPass(UiPassTarget),
    /// Neither test nor write depth.
    DisableDepth,
    /// Cull back faces.
    CullBackFaces,
    /// Counterclockwise faces are front faces.
    CounterClockwiseFront,
    SetBlend(BlendState),
    SetShaders(UiPipeline),
    SetScissor { offset: [i32; 2], extent: [u32; 2] },
    /// Draw with the first `index_count` identity indices.
    DrawIndexed { draw: u64, index_count: u32 },
    EndRenderPass,
    /// Make the color output visible to later fragment shaders.
    ColorBarrier,
}

/// The commands that begin a pass.
pub open spec fn pass_start(target: UiPassTarget, pipeline: UiPipeline) -> Seq<PassCommand> {
    seq![
        PassCommand::BeginRenderPass(target),
        PassCommand::DisableDepth,
        PassCommand::CullBackFaces,
        PassCommand::CounterClockwiseFront,
        PassCommand::SetBlend(straight_alpha()),
        PassCommand::SetShaders(pipeline),
    ]
}

/// The commands that end a pass.
pub open spec fn pass_end() -> Seq<PassCommand> {
    seq![PassCommand::EndRenderPass, PassCommand::ColorBarrier]
}

/// Whether a command restricts drawing to the scissor, or to the whole target
/// without one.
pub open spec fn restricts(command: PassCommand, scissor: Option<UiScissor>, target: UiPassTarget) -> bool {
    command matches PassCommand::SetScissor { offset, extent } && match scissor {
        Some(scissor) => offset == scissor.offset && extent == scissor.extent,
        None => offset@ == seq![0i32, 0i32] && extent == target.size,
    }
}

/// Whether `commands` draw the first `n` batches in order, each preceded by its
/// scissor; empty batches are left out.
pub open spec fn draws_batches(
    commands: Seq<PassCommand>,
    batches: Seq<UiBatch>,
    target: UiPassTarget,
    n: nat,
) -> bool
    decreases n,
{
    if n == 0 {
        commands.len() == 0
    } else {
        let batch = batches[n - 1];
        if batch.quad_count == 0 {
            draws_batches(commands, batches, target, (n - 1) as nat)
        } else {
            &&& commands.len() >= 2
            &&& draws_batches(commands.take(commands.len() - 2), batches, target, (n - 1) as nat)
            &&& restricts(commands[commands.len() - 2], batch.scissor, target)
            &&& commands.last() == PassCommand::DrawIndexed {
                draw: batch.draw,
                index_count: (batch.quad_count * INDICES_PER_QUAD) as u32,
            }
        }
    }
}

/// Whether a batch can be drawn: it is empty, or has parameters and not too many quads.
pub open spec fn drawable(draw: u64, quad_count: u32) -> bool {
    quad_count == 0 || (draw != 0 && quad_count <= MAX_QUADS)
}

/// The shadow batches as quad batches.
pub open spec fn as_quads(batches: Seq<UiShadowBatch>) -> Seq<UiBatch> {
    batches.map_values(
        |batch: UiShadowBatch|
            UiBatch { draw: batch.draw, quad_count: batch.quad_count, scissor: batch.scissor },
    )
}

/// Whether `commands` are a whole pass over the target.
pub open spec fn is_pass(
    commands: Seq<PassCommand>,
    target: UiPassTarget,
    pipeline: UiPipeline,
    batches: Seq<UiBatch>,
) -> bool {
    exists|middle: Seq<PassCommand>|
        #[trigger] draws_batches(middle, batches, target, batches.len()) && commands == pass_start(
            target,
            pipeline,
        ) + middle + pass_end()
}

/// The commands that begin a pass.
fn begin_pass(target: &UiPassTarget, pipeline: UiPipeline) -> (commands: Vec<PassCommand>)
    ensures
        commands@ == pass_start(*target, pipeline),
{
    let mut commands: Vec<PassCommand> = Vec::new();
    commands.push(PassCommand::BeginRenderPass(*target));
    commands.push(PassCommand::DisableDepth);
    commands.push(PassCommand::CullBackFaces);
    commands.push(PassCommand::CounterClockwiseFront);
    commands.push(PassCommand::SetBlend(straight_alpha_blend_state()));
    commands.push(PassCommand::SetShaders(pipeline));
    assert(commands@ =~= pass_start(*target, pipeline));
    commands
}

/// Ends a pass.
fn end_pass(commands: &mut Vec<PassCommand>)
    ensures
        final(commands)@ == old(commands)@ + pass_end(),
{
    commands.push(PassCommand::EndRenderPass);
    commands.push(PassCommand::ColorBarrier);
    assert(commands@ =~= old(commands)@ + pass_end());
}

/// Draws one batch that is not empty.
fn draw_batch(commands: &mut Vec<PassCommand>, target: &UiPassTarget, batch: &UiBatch)
    requires
        batch.quad_count <= MAX_QUADS,
    ensures
        final(commands)@.len() == old(commands)@.len() + 2,
        final(commands)@.take(old(commands)@.len() as int) == old(commands)@,
        restricts(final(commands)@[old(commands)@.len() as int], batch.scissor, *target),
        final(commands)@.last() == (PassCommand::DrawIndexed {
            draw: batch.draw,
            index_count: (batch.quad_count * INDICES_PER_QUAD) as u32,
        }),
{
    match batch.scissor {
        Some(scissor) => {
            commands.push(
                PassCommand::SetScissor { offset: scissor.offset, extent: scissor.extent },
            );
        },
        None => {
            let offset: [i32; 2] = [0, 0];
            assert(offset@ =~= seq![0i32, 0i32]);
            commands.push(PassCommand::SetScissor { offset, extent: target.size });
        },
    }
    commands.push(
        PassCommand::DrawIndexed {
            draw: batch.draw,
            index_count: batch.quad_count * INDICES_PER_QUAD,
        },
    );
    assert(commands@.take(old(commands)@.len() as int) =~= old(commands)@);
}

/// Records one pass over the target that draws every batch in order.
///
/// A batch without quads is skipped.
pub fn record(target: UiPassTarget, batches: &Vec<UiBatch>) -> (commands: Vec<PassCommand>)
    requires
        target.size@[0] > 0,
        target.size@[1] > 0,
        forall|i: int|
            0 <= i < batches@.len() ==> drawable(
                (#[trigger] batches@[i]).draw,
                batches@[i].quad_count,
            ),
    ensures
        is_pass(commands@, target, UiPipeline::Quads, batches@),
{
    let mut commands: Vec<PassCommand> = begin_pass(&target, UiPipeline::Quads);
    let ghost start = commands@;
    let mut i: usize = 0;
    assert(commands@.skip(start.len() as int) =~= Seq::empty());
    while i < batches.len()
        invariant
            i <= batches@.len(),
            start.len() <= commands@.len(),
            commands@.take(start.len() as int) =~= start,
            draws_batches(commands@.skip(start.len() as int), batches@, target, i as nat),
            forall|i: int|
                0 <= i < batches@.len() ==> drawable(
                    (#[trigger] batches@[i]).draw,
                    batches@[i].quad_count,
                ),
        decreases batches@.len() - i,
    {
        let batch: UiBatch = batches[i];
        if batch.quad_count != 0 {
            let ghost before = commands@;
            draw_batch(&mut commands, &target, &batch);
            proof {
                let middle = commands@.skip(start.len() as int);
                assert(middle.take(middle.len() - 2) =~= before.skip(start.len() as int));
                assert(commands@.take(start.len() as int) =~= before.take(start.len() as int));
            }
        }
        i = i + 1;
    }
    let ghost middle = commands@.skip(start.len() as int);
    end_pass(&mut commands);
    assert(commands@ =~= start + middle + pass_end());
    commands
}

/// Records one pass over the target that draws every shadow batch in order.
///
/// A batch without quads is skipped.
pub fn record_shadows(target: UiPassTarget, batches: &Vec<UiShadowBatch>) -> (commands: Vec<
    PassCommand,
>)
    requires
        target.size@[0] > 0,
        target.size@[1] > 0,
        forall|i: int|
            0 <= i < batches@.len() ==> drawable(
                (#[trigger] batches@[i]).draw,
                batches@[i].quad_count,
            ),
    ensures
        is_pass(commands@, target, UiPipeline::Shadows, as_quads(batches@)),
{
    let mut commands: Vec<PassCommand> = begin_pass(&target, UiPipeline::Shadows);
    let ghost start = commands@;
    let ghost quads = as_quads(batches@);
    let mut i: usize = 0;
    assert(commands@.skip(start.len() as int) =~= Seq::empty());
    while i < batches.len()
        invariant
            i <= batches@.len(),
            quads == as_quads(batches@),
            start.len() <= commands@.len(),
            commands@.take(start.len() as int) =~= start,
            draws_batches(commands@.skip(start.len() as int), quads, target, i as nat),
            forall|i: int|
                0 <= i < batches@.len() ==> drawable(
                    (#[trigger] batches@[i]).draw,
                    batches@[i].quad_count,
                ),
        decreases batches@.len() - i,
    {
        let shadow: UiShadowBatch = batches[i];
        let batch: UiBatch = UiBatch {
            draw: shadow.draw,
            quad_count: shadow.quad_count,
            scissor: shadow.scissor,
        };
        assert(quads[i as int] == batch);
        if batch.quad_count != 0 {
            let ghost before = commands@;
            draw_batch(&mut commands, &target, &batch);
            proof {
                let middle = commands@.skip(start.len() as int);
                assert(middle.take(middle.len() - 2) =~= before.skip(start.len() as int));
                assert(commands@.take(start.len() as int) =~= before.take(start.len() as int));
            }
        }
        i = i + 1;
    }
    let ghost middle = commands@.skip(start.len() as int);
    assert(draws_batches(middle, quads, target, quads.len()));
    end_pass(&mut commands);
    assert(commands@ =~= start + middle + pass_end());
    commands
}

/// The identity indices that all draws use.
pub fn identity_indices() -> (indices: Vec<u32>)
    ensures
        indices@.len() == MAX_QUADS * INDICES_PER_QUAD,
        forall|i: int| 0 <= i < indices@.len() ==> #[trigger] indices@[i] == i,
{
    let count: u32 = MAX_QUADS * INDICES_PER_QUAD;
    let mut indices: Vec<u32> = Vec::new();
    let mut i: u32 = 0;
    while i < count
        invariant
            i <= count,
            indices@.len() == i,
            forall|k: int| 0 <= k < i ==> #[trigger] indices@[k] == k,
        decreases count - i,
    {
        indices.push(i);
        i = i + 1;
    }
    indices
}

/// Every draw stays within the identity indices.
pub proof fn law_draws_stay_within_indices(
    commands: Seq<PassCommand>,
    batches: Seq<UiBatch>,
    target: UiPassTarget,
    n: nat,
    i: int,
)
    requires
        n <= batches.len(),
        draws_batches(commands, batches, target, n),
        forall|k: int|
            0 <= k < batches.len() ==> drawable(
                (#[trigger] batches[k]).draw,
                batches[k].quad_count,
            ),
        0 <= i < commands.len(),
        commands[i] is DrawIndexed,
    ensures
        0 < commands[i]->index_count <= MAX_QUADS * INDICES_PER_QUAD,
        commands[i]->draw != 0,
    decreases n,
{
    let batch = batches[n - 1];
    if batch.quad_count == 0 {
        law_draws_stay_within_indices(commands, batches, target, (n - 1) as nat, i);
    } else if i < commands.len() - 2 {
        law_draws_stay_within_indices(
            commands.take(commands.len() - 2),
            batches,
            target,
            (n - 1) as nat,
            i,
        );
    } else {
        assert(drawable(batch.draw, batch.quad_count));
    }
}

} // verus!

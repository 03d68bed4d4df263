//! From paint streams to draws: the bridge, the pass, icons and cameras.

use asha_ui::abi::{PixelRect, Point, Quadruple, RectBits, UiVertex, UI_FLAG_TEXTURED};
use asha_ui::bridge::{AshaRenderPlugin, AshaRenderPluginExt, ExtractLane, UiBridge};
use asha_ui::camera::{
    camera_system, projection_follows, CameraInput, CameraState, PixelSize, TargetInfo, ViewportRect,
    WindowChanges,
};
use asha_ui::icons::{
    queue_icon_uploads, IconImage, IconRegistry, IconUploadPayload, IconUploadQueue, ICON_PATHS,
};
use asha_ui::paint_batches::{TextRunBatch, UiBatch, UiShadowBatch};
use asha_ui::pass::{
    identity_indices, record, record_shadows, straight_alpha_blend_state, BlendFactor, LoadOp,
    PassCommand, StoreOp, UiBatch as PassBatch, UiPassTarget, UiPipeline, UiScissor,
    UiShadowBatch as PassShadowBatch, MAX_QUADS,
};
use asha_ui::srgb::{linearize_pixels, srgb_to_linear};

fn vertex(flags: u32, tex_slot: u32) -> UiVertex {
    let zero = Point { x: 0, y: 0 };
    let zeros = Quadruple { x: 0, y: 0, z: 0, w: 0 };
    UiVertex {
        pos: zero,
        uv: zero,
        color: zeros,
        color2: zeros,
        radius: zeros,
        border: zeros,
        size: zero,
        point: zero,
        flags,
        tex_slot,
    }
}

// ---------------------------------------------------------------------------
// Draws

#[test]
fn batches_become_ranges_of_the_stream() {
    let mut bridge = UiBridge::new();
    let mut vertices = vec![vertex(0, 0); 12];
    let batches = vec![
        UiBatch { quad_range: 0..1, scissor: None, order: 0 },
        UiBatch { quad_range: 1..1, scissor: None, order: 1 },
        UiBatch {
            quad_range: 1..3,
            scissor: Some(PixelRect { min_x: -2, min_y: 3, max_x: 8, max_y: 1 }),
            order: 2,
        },
    ];
    let shadows = vec![
        UiShadowBatch { quad_range: 1..1, scissor: None, order: 3 },
        UiShadowBatch { quad_range: 1..2, scissor: None, order: 4 },
    ];
    bridge.ingest(&mut vertices, &batches, 8, &shadows, [640, 480]);
    let draws = bridge.batches();
    assert_eq!(draws.len(), 2);
    assert_eq!((draws[0].first_vertex, draws[0].quad_count), (0, 1));
    assert_eq!((draws[1].first_vertex, draws[1].quad_count), (4, 2));
    let scissor = draws[1].scissor.as_ref().unwrap();
    assert_eq!((scissor.offset, scissor.extent), ([-2, 3], [10, 0]));
    let drawn: Vec<(usize, u32)> =
        bridge.shadow_batches().iter().map(|d| (d.first_vertex, d.quad_count)).collect();
    assert_eq!(drawn, vec![(0, 0), (4, 1)]);
}

#[test]
fn text_batches_become_ranges_of_instances() {
    let mut bridge = UiBridge::new();
    let clip = Some(RectBits { min: Point { x: 1, y: 2 }, max: Point { x: 3, y: 4 } });
    let batch = |range: std::ops::Range<usize>| TextRunBatch {
        instance_range: range,
        clip,
        blob_id: 1,
        font_index: 0,
        font_px_per_em: 16.0f32.to_bits(),
        order: 0,
    };
    bridge.ingest_text(&vec![batch(0..3), batch(3..3), batch(3..5)], 5, [640, 480]);
    let draws = bridge.text_batches();
    assert_eq!(draws.len(), 2);
    assert_eq!((draws[1].first_instance, draws[1].glyph_count), (3, 2));
    assert_eq!((draws[1].font_px_per_em, draws[1].clip), (16.0f32.to_bits(), clip));
}

fn payload(logical_slot: u32) -> IconUploadPayload {
    IconUploadPayload { logical_slot, width: 1, height: 1, pixels: vec![1, 2, 3, 4] }
}

#[test]
fn icons_are_uploaded_once_and_then_resolved() {
    let mut bridge = UiBridge::new();
    let payloads = vec![payload(1), payload(2), payload(1)];
    assert!(bridge.needs_sampler(&payloads));
    assert!(!bridge.needs_sampler(&vec![]));
    bridge.set_sampler(9);
    assert!(!bridge.needs_sampler(&payloads));
    assert_eq!(bridge.sampler_slot(), 9);
    assert_eq!(bridge.ingest_icons(&payloads), vec![0, 1]);
    bridge.icon_uploaded(1, 40, 700);
    assert!(bridge.icon_ready(1) && !bridge.icon_ready(2));
    assert_eq!(bridge.ingest_icons(&payloads), vec![1]);

    let mut vertices = vec![
        vertex(UI_FLAG_TEXTURED | 8, 1),
        vertex(UI_FLAG_TEXTURED | 8, 2),
        vertex(8, 1),
    ];
    bridge.ingest(&mut vertices, &vec![], 0, &vec![], [1, 1]);
    assert_eq!((vertices[0].flags, vertices[0].tex_slot), (UI_FLAG_TEXTURED | 8, 40));
    assert_eq!((vertices[1].flags, vertices[1].tex_slot), (8, 0));
    assert_eq!((vertices[2].flags, vertices[2].tex_slot), (8, 1));
    assert_eq!(bridge.free(), vec![700]);
}

#[test]
fn lanes_are_extracted_in_order() {
    let plugin = AshaRenderPlugin::new().extract_icons().extract_ui().extract_text();
    assert_eq!(plugin.extracted.len(), 11);
    assert_eq!(plugin.extracted[0], ExtractLane::IconUploads);
    assert_eq!(plugin.extracted[1], ExtractLane::UiVertices);
    assert_eq!(plugin.extracted[10], ExtractLane::GlyphBandCurveIndices);
}

// ---------------------------------------------------------------------------
// The pass

#[test]
fn passes_set_their_state_and_draw_their_batches() {
    let target = UiPassTarget::overlay(5, [640, 480]);
    assert_eq!((target.load_op, target.store_op), (LoadOp::Load, StoreOp::Store));
    let scissor = UiScissor { offset: [1, 2], extent: [3, 4] };
    let batches = vec![
        PassBatch { draw: 0, quad_count: 0, scissor: None },
        PassBatch { draw: 11, quad_count: 2, scissor: Some(scissor) },
        PassBatch { draw: 12, quad_count: 1, scissor: None },
    ];
    let commands = record(target, &batches);
    assert_eq!(
        commands,
        vec![
            PassCommand::BeginRenderPass(target),
            PassCommand::DisableDepth,
            PassCommand::CullBackFaces,
            PassCommand::CounterClockwiseFront,
            PassCommand::SetBlend(straight_alpha_blend_state()),
            PassCommand::SetShaders(UiPipeline::Quads),
            PassCommand::SetScissor { offset: [1, 2], extent: [3, 4] },
            PassCommand::DrawIndexed { draw: 11, index_count: 12 },
            PassCommand::SetScissor { offset: [0, 0], extent: [640, 480] },
            PassCommand::DrawIndexed { draw: 12, index_count: 6 },
            PassCommand::EndRenderPass,
            PassCommand::ColorBarrier,
        ]
    );
}

#[test]
fn shadow_passes_differ_in_their_shaders() {
    let black = Quadruple { x: 0, y: 0, z: 0, w: 0 };
    let target = UiPassTarget::clear(5, [8, 8], black);
    assert_eq!(target.load_op, LoadOp::Clear);
    let commands =
        record_shadows(target, &vec![PassShadowBatch { draw: 3, quad_count: 1, scissor: None }]);
    assert!(commands.contains(&PassCommand::SetShaders(UiPipeline::Shadows)));
    assert!(commands.contains(&PassCommand::DrawIndexed { draw: 3, index_count: 6 }));
}

#[test]
fn alpha_is_straight() {
    let state = straight_alpha_blend_state();
    assert!(state.enable);
    assert_eq!(state.src_color_factor, BlendFactor::SrcAlpha);
    assert_eq!(state.dst_color_factor, BlendFactor::OneMinusSrcAlpha);
    assert_eq!(state.src_alpha_factor, BlendFactor::One);
}

#[test]
fn indices_count_up() {
    let indices = identity_indices();
    assert_eq!(indices.len(), MAX_QUADS as usize * 6);
    assert_eq!((indices[0], indices[77]), (0, 77));
}

// ---------------------------------------------------------------------------
// Icons

fn image(width: u32, height: u32, bytes: usize) -> IconImage {
    IconImage { width, height, data: Some(vec![7; bytes]) }
}

#[test]
fn uploads_hold_four_bytes_per_pixel() {
    let payload = IconUploadPayload::from_image(2, &image(2, 3, 24)).unwrap();
    assert_eq!((payload.logical_slot, payload.width, payload.height), (2, 2, 3));
    assert_eq!(payload.pixels, vec![7; 24]);
    assert!(IconUploadPayload::from_image(2, &image(2, 3, 23)).is_none());
    assert!(IconUploadPayload::from_image(2, &image(0, 3, 0)).is_none());
    let dropped = IconImage { width: 2, height: 3, data: None };
    assert!(IconUploadPayload::from_image(2, &dropped).is_none());
}

#[test]
fn icons_are_queued_once_they_are_loaded() {
    assert_eq!(ICON_PATHS.len(), 3);
    let mut registry = IconRegistry::new(vec![70, 71, 72]);
    assert_eq!(registry.logical_slot(70), Some(1));
    assert_eq!(registry.logical_slot(72), Some(3));
    assert_eq!(registry.logical_slot(73), None);
    let mut queue = IconUploadQueue::default();
    queue_icon_uploads(&mut registry, &mut queue, &vec![None, Some(image(1, 1, 4)), None]);
    assert_eq!(queue.pending().len(), 1);
    assert_eq!(queue.pending()[0].logical_slot, 2);
    queue_icon_uploads(
        &mut registry,
        &mut queue,
        &vec![Some(image(1, 1, 4)), Some(image(1, 1, 4)), Some(image(1, 1, 3))],
    );
    assert_eq!(queue.pending().len(), 1);
    assert_eq!(queue.pending()[0].logical_slot, 1);
}

#[test]
fn bytes_are_linearized_to_the_nearest() {
    for byte in 0..=255u8 {
        let c = byte as f64 / 255.0;
        let linear = if c <= 0.04045 { c / 12.92 } else { ((c + 0.055) / 1.055).powf(2.4) };
        assert_eq!(srgb_to_linear(byte), (linear * 255.0).round() as u8, "{byte}");
    }
    assert_eq!(
        linearize_pixels(&vec![255, 128, 0, 128, 10, 188, 255, 1]),
        vec![255, srgb_to_linear(128), 0, 128, srgb_to_linear(10), srgb_to_linear(188), 255, 1]
    );
}

#[test]
fn linearizing_keeps_the_order_and_never_brightens() {
    for byte in 0..255u8 {
        assert!(srgb_to_linear(byte) <= srgb_to_linear(byte + 1));
        assert!(srgb_to_linear(byte) <= byte);
    }
    assert_eq!((srgb_to_linear(0), srgb_to_linear(255)), (0, 255));
}

// ---------------------------------------------------------------------------
// Cameras

fn rect(x: u32, y: u32, width: u32, height: u32) -> ViewportRect {
    ViewportRect { x, y, width, height }
}

fn unchanged() -> WindowChanges {
    WindowChanges { created: vec![], resized: vec![], rescaled: vec![] }
}

fn input() -> CameraInput {
    CameraInput {
        window: Some(1),
        is_added: true,
        projection_changed: false,
        sub_view_changed: false,
        window_info: Some(info(1.0)),
        rescaled_viewport: rect(0, 0, 0, 0),
    }
}

fn info(scale: f32) -> TargetInfo {
    TargetInfo {
        physical_size: PixelSize { width: 100, height: 50 },
        scale_factor: scale.to_bits(),
    }
}

fn refreshed(viewport: Option<ViewportRect>) -> Option<ViewportRect> {
    let mut camera = CameraState { viewport, old_viewport_size: None, target_info: None };
    assert!(camera_system(&mut camera, input(), &unchanged()));
    camera.viewport
}

#[test]
fn viewports_are_held_within_their_window() {
    assert_eq!(refreshed(None), None);
    assert_eq!(refreshed(Some(rect(10, 10, 20, 20))), Some(rect(10, 10, 20, 20)));
    assert_eq!(refreshed(Some(rect(90, 10, 20, 20))), Some(rect(90, 10, 10, 20)));
    assert_eq!(refreshed(Some(rect(10, 40, 200, 20))), Some(rect(10, 40, 90, 10)));
    assert_eq!(refreshed(Some(rect(150, 10, 20, 20))), Some(rect(99, 10, 1, 20)));
}

#[test]
fn cameras_refresh_when_something_changed() {
    let still = CameraInput { is_added: false, ..input() };
    let mut camera = CameraState { viewport: None, old_viewport_size: None, target_info: None };
    assert!(!camera_system(&mut camera, still, &unchanged()));
    let resized = WindowChanges { created: vec![], resized: vec![2, 1], rescaled: vec![] };
    assert_eq!(camera.target_info, None);
    assert!(camera_system(&mut camera, still, &resized));
    assert_eq!(camera.target_info, Some(info(1.0)));
    let elsewhere = WindowChanges { created: vec![2], resized: vec![], rescaled: vec![] };
    assert!(!camera_system(&mut camera, still, &elsewhere));
    let projected = CameraInput { projection_changed: true, ..still };
    assert!(camera_system(&mut camera, projected, &unchanged()));
    let offscreen = CameraInput { window: None, ..input() };
    assert!(!camera_system(&mut camera, offscreen, &unchanged()));
    let closed = CameraInput { window_info: None, ..input() };
    assert!(!camera_system(&mut camera, closed, &unchanged()));
    assert_eq!(camera.target_info, Some(info(1.0)));
    // What is not refreshed need not be sound.
    let beyond = Some(rect(u32::MAX, 0, 2, 0));
    let mut camera = CameraState { viewport: beyond, old_viewport_size: None, target_info: None };
    assert!(!camera_system(&mut camera, closed, &unchanged()));
    assert_eq!(camera.viewport, beyond);
}

#[test]
fn viewports_follow_the_scale_of_their_window() {
    let mut camera = CameraState {
        viewport: Some(rect(5, 5, 10, 10)),
        old_viewport_size: Some(PixelSize { width: 10, height: 10 }),
        target_info: Some(info(1.0)),
    };
    let doubled = CameraInput {
        is_added: false,
        window_info: Some(info(2.0)),
        rescaled_viewport: rect(10, 10, 20, 20),
        ..input()
    };
    assert!(!camera_system(&mut camera, doubled, &unchanged()));
    assert_eq!(camera.viewport, Some(rect(5, 5, 10, 10)));
    let rescaled = WindowChanges { created: vec![], resized: vec![], rescaled: vec![1] };
    assert!(camera_system(&mut camera, doubled, &rescaled));
    assert_eq!(camera.viewport, Some(rect(10, 10, 20, 20)));
    assert_eq!(camera.target_info, Some(info(2.0)));
    assert_eq!(camera.old_viewport_size, Some(PixelSize { width: 20, height: 20 }));
    // Once it fits, it stays.
    assert!(!camera_system(&mut camera, doubled, &unchanged()));
    assert!(projection_follows(1.0f32.to_bits(), 2.0f32.to_bits()));
    assert!(!projection_follows(1.0f32.to_bits(), (-0.0f32).to_bits()));
}

#[test]
fn copies_of_uploads_keep_every_field() {
    let payload =
        IconUploadPayload { logical_slot: 3, width: 1, height: 2, pixels: vec![1, 2, 3, 4, 5, 6, 7, 8] };
    let copy = payload.clone();
    assert_eq!(copy.logical_slot, 3);
    assert_eq!((copy.width, copy.height), (1, 2));
    assert_eq!(copy.pixels, payload.pixels);
}

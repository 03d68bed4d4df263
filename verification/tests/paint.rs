//! The paint walker on hand-built layouts.

use asha_ui::abi::{
    CornerPoints, CornerValues, Point, Quadruple, RectBits, UI_FLAG_BORDER_ANY, UI_FLAG_FILL_END,
    UI_FLAG_FILL_START, UI_FLAG_GRADIENT, UI_FLAG_GRADIENT_SPACE_HSLA, UI_FLAG_TEXTURED,
    UI_MODE_ALPHA_PATTERN, UI_MODE_COLOR_PLANE, UI_MODE_MASK, UI_MODE_SHIFT, UI_PLANE_HL,
};
use asha_ui::glyphs::CachedGlyph;
use asha_ui::gradient::{resolve_gradient_stops, StopPosition};
use asha_ui::icons::IconRegistry;
use asha_ui::material::{ColorPlaneAxes, UiMaterialData, UiMaterialTag};
use asha_ui::paint::{
    paint_ui_system, BackgroundRow, BorderColors, BorderRow, Decoration, EditableTextRow, GlyphRun,
    GradientLayer, GradientRow, GradientStop, ImageRow, MaterialRow, NodeShape, OutlineShape,
    RunGlyph, ShadowLayer, ShadowRow, StrokeShape, TextCursor, TextPaintList, TextRow, UiFrame,
    UiPaintList,
};
use asha_ui::paint_batches::UiShadowBatch;
use asha_ui::paint_items::{corners_and_clip, ClipTest, QuadCorners};
use asha_ui::painter_order::{painter_order, z_order, PaintLayer};
use asha_ui::stack_z_offsets;
use asha_ui::widgets::color_plane::{plane_material, FeathersColorPlane};
use asha_ui::widgets::plugins::AlphaPatternPlugin;
use asha_ui::widgets::styles::{set_button_styles, ButtonVariant, StyleToken};
use asha_ui::widgets::theme::{Rgba, ThemeToken, UiTheme};

// ---------------------------------------------------------------------------
// Geometry

fn f(bits: u32) -> f32 {
    f32::from_bits(bits)
}

fn point(x: f32, y: f32) -> Point {
    Point { x: x.to_bits(), y: y.to_bits() }
}

fn quad(v: [f32; 4]) -> Quadruple {
    Quadruple { x: v[0].to_bits(), y: v[1].to_bits(), z: v[2].to_bits(), w: v[3].to_bits() }
}

fn rgba(q: Quadruple) -> [f32; 4] {
    [f(q.x), f(q.y), f(q.z), f(q.w)]
}

fn xy(p: Point) -> [f32; 2] {
    [f(p.x), f(p.y)]
}

#[derive(Clone, Copy)]
struct Affine {
    x_axis: [f32; 2],
    y_axis: [f32; 2],
    translation: [f32; 2],
}

const IDENTITY: Affine =
    Affine { x_axis: [1.0, 0.0], y_axis: [0.0, 1.0], translation: [0.0, 0.0] };

impl Affine {
    fn moved(x: f32, y: f32) -> Affine {
        Affine { translation: [x, y], ..IDENTITY }
    }

    fn turned(angle: f32, x: f32, y: f32) -> Affine {
        let (s, c) = angle.sin_cos();
        Affine { x_axis: [c, s], y_axis: [-s, c], translation: [x, y] }
    }

    fn vector(&self, v: [f32; 2]) -> [f32; 2] {
        [
            self.x_axis[0] * v[0] + self.y_axis[0] * v[1],
            self.x_axis[1] * v[0] + self.y_axis[1] * v[1],
        ]
    }

    fn apply(&self, v: [f32; 2]) -> [f32; 2] {
        let w = self.vector(v);
        [w[0] + self.translation[0], w[1] + self.translation[1]]
    }
}

const CORNERS: [[f32; 2]; 4] = [[-0.5, -0.5], [0.5, -0.5], [0.5, 0.5], [-0.5, 0.5]];

fn corner_points(v: [[f32; 2]; 4]) -> CornerPoints {
    CornerPoints {
        top_left: point(v[0][0], v[0][1]),
        top_right: point(v[1][0], v[1][1]),
        bottom_right: point(v[2][0], v[2][1]),
        bottom_left: point(v[3][0], v[3][1]),
    }
}

fn clipped(transform: Affine, size: [f32; 2], clip: Option<[f32; 4]>) -> Option<QuadCorners> {
    let points = CORNERS.map(|c| [c[0] * size[0], c[1] * size[1]]);
    let positions = points.map(|p| transform.apply(p));
    let corners =
        QuadCorners { positions: corner_points(positions), points: corner_points(points) };
    let test = clip.map(|[x0, y0, x1, y1]| {
        let diff = [
            [(x0 - positions[0][0]).max(0.0), (y0 - positions[0][1]).max(0.0)],
            [(x1 - positions[1][0]).min(0.0), (y0 - positions[1][1]).max(0.0)],
            [(x1 - positions[2][0]).min(0.0), (y1 - positions[2][1]).min(0.0)],
            [(x0 - positions[3][0]).max(0.0), (y1 - positions[3][1]).min(0.0)],
        ];
        let add = |v: [[f32; 2]; 4]| {
            let mut out = v;
            for i in 0..4 {
                out[i] = [v[i][0] + diff[i][0], v[i][1] + diff[i][1]];
            }
            corner_points(out)
        };
        let extent = transform.vector(size).map(f32::abs);
        let low = |i: usize| positions.iter().map(|p| p[i]).fold(f32::INFINITY, f32::min);
        let high = |i: usize| positions.iter().map(|p| p[i]).fold(f32::NEG_INFINITY, f32::max);
        ClipTest {
            clip: RectBits { min: point(x0, y0), max: point(x1, y1) },
            shear: transform.x_axis[1].to_bits(),
            bounds: RectBits { min: point(low(0), low(1)), max: point(high(0), high(1)) },
            overlap: point(diff[0][0] - diff[1][0], diff[1][1] - diff[2][1]),
            extent: point(extent[0], extent[1]),
            displaced: QuadCorners { positions: add(positions), points: add(points) },
        }
    });
    corners_and_clip(corners, test)
}

fn shape(size: [f32; 2], stack_index: u32) -> NodeShape {
    NodeShape {
        stack_index,
        visible: true,
        empty: false,
        size: point(size[0], size[1]),
        radius: quad([0.0; 4]),
        border: quad([0.0; 4]),
        corners: clipped(IDENTITY, size, None),
    }
}

fn frame() -> UiFrame {
    UiFrame {
        backgrounds: vec![],
        shadows: vec![],
        borders: vec![],
        gradients: vec![],
        images: vec![],
        materials: vec![],
        texts: vec![],
        editable_texts: vec![],
        focus: None,
    }
}

fn painted(frame: &UiFrame, icons: &IconRegistry) -> (UiPaintList, TextPaintList) {
    let mut list = UiPaintList::default();
    let mut text = TextPaintList::default();
    paint_ui_system(&mut list, &mut text, frame, icons);
    (list, text)
}

fn no_icons() -> IconRegistry {
    IconRegistry::from_slots(vec![])
}

/// A shadow as its style resolves it, in pixels.
fn shadow(
    node_size: [f32; 2],
    node_radius: f32,
    color: [f32; 4],
    offset: [f32; 2],
    spread_x: f32,
    blur: f32,
) -> ShadowLayer {
    let ratio = (spread_x + node_size[0]) / node_size[0];
    let size = [node_size[0] + spread_x, node_size[1] + (node_size[1] * ratio - node_size[1])];
    let bounds = [size[0] + 6.0 * blur, size[1] + 6.0 * blur];
    let corners = clipped(Affine::moved(offset[0], offset[1]), bounds, None);
    let uv = match corners {
        Some(c) => {
            let at = |p: Point| point(f(p.x) / bounds[0] + 0.5, f(p.y) / bounds[1] + 0.5);
            CornerPoints {
                top_left: at(c.points.top_left),
                top_right: at(c.points.top_right),
                bottom_right: at(c.points.bottom_right),
                bottom_left: at(c.points.bottom_left),
            }
        }
        None => corner_points([[0.0; 2]; 4]),
    };
    ShadowLayer {
        color: quad(color),
        size: point(size[0], size[1]),
        bounds: point(bounds[0], bounds[1]),
        radius: quad([node_radius * ratio; 4]),
        blur: blur.to_bits(),
        uv,
        corners,
    }
}

/// A linear gradient's stops, each with its parameter at the corners.
fn stops(
    size: [f32; 2],
    start: [f32; 2],
    direction: [f32; 2],
    colors: &[([f32; 4], [f32; 4], f32)],
) -> Vec<GradientStop> {
    let points = CORNERS.map(|c| [c[0] * size[0], c[1] * size[1]]);
    let mut out = vec![];
    for i in 0..colors.len() {
        let from = colors[i].2;
        let to = if i + 1 < colors.len() { colors[i + 1].2 } else { from };
        let t = |k: usize| {
            let distance = (points[k][0] - start[0]) * direction[0]
                + (points[k][1] - start[1]) * direction[1];
            ((distance - from) / (to - from)).to_bits()
        };
        out.push(GradientStop {
            color: quad(colors[i].0),
            linear: quad(colors[i].1),
            position: from.to_bits(),
            t: CornerValues {
                top_left: t(0),
                top_right: t(1),
                bottom_right: t(2),
                bottom_left: t(3),
            },
        });
    }
    out
}

const EPS: f32 = 1e-4;

fn approx(a: f32, b: f32) -> bool {
    (a - b).abs() < EPS
}

fn approx_vec2(a: Point, b: [f32; 2]) -> bool {
    approx(f(a.x), b[0]) && approx(f(a.y), b[1])
}

// ---------------------------------------------------------------------------
// Quads

#[test]
fn background_then_border_then_outline_in_stable_z_order() {
    let size = [100.0, 80.0];
    let node = NodeShape { border: quad([4.0; 4]), ..shape(size, 0) };
    let outlined_size = [size[0] + 2.0 * (1.0 + 3.0), size[1] + 2.0 * (1.0 + 3.0)];
    let green = quad([0.0, 1.0, 0.0, 1.0]);
    let mut frame = frame();
    frame.backgrounds.push(BackgroundRow { node, color: quad([1.0, 0.0, 0.0, 1.0]) });
    frame.borders.push(BorderRow {
        node,
        border: Some(BorderColors { left: green, top: green, right: green, bottom: green }),
        outline: Some(OutlineShape {
            width: 3.0f32.to_bits(),
            color: quad([0.0, 0.0, 1.0, 1.0]),
            size: point(outlined_size[0], outlined_size[1]),
            radius: quad([0.0; 4]),
            corners: clipped(IDENTITY, outlined_size, None),
        }),
    });

    let (list, _) = painted(&frame, &no_icons());
    assert_eq!(list.quad_count, 3, "background + border + outline");

    let bg = &list.vertices[0];
    assert_eq!(bg.flags, 0);
    assert!(approx_vec2(bg.size, size));
    assert!(approx(rgba(bg.color)[0], 1.0) && approx(rgba(bg.color)[1], 0.0));

    let border = &list.vertices[4];
    assert_eq!(border.flags & UI_FLAG_BORDER_ANY, UI_FLAG_BORDER_ANY);
    assert!(approx_vec2(border.size, size));
    assert!(approx(rgba(border.color)[1], 1.0) && approx(rgba(border.color)[0], 0.0));

    let outline = &list.vertices[8];
    assert_eq!(outline.flags & UI_FLAG_BORDER_ANY, UI_FLAG_BORDER_ANY);
    assert!(approx_vec2(outline.size, outlined_size));
    assert!(approx(rgba(outline.color)[2], 1.0) && approx(rgba(outline.color)[0], 0.0));
    assert!(approx(rgba(outline.border)[0], 3.0));
}

#[test]
fn emission_order_follows_stack_index_not_spawn_order() {
    let mut frame = frame();
    frame.backgrounds.push(BackgroundRow {
        node: shape([10.0, 10.0], 5),
        color: quad([1.0, 0.0, 0.0, 1.0]),
    });
    frame.backgrounds.push(BackgroundRow {
        node: shape([10.0, 10.0], 0),
        color: quad([0.0, 0.0, 1.0, 1.0]),
    });

    let (list, _) = painted(&frame, &no_icons());
    assert_eq!(list.quad_count, 2);
    assert!(approx(rgba(list.vertices[0].color)[2], 1.0), "B (blue) emitted first");
    assert!(approx(rgba(list.vertices[4].color)[0], 1.0), "A (red) emitted second");
}

#[test]
fn clipped_node_displaces_corners_and_point() {
    let size = [100.0, 100.0];
    let node = NodeShape {
        corners: clipped(Affine::moved(50.0, 50.0), size, Some([0.0, 0.0, 60.0, 100.0])),
        ..shape(size, 0)
    };
    let mut frame = frame();
    frame.backgrounds.push(BackgroundRow { node, color: quad([1.0, 1.0, 1.0, 1.0]) });

    let (list, _) = painted(&frame, &no_icons());
    assert_eq!(list.quad_count, 1);
    let verts = &list.vertices[0..4];
    assert!(approx(xy(verts[0].pos)[0], 0.0), "TL x unclipped");
    assert!(approx(xy(verts[1].pos)[0], 60.0), "TR x clamped to clip.max.x");
    assert!(approx(xy(verts[2].pos)[0], 60.0), "BR x clamped to clip.max.x");
    assert!(approx(xy(verts[3].pos)[0], 0.0), "BL x unclipped");
    assert!(approx(xy(verts[1].point)[0], 10.0), "TR point.x displaced with pos");
    assert!(approx(xy(verts[0].point)[0], -50.0), "TL point.x untouched");
}

#[test]
fn rotated_node_transforms_correctly_and_skips_clip_displacement() {
    let size = [20.0, 10.0];
    let transform = Affine::turned(std::f32::consts::FRAC_PI_2, 100.0, 100.0);
    let node = NodeShape {
        corners: clipped(transform, size, Some([0.0, 0.0, 1000.0, 1000.0])),
        ..shape(size, 0)
    };
    let mut frame = frame();
    frame.backgrounds.push(BackgroundRow { node, color: quad([1.0; 4]) });

    let (list, _) = painted(&frame, &no_icons());
    assert_eq!(list.quad_count, 1);
    let verts = &list.vertices[0..4];
    let hand_computed = transform.apply([-10.0, -5.0]);
    assert!(approx_vec2(verts[0].pos, hand_computed), "TL matches hand-computed Affine2");
    assert!(approx_vec2(verts[0].point, [-10.0, -5.0]));
    assert!(approx_vec2(verts[2].point, [10.0, 5.0]));
}

#[test]
fn rotated_node_outside_the_clip_is_dropped() {
    let transform = Affine::turned(std::f32::consts::FRAC_PI_2, 100.0, 100.0);
    assert!(clipped(transform, [20.0, 10.0], Some([0.0, 0.0, 95.0, 90.0])).is_none());
    assert!(clipped(transform, [20.0, 10.0], Some([0.0, 0.0, 95.1, 90.1])).is_some());
}

#[test]
fn unrotated_node_outside_the_clip_is_dropped() {
    let transform = Affine::moved(50.0, 50.0);
    assert!(clipped(transform, [10.0, 10.0], Some([0.0, 0.0, 45.0, 100.0])).is_none());
    assert!(clipped(transform, [10.0, 10.0], Some([0.0, 0.0, 46.0, 100.0])).is_some());
}

#[test]
fn z_offsets_match_reference_table() {
    let unit = (2.0f64).powi(-30);
    let same = |units: i64, value: f32| assert_eq!(units as f64 * unit, value as f64);
    same(stack_z_offsets::BOX_SHADOW, -0.1);
    same(stack_z_offsets::BACKGROUND, 0.0);
    same(stack_z_offsets::BORDER, 0.01);
    same(stack_z_offsets::GRADIENT, 0.02);
    same(stack_z_offsets::BORDER_GRADIENT, 0.03);
    same(stack_z_offsets::IMAGE, 0.04);
    same(stack_z_offsets::MATERIAL, 0.05);
    same(stack_z_offsets::TEXT_SELECTION, 0.055);
    same(stack_z_offsets::TEXT, 0.06);
    same(stack_z_offsets::TEXT_STRIKETHROUGH, 0.07);
    same(stack_z_offsets::TEXT_CURSOR, 0.08);
}

#[test]
fn depths_round_as_single_precision_sums_do() {
    let unit = (2.0f64).powi(-30);
    let layers = [
        (PaintLayer::BoxShadow, -0.1f32),
        (PaintLayer::Background, 0.0),
        (PaintLayer::Border, 0.01),
        (PaintLayer::Gradient, 0.02),
        (PaintLayer::Image, 0.04),
        (PaintLayer::Material, 0.05),
        (PaintLayer::TextSelection, 0.055),
        (PaintLayer::Text, 0.06),
        (PaintLayer::TextStrikethrough, 0.07),
        (PaintLayer::TextCursor, 0.08),
    ];
    let stacks = [0u32, 1, 2, 3, 7, 8, 100, 1000, 65534, 65535, 65536, 1 << 20, 16777217, u32::MAX];
    for (layer, offset) in layers {
        for stack in stacks {
            let expected = stack as f32 + offset;
            assert_eq!(z_order(stack, layer) as f64 * unit, expected as f64, "{stack} {offset}");
        }
    }
}

#[test]
fn painter_order_is_stable() {
    assert_eq!(painter_order(&vec![3, 1, 2, 1, 3]), vec![1, 3, 2, 0, 4]);
    assert_eq!(painter_order(&vec![]), Vec::<usize>::new());
}

#[test]
fn layers_of_lower_nodes_stay_below() {
    assert!(z_order(1, PaintLayer::BoxShadow) > z_order(0, PaintLayer::TextCursor));
    assert!(z_order(65534, PaintLayer::Text) < z_order(65534, PaintLayer::TextStrikethrough));
    let mut below = z_order(131070, PaintLayer::TextCursor);
    for layer in [
        PaintLayer::BoxShadow,
        PaintLayer::Background,
        PaintLayer::Border,
        PaintLayer::Gradient,
        PaintLayer::BorderGradient,
        PaintLayer::Image,
        PaintLayer::Material,
        PaintLayer::TextSelection,
        PaintLayer::Text,
        PaintLayer::TextStrikethrough,
        PaintLayer::TextCursor,
    ] {
        assert!(below < z_order(131071, layer));
        below = z_order(131071, layer);
    }
    assert_eq!(z_order(131072, PaintLayer::Border), z_order(131072, PaintLayer::Gradient));
}

#[test]
fn invisible_node_is_skipped() {
    let mut frame = frame();
    frame.backgrounds.push(BackgroundRow {
        node: NodeShape { visible: false, ..shape([10.0, 10.0], 0) },
        color: quad([1.0; 4]),
    });
    let (list, _) = painted(&frame, &no_icons());
    assert_eq!(list.quad_count, 0);
    assert!(list.batches.is_empty());
}

#[test]
fn border_edges_are_grouped_by_color() {
    let red = quad([1.0, 0.0, 0.0, 1.0]);
    let blue = quad([0.0, 0.0, 1.0, 1.0]);
    let clear = quad([0.0; 4]);
    let mut frame = frame();
    frame.borders.push(BorderRow {
        node: NodeShape { border: quad([1.0; 4]), ..shape([10.0, 10.0], 0) },
        border: Some(BorderColors { left: red, top: blue, right: red, bottom: clear }),
        outline: None,
    });
    let (list, _) = painted(&frame, &no_icons());
    assert_eq!(list.quad_count, 2);
    assert_eq!(list.vertices[0].flags & UI_FLAG_BORDER_ANY, 0x2 | 0x8);
    assert_eq!(list.vertices[4].flags & UI_FLAG_BORDER_ANY, 0x4);
}

// ---------------------------------------------------------------------------
// Gradients

#[test]
fn three_stop_linear_gradient_emits_two_segments_with_correct_t() {
    let size = [100.0, 100.0];
    let red = [1.0, 0.0, 0.0, 1.0];
    let green = [0.0, 1.0, 0.0, 1.0];
    let blue = [0.0, 0.0, 1.0, 1.0];
    // Towards the bottom, from the top-left corner.
    let placed = stops(
        size,
        [-50.0, -50.0],
        [0.0, 1.0],
        &[(red, red, 0.0), (green, green, 50.0), (blue, blue, 100.0)],
    );
    let mut frame = frame();
    frame.gradients.push(GradientRow {
        node: shape(size, 0),
        layers: vec![GradientLayer::Linear { stops: placed, hsla: false }],
    });

    let (list, _) = painted(&frame, &no_icons());
    assert_eq!(list.quad_count, 2, "one quad per adjacent stop pair");
    for v in &list.vertices[0..8] {
        assert_ne!(v.flags & UI_FLAG_GRADIENT, 0);
        assert_eq!(v.flags & UI_FLAG_GRADIENT_SPACE_HSLA, 0, "Srgba space, no HSLA flag");
    }
    let seg0 = &list.vertices[0..4];
    assert!(approx(f(seg0[0].uv.x), 0.0), "seg0 TL t");
    assert!(approx(f(seg0[1].uv.x), 0.0), "seg0 TR t");
    assert!(approx(f(seg0[2].uv.x), 2.0), "seg0 BR t");
    assert!(approx(f(seg0[3].uv.x), 2.0), "seg0 BL t");
    assert_eq!(seg0[0].flags & UI_FLAG_FILL_START, 0);
    let seg1 = &list.vertices[4..8];
    assert!(approx(f(seg1[0].uv.x), -1.0), "seg1 TL t");
    assert!(approx(f(seg1[2].uv.x), 1.0), "seg1 BR t");
    assert_ne!(seg1[0].flags & UI_FLAG_FILL_END, 0);
}

#[test]
fn hsla_gradient_space_sets_the_hsla_flag() {
    let size = [50.0, 50.0];
    let red = [1.0, 0.0, 0.0, 1.0];
    let blue = [0.0, 0.0, 1.0, 1.0];
    let placed = stops(
        size,
        [-25.0, 25.0],
        [1.0, 0.0],
        &[([0.0, 1.0, 0.5, 1.0], red, 0.0), ([240.0 / 360.0, 1.0, 0.5, 1.0], blue, 50.0)],
    );
    let mut frame = frame();
    frame.gradients.push(GradientRow {
        node: shape(size, 0),
        layers: vec![GradientLayer::Linear { stops: placed, hsla: true }],
    });
    let (list, _) = painted(&frame, &no_icons());
    assert_eq!(list.quad_count, 1);
    for v in &list.vertices {
        assert_ne!(v.flags & UI_FLAG_GRADIENT_SPACE_HSLA, 0);
    }
    let start = rgba(list.vertices[0].color);
    assert!(approx(start[0], 0.0));
    assert!(approx(start[1], 1.0));
    assert!(approx(start[2], 0.5));
}

#[test]
fn gradient_of_one_stop_is_a_plain_quad() {
    let size = [50.0, 50.0];
    let red = [1.0, 0.0, 0.0, 1.0];
    let mut frame = frame();
    frame.gradients.push(GradientRow {
        node: shape(size, 0),
        layers: vec![
            GradientLayer::Unsupported,
            GradientLayer::Linear {
                stops: stops(size, [0.0, 0.0], [1.0, 0.0], &[(red, [0.25, 0.0, 0.0, 1.0], 0.0)]),
                hsla: false,
            },
            GradientLayer::Linear { stops: vec![], hsla: false },
        ],
    });
    let (list, _) = painted(&frame, &no_icons());
    assert_eq!(list.quad_count, 1);
    assert_eq!(list.vertices[0].flags, 0);
    assert!(approx(rgba(list.vertices[0].color)[0], 0.25));
}

#[test]
fn stops_at_one_place_make_no_segment() {
    let size = [50.0, 50.0];
    let red = [1.0, 0.0, 0.0, 1.0];
    let placed = stops(
        size,
        [-25.0, 25.0],
        [1.0, 0.0],
        &[(red, red, 10.0), (red, red, 10.0), (red, red, 20.0)],
    );
    let mut frame = frame();
    frame.gradients.push(GradientRow {
        node: shape(size, 0),
        layers: vec![GradientLayer::Linear { stops: placed, hsla: false }],
    });
    let (list, _) = painted(&frame, &no_icons());
    assert_eq!(list.quad_count, 1);
    assert_ne!(list.vertices[0].flags & UI_FLAG_FILL_START, 0);
    assert_ne!(list.vertices[0].flags & UI_FLAG_FILL_END, 0);
}

#[test]
fn implicit_stops_interpolate_evenly() {
    let auto = f32::NAN.to_bits();
    let length = 90.0f32;
    let given = vec![0.0f32.to_bits(), auto, auto, 90.0f32.to_bits()];
    let out = resolve_gradient_stops(&given, length.to_bits());
    let fixed = |i: usize| match out[i] {
        StopPosition::Fixed(at) => f(at),
        StopPosition::Between { .. } => panic!("stop {i} is not pinned"),
    };
    let positions: Vec<f32> = (0..4)
        .map(|i| match out[i] {
            StopPosition::Fixed(at) => f(at),
            StopPosition::Between { start, end, part, whole } => {
                fixed(start) + (fixed(end) - fixed(start)) * part as f32 / whole as f32
            }
        })
        .collect();
    assert!((positions[0] - 0.0).abs() < 1e-4);
    assert!((positions[1] - 30.0).abs() < 1e-4);
    assert!((positions[2] - 60.0).abs() < 1e-4);
    assert!((positions[3] - 90.0).abs() < 1e-4);
}

#[test]
fn unplaced_ends_take_the_ends_of_the_line() {
    let auto = f32::NAN.to_bits();
    let out = resolve_gradient_stops(&vec![auto, 40.0f32.to_bits(), auto], 90.0f32.to_bits());
    assert_eq!(out[0], StopPosition::Fixed(0));
    assert_eq!(out[1], StopPosition::Fixed(40.0f32.to_bits()));
    assert_eq!(out[2], StopPosition::Fixed(90.0f32.to_bits()));
    let out = resolve_gradient_stops(&vec![auto, (-5.0f32).to_bits(), 120.0f32.to_bits(), auto], 90.0f32.to_bits());
    assert_eq!(out[0], StopPosition::Fixed((-5.0f32).to_bits()));
    assert_eq!(out[3], StopPosition::Fixed(120.0f32.to_bits()));
}

// ---------------------------------------------------------------------------
// Images and materials

#[test]
fn image_node_with_unregistered_asset_emits_untextured_tint_quad() {
    let mut frame = frame();
    frame.images.push(ImageRow {
        node: shape([32.0, 32.0], 0),
        color: quad([0.2, 0.4, 0.6, 1.0]),
        image: 7,
    });
    let (list, _) = painted(&frame, &no_icons());
    assert_eq!(list.quad_count, 1);
    let v = &list.vertices[0];
    assert_eq!(v.tex_slot, 0);
    assert_eq!(v.flags, 0, "unregistered asset: untextured ZII fallback");
}

#[test]
fn image_node_with_registered_icon_emits_textured_quad() {
    const LOGICAL_SLOT: u32 = 1;
    let handle: u128 = 0x1234_5678_9abc_def0_0fed_cba9_8765_4321;
    let icons = IconRegistry::from_slots(vec![(handle, LOGICAL_SLOT)]);
    let mut frame = frame();
    frame.images.push(ImageRow {
        node: shape([24.0, 24.0], 0),
        color: quad([1.0, 0.0, 0.0, 1.0]),
        image: handle,
    });
    let (list, _) = painted(&frame, &icons);
    assert_eq!(list.quad_count, 1);
    let verts = &list.vertices[0..4];
    for v in verts {
        assert_ne!(v.flags & UI_FLAG_TEXTURED, 0, "registered icon: UI_FLAG_TEXTURED set");
        assert_eq!(v.tex_slot, LOGICAL_SLOT, "tex_slot is the registered logical slot");
    }
    assert_eq!(xy(verts[0].uv), [0.0, 0.0], "TL uv");
    assert_eq!(xy(verts[1].uv), [1.0, 0.0], "TR uv");
    assert_eq!(xy(verts[2].uv), [1.0, 1.0], "BR uv");
    assert_eq!(xy(verts[3].uv), [0.0, 1.0], "BL uv");
}

#[test]
fn material_tagged_node_emits_mode_flagged_quad_at_material_offset() {
    let size = [64.0, 40.0];
    let tag = UiMaterialTag::color_plane(ColorPlaneAxes::HueLightness, 0.5f32.to_bits());
    let mut frame = frame();
    frame.backgrounds.push(BackgroundRow {
        node: shape(size, 0),
        color: quad([1.0, 0.0, 0.0, 1.0]),
    });
    frame.materials.push(MaterialRow { node: shape(size, 0), tag });

    let (list, _) = painted(&frame, &no_icons());
    assert_eq!(list.quad_count, 2, "background + material");
    let bg = &list.vertices[0];
    assert_eq!(bg.flags >> UI_MODE_SHIFT, 0, "background stays MODE 0");
    assert!(approx(rgba(bg.color)[0], 1.0));

    let verts = &list.vertices[4..8];
    let expected = quad([0.5, UI_PLANE_HL as f32, 0.0, 0.0]);
    for v in verts {
        assert_eq!(v.flags >> UI_MODE_SHIFT, UI_MODE_COLOR_PLANE, "material MODE bits");
        assert_eq!(v.color2, expected, "packed UiMaterialData in color2");
        assert!(approx_vec2(v.size, size));
    }
    assert_eq!(xy(verts[0].uv), [0.0, 0.0], "TL uv");
    assert_eq!(xy(verts[1].uv), [1.0, 0.0], "TR uv");
    assert_eq!(xy(verts[2].uv), [1.0, 1.0], "BR uv");
    assert_eq!(xy(verts[3].uv), [0.0, 1.0], "BL uv");
}

#[test]
fn painted_flags_are_sound() {
    let size = [20.0, 20.0];
    let red = [1.0, 0.0, 0.0, 1.0];
    let node = NodeShape { border: quad([1.0; 4]), ..shape(size, 0) };
    let mut frame = frame();
    frame.backgrounds.push(BackgroundRow { node, color: quad(red) });
    frame.borders.push(BorderRow {
        node,
        border: Some(BorderColors {
            left: quad(red),
            top: quad([0.0, 1.0, 0.0, 1.0]),
            right: quad(red),
            bottom: quad([0.0; 4]),
        }),
        outline: None,
    });
    let placed = stops(size, [-10.0, -10.0], [0.0, 1.0], &[(red, red, 5.0), (red, red, 20.0)]);
    frame.gradients.push(GradientRow {
        node,
        layers: vec![GradientLayer::Linear { stops: placed, hsla: true }],
    });
    frame.images.push(ImageRow { node, color: quad(red), image: 7 });
    let tag = UiMaterialTag::color_plane(ColorPlaneAxes::RedGreen, 0.5f32.to_bits());
    frame.materials.push(MaterialRow { node, tag });

    let (list, _) = painted(&frame, &IconRegistry::from_slots(vec![(7, 2)]));
    let flags: Vec<u32> = list.vertices.iter().step_by(4).map(|v| v.flags).collect();
    assert_eq!(
        flags,
        vec![
            0,
            0x2 | 0x8,
            0x4,
            UI_FLAG_GRADIENT
                | UI_FLAG_GRADIENT_SPACE_HSLA
                | UI_FLAG_FILL_START
                | UI_FLAG_FILL_END,
            UI_FLAG_TEXTURED,
            UI_MODE_COLOR_PLANE << 16,
        ]
    );
    for v in &list.vertices {
        assert!(v.flags & UI_FLAG_TEXTURED == 0 || v.flags & UI_FLAG_GRADIENT == 0);
        assert!(v.flags & UI_MODE_MASK == 0 || v.flags & 0xffff == 0);
    }
}

#[test]
fn alpha_pattern_tagged_node_emits_mode_1_with_zeroed_material_fields() {
    let tag = UiMaterialTag::alpha_pattern();
    let mut frame = frame();
    frame.materials.push(MaterialRow { node: shape([30.0, 12.0], 0), tag });
    let (list, _) = painted(&frame, &no_icons());
    assert_eq!(list.quad_count, 1);
    let v = &list.vertices[0];
    assert_eq!(v.flags >> UI_MODE_SHIFT, UI_MODE_ALPHA_PATTERN);
    assert_eq!(rgba(v.color2), [0.0; 4]);
}

fn color2_of_mode(list: &UiPaintList, mode: u32) -> Vec<[f32; 4]> {
    list.vertices
        .chunks(4)
        .filter(|c| c[0].flags >> UI_MODE_SHIFT == mode)
        .map(|c| rgba(c[0].color2))
        .collect()
}

#[test]
fn color_plane_widget_emits_color_plane_mode_quad() {
    let tag = plane_material(FeathersColorPlane::HueLightness, 0.0f32.to_bits());
    let mut frame = frame();
    frame.materials.push(MaterialRow { node: shape([120.0, 120.0], 0), tag });
    let (list, _) = painted(&frame, &no_icons());
    let planes = color2_of_mode(&list, UI_MODE_COLOR_PLANE);
    assert_eq!(planes.len(), 1, "exactly one color-plane quad");
    let [fixed_channel, variant, ..] = planes[0];
    assert!((fixed_channel - 0.0).abs() < 1e-3, "default ColorPlaneValue.z is 0");
    assert!((variant - UI_PLANE_HL as f32).abs() < 1e-3, "HueLightness -> UI_PLANE_HL");
}

#[test]
fn color_slider_track_emits_alpha_pattern_mode_quad() {
    let mut frame = frame();
    frame.materials.push(MaterialRow {
        node: shape([200.0, 24.0], 0),
        tag: AlphaPatternPlugin.material(),
    });
    let (list, _) = painted(&frame, &no_icons());
    let patterns = color2_of_mode(&list, UI_MODE_ALPHA_PATTERN);
    assert_eq!(patterns.len(), 1, "exactly one alpha-pattern quad (the track)");
    assert_eq!(patterns[0], [0.0; 4], "alpha-pattern MODE ignores variant/fixed_channel");
}

#[test]
fn color_swatch_emits_alpha_pattern_mode_quad() {
    let mut frame = frame();
    frame.materials.push(MaterialRow {
        node: shape([24.0, 24.0], 0),
        tag: AlphaPatternPlugin.material(),
    });
    let (list, _) = painted(&frame, &no_icons());
    let patterns = color2_of_mode(&list, UI_MODE_ALPHA_PATTERN);
    assert_eq!(patterns.len(), 1, "exactly one alpha-pattern quad (the swatch itself)");
}

#[test]
fn variants_are_packed_as_the_nearest_value() {
    for variant in [0u32, 1, 2, 3, 4, 5, 255, 0xffffff, 0x1000001, 0x1000003, 0xffffffff, 0xffffff7f] {
        let data = UiMaterialData { variant, fixed_channel: 7 };
        let packed = data.to_color2();
        assert_eq!((packed.x, packed.z, packed.w), (7, 0, 0));
        assert_eq!(packed.y, (variant as f32).to_bits(), "{variant}");
    }
}

// ---------------------------------------------------------------------------
// Scrolling and stacking

fn quads_with_color(list: &UiPaintList, color: [f32; 4], tolerance: f32) -> Vec<usize> {
    list.vertices
        .chunks(4)
        .enumerate()
        .filter(|(_, c)| {
            let got = rgba(c[0].color);
            (0..4).all(|i| (got[i] - color[i]).abs() < tolerance)
        })
        .map(|(i, _)| i)
        .collect()
}

fn linear(red: f32, green: f32, blue: f32) -> [f32; 4] {
    let one = |c: f32| if c <= 0.04045 { c / 12.92 } else { ((c + 0.055) / 1.055).powf(2.4) };
    [one(red), one(green), one(blue), 1.0]
}

#[test]
fn scroll_position_shifts_extracted_child_positions() {
    let reds = [1.0, 0.8, 0.6, 0.4, 0.2, 0.1];
    // Rows of 20 pixels in a view of 60, scrolled by a number of pixels.
    let rows = |scrolled: f32| {
        let mut frame = frame();
        frame.backgrounds.push(BackgroundRow {
            node: shape([100.0, 60.0], 0),
            color: quad(linear(0.0, 0.0, 0.5)),
        });
        for (i, red) in reds.into_iter().enumerate() {
            let size = [100.0, 20.0];
            let at = Affine::moved(50.0, 20.0 * i as f32 + 10.0 - scrolled);
            let node = NodeShape {
                corners: clipped(at, size, Some([0.0, 0.0, 100.0, 60.0])),
                ..shape(size, 1 + i as u32)
            };
            frame.backgrounds.push(BackgroundRow { node, color: quad(linear(red, 0.0, 0.0)) });
        }
        painted(&frame, &no_icons()).0
    };
    let row0 = linear(1.0, 0.0, 0.0);
    let row5 = linear(0.1, 0.0, 0.0);

    let list = rows(0.0);
    assert!(
        !quads_with_color(&list, row0, 0.01).is_empty(),
        "row 0 (60px viewport / 20px rows = 3 visible) must be visible before scrolling"
    );
    assert!(
        quads_with_color(&list, row5, 0.01).is_empty(),
        "row 5 must NOT be visible before scrolling (only rows 0-2 fit)"
    );
    // A scroll by 80 pixels stops at 60.
    let list = rows(60.0);
    assert!(quads_with_color(&list, row0, 0.01).is_empty(), "row 0 must be clipped");
    assert!(
        !quads_with_color(&list, row5, 0.01).is_empty(),
        "row 5 must now be visible in the extracted stream after scrolling"
    );
}

#[test]
fn menu_popover_paints_after_sibling_with_higher_stack_index() {
    let sibling = linear(0.2, 0.2, 0.9);
    let popup = linear(0.9, 0.2, 0.2);
    let mut frame = frame();
    frame.backgrounds.push(BackgroundRow { node: shape([80.0, 40.0], 100), color: quad(popup) });
    frame.backgrounds.push(BackgroundRow { node: shape([60.0, 24.0], 0), color: quad(sibling) });
    let (list, _) = painted(&frame, &no_icons());
    let sibling_idx = quads_with_color(&list, sibling, 0.02);
    let popup_idx = quads_with_color(&list, popup, 0.02);
    assert!(!sibling_idx.is_empty(), "sibling background quad should be extracted");
    assert!(!popup_idx.is_empty(), "popover background quad should be extracted");
    assert!(popup_idx.iter().min().unwrap() > sibling_idx.iter().max().unwrap());
}

// ---------------------------------------------------------------------------
// Shadows

#[test]
fn box_shadow_emits_padded_quad_before_background_at_correct_order() {
    let size = [100.0, 60.0];
    let mut frame = frame();
    frame.backgrounds.push(BackgroundRow {
        node: shape(size, 0),
        color: quad([0.01, 0.01, 0.01, 1.0]),
    });
    frame.shadows.push(ShadowRow {
        node: shape(size, 0),
        layers: vec![shadow(size, 0.0, [1.0, 0.0, 0.0, 0.7], [5.0, 8.0], 4.0, 6.0)],
    });
    let (list, _) = painted(&frame, &no_icons());
    assert_eq!(list.shadow_quad_count, 1, "one shadow quad");
    assert_eq!(list.quad_count, 1, "one background quad");
    assert_eq!(list.shadow_batches.len(), 1);
    assert_eq!(list.batches.len(), 1);
    let shadow_order = list.shadow_batches[0].order;
    let quad_order = list.batches[0].order;
    assert!(shadow_order < quad_order, "the shadow batch precedes the background batch");
}

#[test]
fn box_shadow_resolves_offset_spread_blur_against_known_node_size() {
    let size = [100.0, 60.0];
    let mut frame = frame();
    frame.shadows.push(ShadowRow {
        node: NodeShape { radius: quad([10.0; 4]), ..shape(size, 0) },
        layers: vec![shadow(size, 10.0, [1.0, 0.0, 0.0, 0.7], [5.0, 8.0], 4.0, 6.0)],
    });
    let (list, _) = painted(&frame, &no_icons());
    assert_eq!(list.shadow_quad_count, 1);
    let verts = &list.shadow_vertices[0..4];
    for v in verts {
        assert!(approx_vec2(v.size, [104.0, 62.4]), "shadow size: {:?}", v.size);
        assert!(rgba(v.radius).iter().all(|&r| approx(r, 10.4)), "radius: {:?}", v.radius);
        assert!(approx(f(v.blur), 6.0), "blur: {}", f(v.blur));
        assert!(approx_vec2(v.bounds, [140.0, 98.4]), "bounds: {:?}", v.bounds);
        assert!(approx(rgba(v.color)[0], 1.0) && approx(rgba(v.color)[3], 0.7));
    }
    assert!(approx_vec2(verts[0].pos, [-65.0, -41.2]), "TL pos: {:?}", verts[0].pos);
    assert!(approx_vec2(verts[0].uv, [0.0, 0.0]), "TL uv: {:?}", verts[0].uv);
    assert!(approx_vec2(verts[2].uv, [1.0, 1.0]), "BR uv: {:?}", verts[2].uv);
}

#[test]
fn multiple_shadows_on_one_node_emit_in_declared_back_to_front_order() {
    let size = [50.0, 50.0];
    let mut frame = frame();
    frame.shadows.push(ShadowRow {
        node: shape(size, 0),
        layers: vec![
            shadow(size, 0.0, [1.0, 0.0, 0.0, 1.0], [0.0, 0.0], 0.0, 2.0),
            shadow(size, 0.0, [0.0, 0.0, 1.0, 1.0], [0.0, 0.0], 0.0, 4.0),
        ],
    });
    let (list, _) = painted(&frame, &no_icons());
    assert_eq!(list.shadow_quad_count, 2, "two shadow layers, one quad each");
    assert_eq!(list.shadow_batches.len(), 1, "same z_order: one merged batch");
    let first = &list.shadow_vertices[0];
    let second = &list.shadow_vertices[4];
    assert!(approx(rgba(first.color)[0], 1.0) && approx(rgba(first.color)[2], 0.0), "first is red");
    assert!(approx(f(first.blur), 2.0));
    assert!(approx(rgba(second.color)[2], 1.0) && approx(rgba(second.color)[0], 0.0), "second is blue");
    assert!(approx(f(second.blur), 4.0));
}

#[test]
fn fully_transparent_shadow_is_skipped() {
    let size = [40.0, 40.0];
    let mut frame = frame();
    frame.shadows.push(ShadowRow {
        node: shape(size, 0),
        layers: vec![shadow(size, 0.0, [0.0; 4], [0.0, 0.0], 0.0, 4.0)],
    });
    let (list, _) = painted(&frame, &no_icons());
    assert_eq!(list.shadow_quad_count, 0);
    assert!(list.shadow_batches.is_empty());
}

#[test]
fn colors_without_opacity_are_not_painted() {
    let size = [10.0, 10.0];
    for (alpha, count) in [(-0.5, 0), (-0.0, 0), (0.0, 0), (0.25, 1), (f32::NAN, 1)] {
        let mut frame = frame();
        frame.backgrounds.push(BackgroundRow {
            node: shape(size, 0),
            color: quad([1.0, 0.0, 0.0, alpha]),
        });
        let (list, _) = painted(&frame, &no_icons());
        assert_eq!(list.quad_count, count, "{alpha}");
    }
}

#[test]
fn spread_that_collapses_the_shadow_box_is_culled() {
    let size = [20.0, 20.0];
    let mut frame = frame();
    frame.shadows.push(ShadowRow {
        node: shape(size, 0),
        layers: vec![shadow(size, 0.0, [1.0; 4], [0.0, 0.0], -15.0, 2.0)],
    });
    frame.shadows.push(ShadowRow {
        node: shape(size, 1),
        layers: vec![shadow(size, 0.0, [1.0; 4], [0.0, 0.0], -25.0, 2.0)],
    });
    let (list, _) = painted(&frame, &no_icons());
    assert_eq!(list.shadow_quad_count, 1, "only the non-collapsed shadow survives culling");
}

#[test]
fn shadow_batch_quad_range_matches_emitted_vertex_count() {
    let size = [30.0, 30.0];
    let mut frame = frame();
    frame.shadows.push(ShadowRow {
        node: shape(size, 2),
        layers: vec![shadow(size, 0.0, [0.0, 0.0, 0.0, 1.0], [0.0, 0.0], 0.0, 3.0)],
    });
    let (list, _) = painted(&frame, &no_icons());
    let batch: &UiShadowBatch = &list.shadow_batches[0];
    assert_eq!(batch.quad_range, 0..1);
    assert_eq!(batch.scissor, None);
    assert_eq!(list.shadow_vertices.len(), 4);
}

// ---------------------------------------------------------------------------
// Text

fn glyph_run(color: u32, glyphs: usize) -> GlyphRun {
    GlyphRun {
        blob_id: 3,
        font_index: 0,
        font_px_per_em: 16.0f32.to_bits(),
        clip: None,
        color: quad([1.0, 1.0, 1.0, 1.0]),
        packed_color: color,
        glyphs: (0..glyphs)
            .map(|i| RunGlyph {
                record: Some(CachedGlyph { descriptor_index: i as u32, empty: false }),
                pen: point(i as f32, 0.0),
            })
            .collect(),
        strikethrough: None,
        underline: None,
    }
}

fn stroke(size: [f32; 2]) -> StrokeShape {
    StrokeShape { size: point(size[0], size[1]), corners: clipped(IDENTITY, size, None) }
}

#[test]
fn text_splits_the_quads_around_it() {
    let mut frame = frame();
    frame.backgrounds.push(BackgroundRow { node: shape([10.0, 10.0], 0), color: quad([1.0; 4]) });
    frame.backgrounds.push(BackgroundRow { node: shape([10.0, 10.0], 1), color: quad([1.0; 4]) });
    frame.texts.push(TextRow { node: shape([10.0, 10.0], 0), runs: vec![glyph_run(9, 2)] });
    let (list, text) = painted(&frame, &no_icons());
    assert_eq!(text.instances.len(), 2);
    assert_eq!(text.instances[1].glyph_id, 1);
    assert_eq!(text.instances[1].color, 9);
    assert_eq!(text.batches.len(), 1);
    assert_eq!(text.batches[0].instance_range, 0..2);
    assert_eq!(list.batches.len(), 2);
    assert_eq!(list.batches[0].quad_range, 0..1);
    assert_eq!(list.batches[1].quad_range, 1..2);
    assert!(list.batches[0].order < text.batches[0].order);
    assert!(text.batches[0].order < list.batches[1].order);
}

#[test]
fn strokes_take_the_color_of_the_text_or_their_own() {
    let mut run = glyph_run(0, 1);
    run.strikethrough = Some(Decoration { stroke: stroke([10.0, 1.0]), color: None });
    run.underline =
        Some(Decoration { stroke: stroke([10.0, 2.0]), color: Some(quad([0.5, 0.0, 0.0, 1.0])) });
    let mut frame = frame();
    frame.texts.push(TextRow { node: shape([10.0, 10.0], 0), runs: vec![run] });
    let (list, _) = painted(&frame, &no_icons());
    assert_eq!(list.quad_count, 2);
    let colors: Vec<f32> = list.vertices.iter().map(|v| rgba(v.color)[0]).collect();
    assert!(colors.contains(&1.0) && colors.contains(&0.5));
}

fn editable(entity: u64) -> EditableTextRow {
    EditableTextRow {
        entity,
        node: shape([200.0, 24.0], 0),
        runs: vec![glyph_run(5, 2)],
        text_color: quad([1.0; 4]),
        cursor_color: quad([0.0, 1.0, 0.0, 1.0]),
        selection_color: quad([0.0, 0.0, 1.0, 1.0]),
        unfocused_selection_color: quad([0.0, 0.0, 0.5, 1.0]),
        selection: vec![stroke([20.0, 24.0])],
        cursor: Some(TextCursor { shown: true, empty: false, stroke: stroke([1.0, 20.0]) }),
        preedit_underlines: vec![],
    }
}

#[test]
fn z_offset_ordering_background_then_selection_then_cursor() {
    assert!(stack_z_offsets::BACKGROUND < stack_z_offsets::TEXT_SELECTION);
    assert!(stack_z_offsets::TEXT_SELECTION < stack_z_offsets::TEXT_CURSOR);
    assert!(stack_z_offsets::TEXT < stack_z_offsets::TEXT_CURSOR);
}

#[test]
fn focused_text_shows_its_cursor_above_its_selection() {
    let mut frame = frame();
    frame.backgrounds.push(BackgroundRow { node: shape([200.0, 24.0], 0), color: quad([0.1; 4]) });
    frame.editable_texts.push(editable(4));
    frame.focus = Some(4);
    let (list, text) = painted(&frame, &no_icons());
    assert_eq!(text.instances.len(), 2);
    assert_eq!(list.quad_count, 3);
    assert_eq!(rgba(list.vertices[4].color), [0.0, 0.0, 1.0, 1.0]);
    assert_eq!(rgba(list.vertices[8].color), [0.0, 1.0, 0.0, 1.0]);
}

fn style_name(token: StyleToken) -> &'static str {
    match token {
        StyleToken::ButtonBg => "button.bg",
        StyleToken::ButtonBgPressed => "button.bg.pressed",
        StyleToken::ButtonText => "button.text",
        _ => panic!("a button is idle or pressed"),
    }
}

#[test]
fn button_press_recolors_the_walkers_background_quad() {
    let srgb = |level: f32| Rgba {
        red: level.to_bits(),
        green: level.to_bits(),
        blue: (level + 0.1).to_bits(),
        alpha: 1.0f32.to_bits(),
    };
    let mut theme = UiTheme::default();
    theme.set_color("button.bg", srgb(0.25));
    theme.set_color("button.bg.pressed", srgb(0.5));
    let color_of = |token: StyleToken| {
        let c = theme.color(&ThemeToken::new(style_name(token)));
        linear(f(c.red), f(c.green), f(c.blue))
    };
    // The background of a button as it is painted with a token.
    let first_quad_color = |token: StyleToken| {
        let mut frame = frame();
        frame.backgrounds.push(BackgroundRow {
            node: shape([120.0, 24.0], 0),
            color: quad(color_of(token)),
        });
        let (list, _) = painted(&frame, &no_icons());
        assert!(list.quad_count > 0, "expected at least one quad");
        rgba(list.vertices[0].color)
    };
    let close = |a: [f32; 4], b: [f32; 4]| (0..4).all(|k| (a[k] - b[k]).abs() < 1e-3);
    let styled = |pressed: bool, present: StyleToken| {
        let style = set_button_styles(
            ButtonVariant::default(),
            false,
            pressed,
            false,
            present,
            StyleToken::ButtonText,
        );
        style.background.unwrap_or(present)
    };

    let unpressed = styled(false, StyleToken::ButtonBg);
    let before = first_quad_color(unpressed);
    assert!(
        close(before, color_of(StyleToken::ButtonBg)),
        "unpressed button quad should start at its background: got {before:?}"
    );
    let pressed = styled(true, unpressed);
    let after = first_quad_color(pressed);
    assert!(!close(before, after), "the quad color should have changed after the press: {after:?}");
    assert!(
        close(after, color_of(StyleToken::ButtonBgPressed)),
        "pressed button quad should read the pressed background: got {after:?}"
    );
}

#[test]
fn batches_share_their_order_values() {
    let mut frame = frame();
    for stack_index in 0..3 {
        frame.backgrounds.push(BackgroundRow {
            node: shape([10.0, 10.0], stack_index),
            color: quad([1.0; 4]),
        });
        frame.texts.push(TextRow {
            node: shape([10.0, 10.0], stack_index),
            runs: vec![glyph_run(1, 2)],
        });
    }
    let (list, text) = painted(&frame, &no_icons());
    let orders: Vec<u32> = list.batches.iter().map(|b| b.order).collect();
    assert_eq!(orders, vec![0, 2, 4]);
    let orders: Vec<u32> = text.batches.iter().map(|b| b.order).collect();
    assert_eq!(orders, vec![1, 3, 5]);
    let ranges: Vec<_> = list.batches.iter().map(|b| b.quad_range.clone()).collect();
    assert_eq!(ranges, vec![0..1, 1..2, 2..3]);
    assert_eq!(list.vertices.len(), 4 * list.quad_count);
}

#[test]
fn invisible_nodes_add_nothing() {
    let hidden = NodeShape { visible: false, ..shape([10.0, 10.0], 0) };
    let mut frame = frame();
    frame.backgrounds.push(BackgroundRow { node: hidden, color: quad([1.0; 4]) });
    frame.images.push(ImageRow { node: hidden, color: quad([1.0; 4]), image: 3 });
    frame.texts.push(TextRow { node: hidden, runs: vec![glyph_run(1, 2)] });
    let (list, text) = painted(&frame, &no_icons());
    assert_eq!((list.quad_count, list.batches.len()), (0, 0));
    assert!(text.instances.is_empty() && text.batches.is_empty());
}

fn stroke_at(x: f32, y: f32, size: [f32; 2]) -> StrokeShape {
    StrokeShape {
        size: point(size[0], size[1]),
        corners: clipped(Affine::moved(x, y), size, None),
    }
}

#[test]
fn text_input_editing_extracts_cursor_and_selection_quads() {
    let node_rect = [200.0, 24.0];
    let cursor_color = linear(1.0, 0.0, 1.0);
    let selection_color = linear(0.0, 1.0, 1.0);
    let mut row = editable(4);
    row.cursor_color = quad(cursor_color);
    row.selection_color = quad(selection_color);
    row.unfocused_selection_color = quad([0.0; 4]);
    row.selection = vec![stroke_at(10.0, 12.0, [6.0, 17.0])];
    row.cursor =
        Some(TextCursor { shown: true, empty: false, stroke: stroke_at(7.0, 12.0, [1.0, 17.0]) });
    let mut frame = frame();
    frame.editable_texts.push(row);
    frame.focus = Some(4);
    let (list, _) = painted(&frame, &no_icons());

    let cursor_quads = quads_with_color(&list, cursor_color, 0.02);
    assert!(!cursor_quads.is_empty());
    let selection_quads = quads_with_color(&list, selection_color, 0.02);
    assert!(!selection_quads.is_empty());
    for qi in cursor_quads.iter().chain(selection_quads.iter()) {
        for v in &list.vertices[qi * 4..qi * 4 + 4] {
            let [x, y] = xy(v.pos);
            assert!(x >= -2.0 && x <= node_rect[0] + 2.0);
            assert!(y >= -6.0 && y <= node_rect[1] + 6.0);
        }
    }

    // Without the focus, its selection has no colour and is not painted.
    frame.focus = None;
    let (list, _) = painted(&frame, &no_icons());
    assert!(quads_with_color(&list, selection_color, 0.02).is_empty());
}

#[test]
fn text_input_glyphs_reach_text_paint_list() {
    let mut row = editable(4);
    row.runs = vec![glyph_run(5, "asha".len())];
    let mut frame = frame();
    frame.editable_texts.push(row);
    frame.focus = Some(4);
    let (_, text) = painted(&frame, &no_icons());
    assert!(!text.instances.is_empty());
    let glyphs: Vec<u32> = text.instances.iter().map(|i| i.glyph_id).collect();
    assert_eq!(glyphs, vec![0, 1, 2, 3]);
    assert_eq!(text.batches.len(), 1);
    assert_eq!(text.batches[0].instance_range, 0..4);
}

#[test]
fn text_batches_cover_their_glyphs() {
    let mut frame = frame();
    // Painted in the order of their stack index: the second text first.
    frame.texts.push(TextRow {
        node: shape([10.0, 10.0], 1),
        runs: vec![glyph_run(1, 2), glyph_run(1, 3)],
    });
    frame.texts.push(TextRow { node: shape([10.0, 10.0], 0), runs: vec![glyph_run(1, 1)] });
    let mut larger = glyph_run(1, 2);
    larger.font_px_per_em = 20.0f32.to_bits();
    frame.texts.push(TextRow {
        node: shape([10.0, 10.0], 2),
        runs: vec![larger, glyph_run(1, 1)],
    });
    frame.backgrounds.push(BackgroundRow { node: shape([10.0, 10.0], 1), color: quad([1.0; 4]) });
    let (list, text) = painted(&frame, &no_icons());
    let ranges: Vec<_> = text.batches.iter().map(|b| b.instance_range.clone()).collect();
    assert_eq!(ranges, vec![5..6, 0..5, 6..8, 8..9]);
    for glyph in 0..text.instances.len() {
        assert_eq!(ranges.iter().filter(|r| r.contains(&glyph)).count(), 1);
    }
    // Batches beside each other in painter's order differ.
    for (a, b) in text.batches.iter().zip(&text.batches[1..]) {
        let compatible = a.font_px_per_em == b.font_px_per_em
            && a.instance_range.end == b.instance_range.start;
        assert!(!(compatible && a.order + 1 == b.order));
    }
    assert!(list.batches.iter().all(|b| b.scissor.is_none()));
}

#[test]
fn unfocused_text_dims_its_selection() {
    let mut frame = frame();
    let mut row = editable(4);
    row.cursor = Some(TextCursor { shown: false, empty: false, stroke: stroke([1.0, 20.0]) });
    frame.editable_texts.push(row);
    let (list, _) = painted(&frame, &no_icons());
    assert_eq!(list.quad_count, 1);
    assert_eq!(rgba(list.vertices[0].color), [0.0, 0.0, 0.5, 1.0]);
}

#[test]
fn glyphs_without_a_record_or_ink_have_no_instance() {
    let mut run = glyph_run(0, 3);
    run.glyphs[0].record = None;
    run.glyphs[1].record = Some(CachedGlyph { descriptor_index: 8, empty: true });
    let mut frame = frame();
    frame.texts.push(TextRow { node: shape([10.0, 10.0], 0), runs: vec![run] });
    let (_, text) = painted(&frame, &no_icons());
    assert_eq!(text.instances.len(), 1);
    assert_eq!(text.instances[0].glyph_id, 2);
}

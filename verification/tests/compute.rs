//! Compute and raster decisions: bits, scans, reductions, fog, clusters,
//! linework, particles, outlines, gizmos.

use asha_ui::float_bits::{
    is_at_most, is_equal, is_finite, is_less, is_not_a_number, is_zero, larger_of, smaller_of,
};
use asha_ui::bits::{count_ones_below, extract_byte, first_bit_high};
use asha_ui::shading::clusters::{
    cluster_build_args, cluster_cull, color_sampler, cull_candidate, is_padding,
    mesh_prepass_frag, surface_material, token_place, Cluster, ClusterDraw, ClusterScene,
    MeshBatch, MeshEntry, MeshInstance, Meshlet, VisibleClusters, MESH_FLAG_NO_LINEWORK,
    MESH_FLAG_SKINNED,
};
use asha_ui::shading::extinction::{
    ext_rgb_field, oit_splat_frag, oit_splat_one, oit_splat_rgb_one, take_histogram,
    ExtinctionColumn, Fragment, Occupancy, Splat, Tint, TintColumn, NEVER,
};
use asha_ui::shading::fog::{
    fog_beyond, fog_integrate, fog_light, fog_light_grid, fog_light_tile, fog_prime_spawn,
    in_unit_cube, occlusion_ends, occlusion_steps, oit_quad_corner, oit_resolves, prime_boundary,
    quad_column, quad_row, tiles_over, zero_slice, Beyond, ChannelStep, FroxelRange, LightTile,
    QuadCorner, SliceStep, TileBounds,
};
use asha_ui::shading::gizmos::{
    gizmo_frag, gizmo_vert, is_covered, GizmoCoverage, GizmoInstance, GizmoShape, GizmoVertex,
    DEFAULT_STROKE, GIZMO_FLAG_XRAY,
};
use asha_ui::shading::glyph_coverage::{
    band_limits, is_nearly_linear, text_band_coverage, text_calc_root_code, text_corner,
    text_unpack_color, text_vert, BandCurve, TextBandHeader,
};
use asha_ui::shading::linework::{
    center_holds, linework_resolve, mesh_linework_frag, mesh_prepass_vert, mesh_silhouette_vert,
    mesh_vert, neighbours, touches_edge, LineworkPixel, LineworkTriangle, MeshFrame, Neighbour, PassVertex, Pixel,
};
use asha_ui::shading::outline::{
    flood_sample, outline_composite, outline_jfa_flood, outline_jfa_init, silhouette_group,
    within_outline, FloodPixel, FloodSeed, OutlineField, OutlineRegion,
};
use asha_ui::shading::particles::{
    alignment_of, bolt_node_seed, hash, lut_index, particle_draw_prepare, particle_emit,
    particle_reset, particle_update, particle_vert, particles_in_use, shape_of, Alignment,
    DrawLists, Emitter, ParticleAge, ParticlePlan, ParticleStep, ParticleView, SpawnShape,
    EMITTER_IGNORE_TINT, EMITTER_LOCAL_COORDS, PARTICLE_ACTIVE,
};
use asha_ui::shading::post::{
    aberration_taps, adds, chroma_taps, fill, has_texture, lens_ray_is_rendered, thresholds,
    write_draw,
};
use asha_ui::shading::quads::{fullscreen_vert, ui_corner, ui_vert};
use asha_ui::shading::reduce::{
    depth_reduce, far_bits, fog_depth_max, max_lanes, min_lanes, reduce_group,
    reduce_single_dispatch, sum_lanes, GroupSums, TilePlace, TILE_AREA,
};
use asha_ui::shading::scan::prefix_sum;
use asha_ui::shading::segment_clip::{
    clip_plane, clip_segment, project_segment, PlaneCut, ProjectedSegment, SegmentPart,
};

fn b(v: f32) -> u32 {
    v.to_bits()
}

// ---------------------------------------------------------------------------
// Bits

#[test]
fn bytes_of_a_word() {
    let bytes: Vec<u32> = (0..4).map(|i| extract_byte(0x1234_5678, i)).collect();
    assert_eq!(bytes, vec![0x78, 0x56, 0x34, 0x12]);
}

#[test]
fn highest_bits() {
    assert_eq!(first_bit_high(1), 0);
    assert_eq!(first_bit_high(0x8000_0001), 31);
    assert_eq!(first_bit_high(0x00ff_0000), 23);
}

#[test]
fn ones_below_a_bit() {
    assert_eq!(count_ones_below(0xffff_ffff, 32), 32);
    assert_eq!(count_ones_below(0b1011, 3), 2);
    assert_eq!(count_ones_below(0b1011, 0), 0);
}

// ---------------------------------------------------------------------------
// Scans and reductions

#[test]
fn exclusive_sums() {
    let scan = prefix_sum(&vec![3, 1, 7, 0, 4, 1, 6, 3], 3);
    assert_eq!(scan.offsets, vec![0, 3, 4, 11, 11, 15, 16, 22]);
    assert_eq!(scan.total, 25);
}

#[test]
fn missing_counts_are_zero() {
    let scan = prefix_sum(&vec![5, 2, 1], 3);
    assert_eq!(scan.offsets[..3], [0, 5, 7]);
    assert_eq!(scan.total, 8);
    let scan = prefix_sum(&vec![9], 0);
    assert_eq!(scan.offsets, vec![0]);
    assert_eq!(scan.total, 9);
}

#[test]
fn sums_wrap_around() {
    let scan = prefix_sum(&vec![u32::MAX, 2], 1);
    assert_eq!(scan.total, 1);
}

#[test]
fn lanes_are_folded() {
    let mut lanes: Vec<u32> = (0..64).collect();
    assert_eq!(sum_lanes(&mut lanes), 2016);
    let mut lanes = vec![5, 9, 1, 3];
    assert_eq!(max_lanes(&mut lanes), 9);
    let mut lanes = vec![5, 9, 1, 3];
    assert_eq!(min_lanes(&mut lanes), 1);
}

#[test]
fn the_last_group_publishes_the_sum() {
    let values: Vec<u32> = (0..192).collect();
    assert_eq!(reduce_group(&values, 0), 2016);
    let mut sums = GroupSums::new(3);
    assert_eq!(reduce_single_dispatch(&mut sums, &values, 2), None);
    assert_eq!(reduce_single_dispatch(&mut sums, &values, 0), None);
    assert_eq!(reduce_single_dispatch(&mut sums, &values, 1), Some(18336));
}

#[test]
fn tile_depths_are_bounded() {
    let area = TILE_AREA as usize;
    let mut depths = vec![b(0.5); area];
    depths[3] = b(0.25);
    depths[7] = b(0.75);
    let place = TilePlace { tile_x: 1, tile_y: 0, screen_width: 64, screen_height: 32 };
    let bounds = depth_reduce(place, &depths);
    assert_eq!((bounds.min_depth, bounds.max_depth), (b(0.25), b(0.75)));
    // Pixels beyond the screen have no depth, whatever was fetched.
    let cut = TilePlace { screen_width: 39, ..place };
    let bounds = depth_reduce(cut, &depths);
    assert_eq!((bounds.min_depth, bounds.max_depth), (b(0.0), b(0.5)));
    assert!(cut.holds(6) && !cut.holds(7) && cut.holds(32) && !place.holds(1024));
}

#[test]
fn the_farthest_surface_raises_the_range() {
    assert_eq!(far_bits(true, b(0.5), b(12.0)), b(12.0));
    assert_eq!(far_bits(false, b(0.5), b(12.0)), 0);
    assert_eq!(far_bits(true, b(0.0), b(12.0)), 0);
    let mut lanes = vec![b(1.0); TILE_AREA as usize];
    lanes[5] = b(8.0);
    assert_eq!(fog_depth_max(b(3.0), &mut lanes.clone()), b(8.0));
    assert_eq!(fog_depth_max(b(9.0), &mut lanes), b(9.0));
}

// ---------------------------------------------------------------------------
// Extinction

fn column() -> ExtinctionColumn {
    ExtinctionColumn { words: vec![0; 16], occupancy: Occupancy { low: 0, high: 0 }, overflow: NEVER }
}

fn tint_column() -> TintColumn {
    TintColumn {
        words: vec![0; 64],
        occupancy: Occupancy { low: 0, high: 0 },
        overflow: Tint { red: NEVER, green: NEVER, blue: NEVER },
    }
}

#[test]
fn splats_add_up_in_their_lane() {
    let mut column = column();
    oit_splat_one(&mut column, 5, 100);
    oit_splat_one(&mut column, 5, 100);
    oit_splat_one(&mut column, 40, 7);
    assert_eq!(column.words[1], 200 << 8);
    assert_eq!(column.words[10], 7);
    assert!(column.occupancy.contains(5) && column.occupancy.contains(40));
    assert!(!column.occupancy.contains(6));
    assert_eq!(column.overflow, NEVER);
    oit_splat_one(&mut column, 5, 100);
    assert_eq!(column.overflow, 5);
}

#[test]
fn tints_add_up_by_channel() {
    let mut column = tint_column();
    oit_splat_rgb_one(&mut column, 3, Tint { red: 0, green: 0, blue: 0 });
    assert!(!column.occupancy.contains(3));
    for _ in 0..5 {
        oit_splat_rgb_one(&mut column, 3, Tint { red: 10, green: 255, blue: 1 });
    }
    assert_eq!(ext_rgb_field(column.words[3], 0), 50);
    assert_eq!(column.overflow, Tint { red: NEVER, green: 3, blue: NEVER });
}

#[test]
fn fragments_splat_into_two_slices() {
    let (mut column, mut tints) = (column(), tint_column());
    let mut histogram = vec![0; 10];
    let amounts = Tint { red: 1, green: 2, blue: 3 };
    let none = Tint { red: 0, green: 0, blue: 0 };
    oit_splat_frag(
        &mut column,
        &mut tints,
        &mut histogram,
        8,
        Fragment {
            raw_slice: 9,
            first: Splat { slice: 2, amount: 4 },
            second: Splat { slice: 3, amount: 6 },
            tint: Tint { red: b(0.5), green: 0, blue: 0 },
            first_tint: amounts,
            second_tint: none,
        },
    );
    assert_eq!(column.words[0], (4 << 16) | (6 << 24));
    assert_eq!(ext_rgb_field(tints.words[2], 1), 2);
    assert_eq!(tints.words[3], 0);
    assert_eq!(histogram, vec![0, 0, 0, 0, 0, 0, 0, 1, 0, 0]);
    assert_eq!(take_histogram(&mut histogram), vec![0, 0, 0, 0, 0, 0, 0, 1, 0, 0]);
    assert_eq!(histogram, vec![0; 10]);
}

// ---------------------------------------------------------------------------
// Fog

#[test]
fn lights_are_listed_by_tile() {
    let mut grid: Vec<LightTile> = (0..6).map(|_| LightTile::empty()).collect();
    let bounds = TileBounds { min_x: 1, min_y: 0, max_x: 2, max_y: 1 };
    fog_light_grid(&mut grid, 3, 1, 4, bounds);
    fog_light_grid(&mut grid, 3, 1, 9, TileBounds { min_x: 2, min_y: 1, max_x: 2, max_y: 1 });
    assert_eq!(fog_light(&grid[0], 10), Vec::<u32>::new());
    assert_eq!(fog_light(&grid[1], 10), vec![4]);
    assert_eq!(fog_light(&grid[4], 10), vec![4]);
    // An overflowing tile evaluates every light.
    assert!(grid[5].overflow);
    assert_eq!(fog_light(&grid[5], 10), (0..10).collect::<Vec<u32>>());
    assert_eq!(fog_light(&grid[5], 0), Vec::<u32>::new());
    assert_eq!(fog_light_tile(17, 9, 3), 5);
}

#[test]
fn empty_bounds_reach_no_tile() {
    let mut grid = vec![LightTile::empty()];
    fog_light_grid(&mut grid, 1, 4, 0, TileBounds { min_x: 1, min_y: 0, max_x: 0, max_y: 9 });
    assert_eq!(grid[0].count, 0);
}

#[test]
fn integration_reads_what_was_splatted() {
    let (mut column, mut tints) = (column(), tint_column());
    oit_splat_one(&mut column, 1, 9);
    oit_splat_rgb_one(&mut tints, 2, Tint { red: 5, green: 6, blue: 7 });
    column.overflow = 3;
    tints.overflow.green = 2;
    let steps = fog_integrate(Some(&column), Some(&tints), 4, 64);
    assert_eq!(steps.len(), 4);
    assert!(matches!(steps[0], SliceStep::Integrate(0, Some(_))));
    assert!(matches!(steps[1], SliceStep::Integrate(9, Some(_))));
    match steps[2] {
        SliceStep::Integrate(0, Some(tint)) => {
            assert_eq!(tint.red, ChannelStep::Through(5));
            assert_eq!(tint.green, ChannelStep::Dark);
            assert_eq!(tint.blue, ChannelStep::Through(7));
        }
        _ => panic!("slice 2 is tinted"),
    }
    assert!(matches!(steps[3], SliceStep::Saturated));
    let plain = fog_integrate(None, None, 64, 2);
    assert!(matches!(plain[1], SliceStep::Integrate(0, None)));

    let through = vec![b(1.0), b(0.5), b(0.25), b(0.0)];
    assert_eq!(zero_slice(&steps, &through, b(0.01)), Some(3));
    assert_eq!(zero_slice(&steps, &through, b(0.3)), Some(2));
    assert_eq!(zero_slice(&plain, &vec![b(1.0), b(1.0)], b(0.01)), None);
}

#[test]
fn prime_quads_cover_opaque_ranges() {
    assert_eq!(tiles_over(17, 8), 3);
    assert_eq!(tiles_over(16, 8), 2);
    assert_eq!(tiles_over(0, 8), 0);
    let slices = vec![Some(4), Some(9), Some(2), None];
    let range = |x0, x1, y0, y1| FroxelRange { x0, x1, y0, y1 };
    assert_eq!(prime_boundary(&slices, 2, range(0, 1, 0, 0)), Some(9));
    assert_eq!(prime_boundary(&slices, 2, range(0, 0, 0, 1)), Some(4));
    assert_eq!(prime_boundary(&slices, 2, range(0, 1, 0, 1)), None);
    let mut quads = vec![];
    fog_prime_spawn(&mut quads, 300, 70, b(0.5));
    assert_eq!((quad_column(&quads[0]), quad_row(&quads[0])), (300, 70));
    assert_eq!(quads[0].depth, b(0.5));
}

#[test]
fn transparent_quads_have_six_vertices() {
    let corners: Vec<QuadCorner> = (0..6).map(oit_quad_corner).collect();
    for corner in &corners {
        assert!(corners.iter().filter(|c| *c == corner).count() <= 2);
    }
    for right in [false, true] {
        for lower in [false, true] {
            assert!(corners.contains(&QuadCorner { right, lower }));
        }
    }
}

#[test]
fn occlusion_is_sampled_inside_its_volume() {
    assert_eq!(occlusion_steps(0, 8, 64), 0);
    assert!(in_unit_cube(b(0.0), b(0.5), b(1.0)));
    assert!(!in_unit_cube(b(-0.1), b(0.5), b(1.0)));
    assert!(!in_unit_cube(b(0.0), b(1.5), b(1.0)));
    assert_eq!(occlusion_steps(1, 80, b(2.0)), 64);
    assert!(occlusion_ends(true, b(0.0)));
    assert!(!occlusion_ends(false, b(0.0)));
    assert!(!occlusion_ends(true, b(1.0)));
    assert_eq!(fog_beyond(0, b(10.0), b(100.0)), Beyond::Endless);
    assert_eq!(fog_beyond(b(0.5), b(10.0), b(100.0)), Beyond::Nothing);
    assert_eq!(fog_beyond(b(0.5), b(200.0), b(100.0)), Beyond::ToSurface);
    assert!(!oit_resolves(b(0.0)));
    assert!(oit_resolves(b(1.0)));
}

// ---------------------------------------------------------------------------
// Clusters and linework

fn scene() -> ClusterScene {
    ClusterScene {
        instances: vec![
            MeshInstance { flags: 0, batch_index: 0, deformer_slot: 0, outline_group: 0 },
            MeshInstance { flags: MESH_FLAG_SKINNED, batch_index: 1, deformer_slot: 0, outline_group: 0 },
            MeshInstance { flags: 0x80, batch_index: 0, deformer_slot: 0, outline_group: 0 },
            MeshInstance { flags: 0, batch_index: 7, deformer_slot: 0, outline_group: 0 },
        ],
        batches: vec![
            MeshBatch { mesh_index: 1, cluster_base: 0, cluster_capacity: 1 },
            MeshBatch { mesh_index: 0, cluster_base: 1, cluster_capacity: 2 },
        ],
        meshes: vec![
            MeshEntry { meshlet_offset: 0, meshlet_count: 1, cluster_vertex_count: 6 },
            MeshEntry { meshlet_offset: 1, meshlet_count: 2, cluster_vertex_count: 9 },
        ],
        meshlets: vec![
            Meshlet { first_index: 0, tri_count: 1 },
            Meshlet { first_index: 3, tri_count: 2 },
            Meshlet { first_index: 9, tri_count: 1 },
        ],
        max_meshlets_per_mesh: 2,
        cull_mask: 0x80,
    }
}

#[test]
fn survivors_go_to_their_batch() {
    let scene = scene();
    let nowhere = Cluster { instance_id: 0, meshlet_index: 0 };
    let mut visible = VisibleClusters { clusters: vec![nowhere; 3], counts: vec![0, 0] };
    let first = cull_candidate(&scene, 0, 1).unwrap();
    assert_eq!(first.cluster, Cluster { instance_id: 0, meshlet_index: 2 });
    assert!(first.test_cone);
    let skinned = cull_candidate(&scene, 1, 0).unwrap();
    assert!(!skinned.test_cone);
    assert!(cull_candidate(&scene, 1, 1).is_none());
    assert!(cull_candidate(&scene, 2, 0).is_none());
    assert!(cull_candidate(&scene, 3, 0).is_none());
    assert!(cull_candidate(&scene, 4, 0).is_none());

    cluster_cull(&mut visible, &scene, first, true, true);
    cluster_cull(&mut visible, &scene, first, false, false);
    assert_eq!(visible.counts, vec![0, 0]);
    cluster_cull(&mut visible, &scene, skinned, true, true);
    cluster_cull(&mut visible, &scene, first, false, true);
    cluster_cull(&mut visible, &scene, cull_candidate(&scene, 0, 0).unwrap(), false, true);
    assert_eq!(visible.counts, vec![2, 1]);
    assert_eq!(visible.clusters[0], first.cluster);
    assert_eq!(visible.clusters[1], skinned.cluster);

    let draws = cluster_build_args(&scene, &visible.counts);
    assert_eq!(
        draws[0],
        ClusterDraw {
            vertex_count: 9,
            instance_count: 2,
            first_vertex: 0,
            first_instance: 0,
            batch_index: 0
        }
    );
    assert_eq!((draws[1].vertex_count, draws[1].instance_count, draws[1].first_instance), (6, 1, 1));
    assert!(!is_padding(5, &scene.meshlets[1]));
    assert!(is_padding(6, &scene.meshlets[1]));
}

#[test]
fn tokens_are_read_back() {
    let token = mesh_prepass_frag(5, 1000);
    let place = token_place(token);
    assert_eq!((place.primitive, place.cluster_index), (5, 1000));
    assert_eq!(surface_material(0), 1);
    assert_eq!(color_sampler(0, 3, 9), None);
    assert_eq!(color_sampler(4, 3, 9), Some(3));
    assert_eq!(color_sampler(4, 0, 9), Some(9));
}

fn frame() -> MeshFrame {
    let scene = scene();
    MeshFrame {
        clusters: vec![
            Cluster { instance_id: 0, meshlet_index: 1 },
            Cluster { instance_id: 1, meshlet_index: 0 },
        ],
        meshlets: scene.meshlets,
        instances: vec![
            MeshInstance { flags: 0, batch_index: 0, deformer_slot: 0, outline_group: 0 },
            MeshInstance { flags: MESH_FLAG_NO_LINEWORK, batch_index: 1, deformer_slot: 0, outline_group: 4 },
        ],
        batches: scene.batches,
        index_data: (100..112).collect(),
    }
}

#[test]
fn tokens_resolve_to_triangles() {
    let frame = frame();
    let (flags, triangle) = linework_resolve(&frame, mesh_prepass_frag(1, 0));
    assert_eq!(flags, 0);
    assert_eq!(
        triangle,
        Some(LineworkTriangle { instance_id: 0, mesh_index: 1, a: 106, b: 107, c: 108 })
    );
    assert_eq!(linework_resolve(&frame, mesh_prepass_frag(2, 0)).1, None);
    assert_eq!(linework_resolve(&frame, mesh_prepass_frag(0, 1)), (MESH_FLAG_NO_LINEWORK, None));
}

#[test]
fn linework_sees_what_was_drawn() {
    let frame = frame();
    let drawn: Vec<Option<u32>> = (0..8).map(|v| mesh_vert(&frame, 0, v)).collect();
    let triangle = linework_resolve(&frame, mesh_prepass_frag(1, 0)).1.unwrap();
    assert_eq!(drawn[3..6], [Some(triangle.a), Some(triangle.b), Some(triangle.c)]);
    assert_eq!(drawn[3..6], [Some(106), Some(107), Some(108)]);
    assert_eq!(drawn[6..], [None, None]);
}

#[test]
fn passes_place_vertices_alike() {
    let frame = frame();
    for cluster in 0..2 {
        for vertex in 0..8 {
            let drawn = mesh_vert(&frame, cluster, vertex);
            assert_eq!(mesh_prepass_vert(&frame, cluster, vertex).drawn, drawn);
            assert_eq!(mesh_silhouette_vert(&frame, cluster, vertex).drawn, drawn);
        }
    }
    assert_eq!(mesh_prepass_vert(&frame, 1, 2), PassVertex { drawn: Some(102), tag: 1 });
    assert_eq!(mesh_prepass_vert(&frame, 1, 3), PassVertex { drawn: None, tag: 0 });
    assert_eq!(mesh_silhouette_vert(&frame, 1, 2), PassVertex { drawn: Some(102), tag: 4 });
    assert_eq!(mesh_silhouette_vert(&frame, 1, 3), PassVertex { drawn: None, tag: 0 });
    assert_eq!(mesh_silhouette_vert(&frame, 0, 0).tag, 0);
}

fn cut(start: f32, end: f32) -> PlaneCut {
    PlaneCut { start: b(start), end: b(end), crossing: b(start / (start - end)) }
}

#[test]
fn planes_cut_segments() {
    let mut part = SegmentPart { t0: b(0.0), t1: b(1.0) };
    assert!(clip_plane(cut(-1.0, 3.0), &mut part));
    assert_eq!(part, SegmentPart { t0: b(0.25), t1: b(1.0) });
    assert!(clip_plane(cut(1.0, -1.0), &mut part));
    assert_eq!(part, SegmentPart { t0: b(0.25), t1: b(0.5) });
    assert!(clip_plane(cut(1.0, 2.0), &mut part));
    assert!(!clip_plane(cut(-1.0, -2.0), &mut part));
    assert_eq!(part, SegmentPart { t0: b(0.25), t1: b(0.5) });
    assert!(!clip_plane(cut(-3.0, 1.0), &mut part));
    assert_eq!(part, SegmentPart { t0: b(0.75), t1: b(0.5) });
}

#[test]
fn more_planes_leave_less() {
    let cuts = [cut(-1.0, 3.0), cut(2.0, -2.0), cut(1.0, 1.0), cut(-1.0, 2.0)];
    let parts: Vec<ProjectedSegment> =
        (0..=4).map(|n| clip_segment(&cuts[..n].to_vec())).collect();
    assert!(parts.iter().all(|p| p.clipped));
    assert_eq!(parts[0].part, SegmentPart { t0: b(0.0), t1: b(1.0) });
    assert_eq!(parts[2].part, SegmentPart { t0: b(0.25), t1: b(0.5) });
    assert_eq!(parts[3].part, parts[2].part);
    assert_eq!(parts[4].part, SegmentPart { t0: b(1.0 / 3.0), t1: b(0.5) });

    let beyond = vec![cut(-1.0, -1.0), cut(-1.0, 3.0)];
    let missed = clip_segment(&beyond);
    assert_eq!(missed, ProjectedSegment { clipped: false, part: SegmentPart { t0: 0, t1: b(1.0) } });

    let on_screen = [b(0.0), b(-0.5), b(1.0)];
    let endless = [b(0.0), b(f32::INFINITY), b(1.0)];
    assert!(project_segment(parts[4], on_screen, on_screen));
    assert!(!project_segment(parts[4], on_screen, endless));
    assert!(!project_segment(parts[4], [b(f32::NAN); 3], on_screen));
    assert!(!project_segment(missed, on_screen, on_screen));
}

#[test]
fn ink_follows_the_edges() {
    let taps = neighbours(Pixel { x: 0, y: 3 }, 8, 4);
    assert_eq!(taps.left, Pixel { x: 0, y: 3 });
    assert_eq!(taps.right, Pixel { x: 1, y: 3 });
    assert_eq!(taps.up, Pixel { x: 0, y: 2 });
    assert_eq!(taps.down, Pixel { x: 0, y: 3 });
    assert!(!touches_edge(0, &[1, 2, 3, 4]));
    assert!(!touches_edge(5, &[5, 5, 5, 5]));
    assert!(touches_edge(5, &[5, 5, 0, 5]));
    let pixel = LineworkPixel {
        token: 5,
        flags: 0,
        area_squared: b(1.0),
        plane_distance: b(0.1),
        depth: b(0.5),
    };
    let shifted = LineworkPixel { plane_distance: b(0.3), ..pixel };
    let flat = LineworkPixel { area_squared: b(0.0), ..pixel };
    let left_out = LineworkPixel { flags: MESH_FLAG_NO_LINEWORK, ..pixel };
    assert!(center_holds(pixel, b(0.2)));
    assert!(!center_holds(shifted, b(0.2)));
    assert!(!center_holds(flat, b(0.2)));
    assert!(!center_holds(left_out, b(0.2)));

    let same = Neighbour {
        token: 5,
        flags: 0,
        area_squared: b(1.0),
        crease: b(0.9),
        step: b(0.9),
        depth: b(0.0),
    };
    let void = Neighbour { token: 0, ..same };
    let crease = Neighbour { token: 6, crease: b(0.25), step: b(0.75), depth: b(0.9), ..same };
    let behind = Neighbour { depth: b(0.1), ..crease };
    let excluded = Neighbour { flags: MESH_FLAG_NO_LINEWORK, ..behind };
    let drawn = |center: LineworkPixel, n: Neighbour| {
        f32::from_bits(mesh_linework_frag(center, b(0.2), b(0.5), &[same, same, n, same]))
    };
    let ink = |n: Neighbour| drawn(pixel, n);
    assert_eq!(ink(same), 0.0);
    assert_eq!(ink(void), 0.5);
    assert_eq!(ink(crease), 0.25);
    assert_eq!(ink(behind), 0.75);
    assert_eq!(ink(excluded), 0.0);
    for center in [shifted, flat, left_out, LineworkPixel { token: 0, ..pixel }] {
        assert_eq!(drawn(center, behind), 0.0);
        assert_eq!(drawn(center, void), 0.0);
    }
}

// ---------------------------------------------------------------------------
// Particles

#[test]
fn seeds_are_scrambled() {
    let reference = |seed: u32| {
        let mut h = seed.wrapping_add(0x9e37_79b9);
        h ^= h >> 16;
        h = h.wrapping_mul(0x85eb_ca6b);
        h ^= h >> 13;
        h = h.wrapping_mul(0xc2b2_ae35);
        h ^ (h >> 16)
    };
    for seed in [0, 1, 2, 0x8000_0000, u32::MAX] {
        assert_eq!(hash(seed), reference(seed));
    }
    assert_eq!(bolt_node_seed(7, 0, 4), None);
    assert_eq!(bolt_node_seed(7, 4, 4), None);
    assert_eq!(bolt_node_seed(7, 1, 4), Some(hash(7 ^ 0x9e37_79b9)));
}

#[test]
fn the_pool_is_a_ring() {
    let emitter = Emitter {
        flags: 0,
        spawn_seed: 11,
        max_particles: 2,
        material_index: 5,
        shape_index: 0,
    };
    let mut allocated = 5;
    let emitters = vec![emitter];
    let spawn = particle_emit(&mut allocated, &emitters, &vec![9], 0, 1, 4).unwrap();
    assert_eq!(spawn.particle_index, 1);
    assert_eq!(spawn.seed, hash(11 ^ 1 ^ 5u32.wrapping_mul(65537)));
    assert_eq!(allocated, 6);
    assert_eq!((spawn.emitter_index, spawn.material_index, spawn.flags), (0, 5, PARTICLE_ACTIVE));
    assert!(spawn.tinted && !spawn.local_coords);
    let plain = vec![Emitter { flags: EMITTER_IGNORE_TINT | EMITTER_LOCAL_COORDS, ..emitter }];
    let untinted = particle_emit(&mut 0, &plain, &vec![1], 0, 0, 4).unwrap();
    assert!(!untinted.tinted && untinted.local_coords);
    assert_eq!(particle_emit(&mut allocated, &emitters, &vec![9], 0, 2, 4), None);
    assert_eq!(particle_emit(&mut allocated, &emitters, &vec![1], 0, 1, 4), None);
    assert_eq!(particle_emit(&mut allocated, &emitters, &vec![9], 1, 0, 4), None);
    assert_eq!(allocated, 6);
    let mut counts = vec![3, 4];
    assert_eq!(particle_reset(&mut counts, 257, 1000), 2);
    assert_eq!(counts, vec![0, 0]);
    assert_eq!(particles_in_use(2000, 1000), 1000);
}

#[test]
fn particles_age_and_are_drawn() {
    let young = ParticleAge {
        flags: PARTICLE_ACTIVE,
        lifetime: b(0.5),
        max_lifetime: b(1.0),
        angular_velocity: b(2.0),
        alignment: 1,
    };
    let step = |particle| particle_update(0, 4, particle);
    assert_eq!(step(young), ParticleStep::Advance { spins: true });
    let still = ParticleAge { angular_velocity: b(-0.0), ..young };
    assert_eq!(step(still), ParticleStep::Advance { spins: false });
    assert_eq!(
        step(ParticleAge { alignment: 0, ..young }),
        ParticleStep::Advance { spins: false }
    );
    assert_eq!(step(ParticleAge { lifetime: b(1.0), ..young }), ParticleStep::Retire);
    assert_eq!(step(ParticleAge { flags: 0, ..young }), ParticleStep::Skip);
    assert_eq!(particle_update(4, 4, young), ParticleStep::Skip);
    assert_eq!(lut_index(2, 255), 767);

    let mut lists = DrawLists { counts: vec![0, 0], visible: vec![99; 8] };
    let seen = ParticleView { clip_w: b(1.0), in_view: true, pixels: b(3.0) };
    particle_draw_prepare(&mut lists, 2, 4, 4, 1, 1, seen);
    particle_draw_prepare(&mut lists, 3, 4, 4, 1, 1, seen);
    particle_draw_prepare(&mut lists, 0, 4, 4, 1, 1, ParticleView { pixels: b(0.25), ..seen });
    particle_draw_prepare(&mut lists, 0, 4, 4, 1, 1, ParticleView { in_view: false, ..seen });
    particle_draw_prepare(&mut lists, 0, 4, 4, 1, 1, ParticleView { clip_w: b(-1.0), ..seen });
    particle_draw_prepare(&mut lists, 0, 4, 4, 0, 1, seen);
    assert_eq!(lists.counts, vec![0, 2]);
    assert_eq!(lists.visible[4..6], [2, 3]);
    assert_eq!(alignment_of(0), Alignment::Billboard);
    assert_eq!(
        particle_vert(EMITTER_LOCAL_COORDS | EMITTER_IGNORE_TINT, 1),
        ParticlePlan { moves_with_emitter: true, turns: false, alignment: Alignment::Mesh }
    );
    assert_eq!(
        particle_vert(EMITTER_IGNORE_TINT, 4),
        ParticlePlan { moves_with_emitter: false, turns: true, alignment: Alignment::Upright }
    );
    assert_eq!(shape_of(0), SpawnShape::Point);
}

// ---------------------------------------------------------------------------
// Glyph coverage

#[test]
fn only_the_glyphs_of_a_draw_are_placed() {
    let glyphs = vec![7, 5, 9];
    let placed: Vec<Option<u32>> = (0..4).map(|i| text_vert(&glyphs, i, 2)).collect();
    assert_eq!(placed, vec![Some(7), Some(5), None, None]);
}

#[test]
fn root_codes_follow_the_signs() {
    let reference = |y1: f32, y2: f32, y3: f32| {
        let i1 = y1.to_bits() >> 31;
        let i2 = y2.to_bits() >> 30;
        let i3 = y3.to_bits() >> 29;
        let shift = (i2 & 2) | (i1 & !2);
        let shift = (i3 & 4) | (shift & !4);
        (0x2e74 >> shift) & 0x0101
    };
    for y1 in [-1.0, -0.0, 0.0, 1.0] {
        for y2 in [-1.0, -0.0, 0.0, 1.0] {
            for y3 in [-1.0, -0.0, 0.0, 1.0] {
                assert_eq!(text_calc_root_code(b(y1), b(y2), b(y3)), reference(y1, y2, y3));
            }
        }
    }
}

#[test]
fn bands_stop_at_curves_behind() {
    let limits = band_limits(0x0003_0007);
    assert_eq!((limits.vertical, limits.horizontal), (7, 3));
    let curve = |behind, y1, y2, y3| BandCurve { behind, y1: b(y1), y2: b(y2), y3: b(y3) };
    let curves = vec![
        curve(false, 1.0, 1.0, -1.0),
        curve(false, 1.0, 1.0, 1.0),
        curve(true, 1.0, 1.0, -1.0),
        curve(false, -1.0, -1.0, 1.0),
    ];
    let crossings =
        text_band_coverage(&vec![9, 8, 7, 6, 5], TextBandHeader { first: 1, count: 4 }, &curves);
    assert_eq!(crossings.len(), 1);
    assert_eq!(crossings[0].curve, 8);
    assert!(crossings[0].first != crossings[0].second);
    assert!(is_nearly_linear(b(0.0)));
    assert!(!is_nearly_linear(b(1.0)));
}

#[test]
fn text_colors_are_bytes() {
    let bytes = text_unpack_color(0x8040_2010);
    assert_eq!((bytes.red, bytes.green, bytes.blue, bytes.alpha), (0x10, 0x20, 0x40, 0x80));
    let corners: Vec<(bool, bool)> = (0..6)
        .map(|k| {
            let c = text_corner(k);
            (c.right, c.upper)
        })
        .collect();
    for corner in [(false, false), (true, false), (true, true), (false, true)] {
        assert!(corners.contains(&corner));
    }
}

// ---------------------------------------------------------------------------
// Quads, outlines, gizmos, post

#[test]
fn quads_are_two_triangles() {
    assert_eq!((0..6).map(ui_corner).collect::<Vec<u32>>(), vec![0, 3, 2, 0, 2, 1]);
    assert_eq!(ui_vert(7, 2), Some(7));
    assert_eq!(ui_vert(11, 2), Some(5));
    assert_eq!(ui_vert(12, 2), None);
    let screen: Vec<(u32, u32)> = (0..3)
        .map(|k| {
            let v = fullscreen_vert(k);
            (v.u, v.v)
        })
        .collect();
    assert_eq!(screen, vec![(0, 0), (0, 2), (2, 0)]);
}

#[test]
fn floods_take_the_nearest_seed() {
    let at = FloodPixel { x: 1, y: 1 };
    assert_eq!(flood_sample(at, 2, 8, 8, 0), None);
    assert_eq!(flood_sample(at, 2, 8, 8, 4), Some(at));
    assert_eq!(flood_sample(at, 2, 8, 8, 8), Some(FloodPixel { x: 3, y: 3 }));
    assert_eq!(flood_sample(at, 7, 8, 8, 5), None);
    let none = FloodSeed { seeded: false, distance: b(0.0) };
    let mut seeds = [none; 9];
    assert_eq!(outline_jfa_flood(&seeds), None);
    seeds[2] = FloodSeed { seeded: true, distance: b(4.0) };
    seeds[5] = FloodSeed { seeded: true, distance: b(1.0) };
    seeds[7] = FloodSeed { seeded: true, distance: b(1.0) };
    assert_eq!(outline_jfa_flood(&seeds), Some(5));
    assert!(outline_jfa_init(b(1.0)));
    assert!(!outline_jfa_init(b(0.0)));
}

#[test]
fn outlines_surround_their_group() {
    let region = OutlineRegion { min_x: 2, min_y: 2, max_x: 6, max_y: 6 };
    let field = OutlineField { mask: b(0.0), seed_x: b(3.0), group_id: 2 };
    assert_eq!(outline_composite(region, 3, 3, field, 4, 8), Some(1));
    assert_eq!(outline_composite(region, 6, 3, field, 4, 8), None);
    assert_eq!(outline_composite(region, 3, 3, field, 1, 8), None);
    let inside = OutlineField { mask: b(1.0), ..field };
    assert_eq!(outline_composite(region, 3, 3, inside, 4, 8), None);
    let unseeded = OutlineField { seed_x: b(-1.0), ..field };
    assert_eq!(outline_composite(region, 3, 3, unseeded, 4, 8), None);
    assert!(within_outline(b(2.0), b(2.0)));
    assert!(!within_outline(b(2.5), b(2.0)));
    assert_eq!(silhouette_group(0), None);
    assert_eq!(silhouette_group(3), Some(3));
}

#[test]
fn gizmos_are_drawn_in_their_pass() {
    let instances = vec![
        GizmoInstance { flags: 0, shape: GizmoShape::BoxEdges },
        GizmoInstance { flags: GIZMO_FLAG_XRAY, shape: GizmoShape::Ring },
    ];
    assert_eq!(gizmo_vert(&instances, 35, false), Some((0, GizmoVertex::Cube(35))));
    assert_eq!(gizmo_vert(&instances, 35, true), None);
    assert_eq!(gizmo_vert(&instances, 37, true), Some((1, GizmoVertex::Corner(1))));
    assert_eq!(gizmo_vert(&instances, 42, true), Some((1, GizmoVertex::Collapsed)));
    assert_eq!(gizmo_vert(&instances, 72, false), None);
    assert_eq!(
        gizmo_frag(GizmoShape::Ring, b(1.0), 0, 0),
        GizmoCoverage::Ring { width: DEFAULT_STROKE }
    );
    assert_eq!(
        gizmo_frag(GizmoShape::LatticeCell, b(2.0), 0, 0),
        GizmoCoverage::Edges { grid: true, width: b(2.0) }
    );
    assert!(!is_covered(b(0.0)));
    assert!(is_covered(b(0.5)));
}

#[test]
fn post_effects_decide_what_to_sample() {
    assert!(lens_ray_is_rendered(b(0.0), b(1.0)));
    assert!(!lens_ray_is_rendered(b(-0.1), b(0.5)));
    assert_eq!(aberration_taps(0, b(1.0)), None);
    assert_eq!(aberration_taps(8, b(0.0)), None);
    assert_eq!(aberration_taps(1, b(1.0)), Some(1));
    assert_eq!(aberration_taps(8, b(1.0)), Some(8));
    assert_eq!(chroma_taps(1, b(1.0), b(1.0)), 0);
    assert_eq!(chroma_taps(5, b(0.0), b(0.0)), 0);
    assert_eq!(chroma_taps(5, b(0.0), b(1.0)), 5);
    assert!(adds(b(0.1)) && !adds(b(-0.0)));
    assert!(has_texture(1) && !has_texture(0));
    assert!(thresholds(b(0.1)) && !thresholds(b(0.0)));
    let (draw, count) = write_draw();
    assert_eq!((draw.index_count, draw.instance_count, count), (3, 1, 1));
    let mut words = vec![0; 4];
    fill(&mut words, 2, 3, 7);
    fill(&mut words, 3, 3, 7);
    assert_eq!(words, vec![0, 0, 7, 0]);
}

// ---------------------------------------------------------------------------
// Bit patterns

#[test]
fn bit_patterns_compare_as_their_values_do() {
    let values = [
        0.0f32,
        -0.0,
        1.0,
        -1.0,
        1.5,
        -2.75,
        1.0e-45,
        -1.0e-45,
        f32::MIN_POSITIVE,
        f32::MAX,
        f32::MIN,
        f32::INFINITY,
        f32::NEG_INFINITY,
        f32::NAN,
        -f32::NAN,
    ];
    for a in values {
        let x = a.to_bits();
        assert_eq!(is_not_a_number(x), a.is_nan());
        assert_eq!(is_finite(x), a.is_finite());
        assert_eq!(is_zero(x), a == 0.0);
        for b in values {
            let y = b.to_bits();
            assert_eq!(is_equal(x, y), a == b, "{a} == {b}");
            assert_eq!(is_less(x, y), a < b, "{a} < {b}");
            assert_eq!(is_at_most(x, y), a <= b, "{a} <= {b}");
            let larger = f32::from_bits(larger_of(x, y));
            let smaller = f32::from_bits(smaller_of(x, y));
            assert!(larger == a.max(b) || larger.is_nan() && a.max(b).is_nan());
            assert!(smaller == a.min(b) || smaller.is_nan() && a.min(b).is_nan());
        }
    }
}

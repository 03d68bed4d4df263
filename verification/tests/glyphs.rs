//! Glyph outlines and the record of cached glyphs.

use asha_ui::abi::{Point, Quadruple, RectBits};
use asha_ui::font_file::{
    find_face, find_table, reads_advance, reads_metrics, reads_outlines, TAG_HEAD, TAG_HHEA,
    TAG_HMTX, TAG_MAXP, TAG_NAME,
};
use asha_ui::glyphs::{
    convert_outline, default_cache_config, CacheOutcome, CachedGlyph, FontGlyphKey, FontOutline,
    GlyphCurve, GlyphLookup, GlyphOutlineProvider, OutlineVerb,
};

fn point(x: f32, y: f32) -> Point {
    Point { x: x.to_bits(), y: y.to_bits() }
}

fn be16(out: &mut Vec<u8>, v: i32) {
    out.extend_from_slice(&(v as u16).to_be_bytes());
}

fn be32(out: &mut Vec<u8>, v: u32) {
    out.extend_from_slice(&v.to_be_bytes());
}

type Tables = Vec<(&'static [u8; 4], Vec<u8>)>;

/// The tables of a font of three glyphs: an empty one, a triangle, and a
/// quadratic arch.
fn tables(units_per_em: i32) -> Tables {
    let mut head = vec![];
    be32(&mut head, 0x0001_0000);
    be32(&mut head, 0x0001_0000);
    be32(&mut head, 0);
    be32(&mut head, 0x5f0f_3cf5);
    be16(&mut head, 0);
    be16(&mut head, units_per_em);
    head.extend_from_slice(&[0; 16]);
    for v in [0, 0, 1000, 800, 0, 8, 2, 1, 0] {
        be16(&mut head, v);
    }

    let mut hhea = vec![];
    be32(&mut hhea, 0x0001_0000);
    for v in [800, -200, 0, 700, 0, 0, 1000, 1, 0, 0, 0, 0, 0, 0, 0, 3] {
        be16(&mut hhea, v);
    }

    let mut maxp = vec![];
    be32(&mut maxp, 0x0001_0000);
    be16(&mut maxp, 3);
    maxp.extend_from_slice(&[0; 26]);

    let mut hmtx = vec![];
    for v in [500, 0, 600, 0, 700, 0] {
        be16(&mut hmtx, v);
    }

    // On-curve flags are 1; coordinates are signed words.
    let glyph = |flags: &[u8], xs: &[i32], ys: &[i32]| {
        let mut out = vec![];
        for v in [1, 0, 0, 1000, 800, flags.len() as i32 - 1, 0] {
            be16(&mut out, v);
        }
        out.extend_from_slice(flags);
        for coords in [xs, ys] {
            let mut last = 0;
            for c in coords {
                be16(&mut out, c - last);
                last = *c;
            }
        }
        while out.len() % 4 != 0 {
            out.push(0);
        }
        out
    };
    let triangle = glyph(&[1, 1, 1], &[0, 1000, 500], &[0, 0, 800]);
    let arch = glyph(&[1, 0, 1], &[0, 500, 1000], &[0, 800, 0]);
    let mut loca = vec![];
    be32(&mut loca, 0);
    be32(&mut loca, 0);
    be32(&mut loca, triangle.len() as u32);
    be32(&mut loca, (triangle.len() + arch.len()) as u32);
    let mut glyf = triangle;
    glyf.extend(arch);

    // One group of characters for each drawn glyph.
    let mut cmap = vec![];
    for v in [0, 1, 3, 10] {
        be16(&mut cmap, v);
    }
    be32(&mut cmap, 12);
    be16(&mut cmap, 12);
    be16(&mut cmap, 0);
    for v in [16 + 2 * 12, 0, 2, 0x41, 0x41, 1, 0xe9, 0xe9, 2] {
        be32(&mut cmap, v);
    }

    vec![
        (b"cmap", cmap),
        (b"glyf", glyf),
        (b"head", head),
        (b"hhea", hhea),
        (b"hmtx", hmtx),
        (b"loca", loca),
        (b"maxp", maxp),
    ]
}

/// A font file that holds tables, at some place of a larger file.
fn assembled(tables: &Tables, base: usize) -> Vec<u8> {
    let mut tables = tables.clone();
    tables.sort();
    let mut out = vec![];
    be32(&mut out, 0x0001_0000);
    for v in [tables.len() as i32, 64, 2, 32] {
        be16(&mut out, v);
    }
    let mut at = base + 12 + 16 * tables.len();
    for (tag, data) in &tables {
        out.extend_from_slice(*tag);
        be32(&mut out, 0);
        be32(&mut out, at as u32);
        be32(&mut out, data.len() as u32);
        at += (data.len() + 3) / 4 * 4;
    }
    for (_, data) in &tables {
        out.extend_from_slice(data);
        while out.len() % 4 != 0 {
            out.push(0);
        }
    }
    out
}

fn font(units_per_em: i32) -> Vec<u8> {
    assembled(&tables(units_per_em), 0)
}

#[test]
fn glyphs_are_read_from_their_font() {
    let bytes = font(1000);
    let provider = GlyphOutlineProvider::new();
    let request = match provider.resolve(&bytes, 0, 9, 1) {
        GlyphLookup::Load(request) => request,
        _ => panic!("the triangle is in the font"),
    };
    assert_eq!(request.key, FontGlyphKey { blob_id: 9, font_index: 0, glyph_id: 1 });
    assert_eq!(request.units_per_em, 1000);
    assert_eq!(f32::from_bits(request.advance), 600.0);
    let outline = request.outline.as_ref().unwrap();
    assert_eq!(outline.verbs[0], OutlineVerb::MoveTo);
    assert_eq!(*outline.verbs.last().unwrap(), OutlineVerb::Close);
    assert!(outline.points.contains(&point(1000.0, 0.0)));
    assert!(outline.points.contains(&point(500.0, 800.0)));
    assert_eq!(outline.bounds, RectBits { min: point(0.0, 0.0), max: point(1000.0, 800.0) });
    let glyph = request.outline();
    assert_eq!(glyph.curves.len(), 3);
    assert_eq!(glyph.contour_end, vec![3]);
}

#[test]
fn quadratic_glyphs_keep_their_control_points() {
    let bytes = font(1000);
    let request = match GlyphOutlineProvider::new().resolve(&bytes, 0, 9, 2) {
        GlyphLookup::Load(request) => request,
        _ => panic!("the arch is in the font"),
    };
    assert_eq!(f32::from_bits(request.advance), 700.0);
    let glyph = request.outline();
    let arch = GlyphCurve { p1: point(0.0, 0.0), p2: point(500.0, 800.0), p3: point(1000.0, 0.0) };
    assert_eq!(glyph.curves[0], arch);
    assert_eq!(glyph.contour_end, vec![2]);
}

#[test]
fn glyphs_without_an_outline_keep_their_advance() {
    let bytes = font(1000);
    let request = match GlyphOutlineProvider::new().resolve(&bytes, 0, 9, 0) {
        GlyphLookup::Load(request) => request,
        _ => panic!("the empty glyph is in the font"),
    };
    let glyph = request.outline();
    assert!(glyph.curves.is_empty());
    assert_eq!(f32::from_bits(glyph.advance_em), 500.0);
    assert_eq!(glyph.bbox_em, Quadruple { x: 0, y: 0, z: 0, w: 0 });
}

#[test]
fn unreadable_fonts_have_no_glyphs() {
    let provider = GlyphOutlineProvider::new();
    assert!(matches!(provider.resolve(&[1, 2, 3], 0, 9, 1), GlyphLookup::Unavailable));
    assert!(matches!(provider.resolve(&font(1000), 3, 9, 1), GlyphLookup::Unavailable));
    assert!(matches!(provider.resolve(&font(1000), 0, 9, 0x1_0000), GlyphLookup::Unavailable));
    assert!(matches!(provider.resolve(&font(0), 0, 9, 1), GlyphLookup::Unavailable));
}

fn is_loaded(bytes: &[u8], glyph: u32) -> bool {
    matches!(GlyphOutlineProvider::new().resolve(bytes, 0, 9, glyph), GlyphLookup::Load(_))
}

/// A font with a table added or replaced.
fn with_table(tag: &'static [u8; 4], data: Vec<u8>) -> Vec<u8> {
    let mut tables = tables(1000);
    tables.retain(|(t, _)| *t != tag);
    tables.push((tag, data));
    assembled(&tables, 0)
}

fn table_with(tag: &[u8; 4], at: usize, v: i32) -> Vec<u8> {
    let mut data = tables(1000).into_iter().find(|(t, _)| *t == tag).unwrap().1;
    data[at..at + 2].copy_from_slice(&(v as u16).to_be_bytes());
    data
}

#[test]
fn descenders_have_to_have_a_negative() {
    assert!(is_loaded(&with_table(b"hhea", table_with(b"hhea", 6, -32767)), 1));
    let least = with_table(b"hhea", table_with(b"hhea", 6, -32768));
    assert!(!reads_metrics(&least, 0));
    assert!(!is_loaded(&least, 1));

    let mut os2 = vec![0; 78];
    os2[63] = 128;
    os2[69] = 1;
    assert!(is_loaded(&with_table(b"OS/2", os2.clone()), 1));
    // A typographic ascender stands in for the header.
    let mut both = tables(1000);
    both.retain(|(t, _)| *t != b"hhea");
    both.push((b"hhea", table_with(b"hhea", 6, -32768)));
    both.push((b"OS/2", os2.clone()));
    assert!(is_loaded(&assembled(&both, 0), 1));
    os2[70] = 0x80;
    assert!(!is_loaded(&with_table(b"OS/2", os2.clone()), 1));
    os2[63] = 0;
    assert!(is_loaded(&with_table(b"OS/2", os2), 1));

    let mut vhea = vec![0; 36];
    assert!(is_loaded(&with_table(b"vhea", vhea.clone()), 1));
    vhea[6] = 0x80;
    assert!(!is_loaded(&with_table(b"vhea", vhea), 1));
}

#[test]
fn advances_need_at_least_one_metric() {
    let none = with_table(b"hhea", table_with(b"hhea", 34, 0));
    assert!(reads_metrics(&none, 0) && !reads_advance(&none, 0, 1));
    assert!(!is_loaded(&none, 1));
    assert!(!is_loaded(&with_table(b"hhea", vec![]), 1));
    for tag in [b"head", b"maxp"] {
        let mut tables = tables(1000);
        tables.retain(|(t, _)| *t != tag);
        assert!(!is_loaded(&assembled(&tables, 0), 1));
    }
    let mut tables = tables(1000);
    tables.retain(|(t, _)| *t != b"hhea");
    assert!(is_loaded(&assembled(&tables, 0), 1));
}

/// A table of advance variations: one set with one delta over one region, and a
/// map of some entries where it has any.
fn variations(entries: u8, deltas: i32, long: i32) -> Vec<u8> {
    let mut out = vec![];
    be32(&mut out, 0x0001_0000);
    be32(&mut out, 20);
    be32(&mut out, if entries == 0 { 0 } else { 60 });
    out.extend_from_slice(&[0; 8]);
    // The store: its regions at 12 and its set at 22, both from its start.
    be16(&mut out, 1);
    be32(&mut out, 12);
    be16(&mut out, 1);
    be32(&mut out, 22);
    for v in [1, 1, 0, 16384, 16384] {
        be16(&mut out, v);
    }
    for v in [3, long, deltas, 0] {
        be16(&mut out, v);
    }
    out.extend_from_slice(&[7; 10]);
    assert_eq!(out.len(), 60);
    be16(&mut out, 0);
    be16(&mut out, i32::from(entries));
    out.extend(vec![0; usize::from(entries)]);
    out
}

#[test]
fn variations_have_to_count_their_deltas() {
    for (table, loaded) in [
        (variations(0, 1, 1), true),
        (variations(0, 1, 2), false),
        (variations(2, 1, 0), true),
        (variations(2, 1, 2), false),
    ] {
        assert_eq!(is_loaded(&with_table(b"HVAR", table), 1), loaded);
    }
    let mut empty_map = variations(1, 1, 1);
    empty_map[63] = 0;
    assert!(!is_loaded(&with_table(b"HVAR", empty_map), 1));
    let mut far = variations(0, 1, 1);
    far[4..8].copy_from_slice(&[0xff; 4]);
    assert!(!is_loaded(&with_table(b"HVAR", far), 1));
}

#[test]
fn family_names_have_to_lie_within_their_table() {
    let names = |size: i32, text: &[u8]| {
        let mut out = vec![];
        for v in [0, 1, 18, 1, 0, 0, 1, size, 0] {
            be16(&mut out, v);
        }
        out.extend_from_slice(text);
        out
    };
    // Records of platform, encoding, language, name, size and place, then text.
    let table = |records: &[[i32; 6]], text: &[u8]| {
        let mut out = vec![];
        for v in [0, records.len() as i32, 6 + 12 * records.len() as i32] {
            be16(&mut out, v);
        }
        for v in records.iter().flatten() {
            be16(&mut out, *v);
        }
        out.extend_from_slice(text);
        out
    };
    let named = |name: Vec<u8>, bitmaps: bool| {
        let mut tables = tables(1000);
        tables.push((b"name", name));
        if bitmaps {
            tables.push((b"sbix", vec![0; 8]));
        }
        assembled(&tables, 0)
    };
    assert!(is_loaded(&named(names(4, b"Apple"), true), 1));
    let cut = named(names(6, b"Apple"), true);
    assert!(reads_advance(&cut, 0, 1) && !reads_outlines(&cut, 0));
    assert!(!is_loaded(&cut, 1));
    // Without bitmaps in colour, names are not read.
    assert!(is_loaded(&named(names(6, b"Apple"), false), 1));

    // Records have to begin within the table or at its end.
    let mut short = vec![];
    for v in [0, 1, 6] {
        be16(&mut short, v);
    }
    assert!(is_loaded(&named(short.clone(), true), 1));
    short[3] = 2;
    assert!(!is_loaded(&named(short.clone(), true), 1));
    assert!(is_loaded(&named(short, false), 1));
    // A name without text may be at the end, not beyond it.
    assert!(is_loaded(&named(table(&[[1, 0, 0, 1, 0, 5]], b"Apple"), true), 1));
    assert!(!is_loaded(&named(table(&[[1, 0, 0, 1, 0, 6]], b"Apple"), true), 1));
    // The first family name counts, or the first one without a language.
    let good = [1, 0, 0, 1, 5, 0];
    let bad = [1, 0, 0, 1, 9, 0];
    let other = [1, 0, 0, 2, 9, 0];
    let universal = [0, 3, 0, 1, 9, 0];
    assert!(is_loaded(&named(table(&[other, good, bad], b"Apple"), true), 1));
    assert!(!is_loaded(&named(table(&[other, bad, good], b"Apple"), true), 1));
    assert!(is_loaded(&named(table(&[bad, universal, bad], b"Apple"), true), 1));
    // The search ends there, so that later records do not count.
    let mut ended = table(&[universal], b"");
    ended[3] = 9;
    assert!(is_loaded(&named(ended, true), 1));
}

#[test]
fn collections_hold_several_faces() {
    let mut bytes = vec![];
    bytes.extend_from_slice(b"ttcf");
    for v in [0x0001_0000, 2, 20] {
        be32(&mut bytes, v);
    }
    let first = assembled(&tables(1000), 20);
    be32(&mut bytes, 20 + first.len() as u32);
    bytes.extend(first);
    let base = bytes.len();
    bytes.extend(assembled(&tables(2000), base));
    assert_eq!(find_face(&bytes, 0), Some(20));
    assert_eq!(find_face(&bytes, 1), Some(base as u32));
    assert_eq!(find_face(&bytes, 2), None);
    assert_eq!(find_face(&font(1000), 0), Some(0));
    let provider = GlyphOutlineProvider::new();
    for (face, units) in [(0, 1000), (1, 2000)] {
        match provider.resolve(&bytes, face, 9, 1) {
            GlyphLookup::Load(request) => assert_eq!(request.units_per_em, units),
            _ => panic!("the face is in the collection"),
        }
    }
    assert!(matches!(provider.resolve(&bytes, 2, 9, 1), GlyphLookup::Unavailable));
}

#[test]
fn tables_are_found_by_their_tag() {
    let bytes = font(1000);
    for tag in [TAG_HEAD, TAG_HHEA, TAG_HMTX, TAG_MAXP] {
        let table = find_table(&bytes, 0, tag).unwrap();
        assert!(table.start < table.end && table.end as usize <= bytes.len());
    }
    let head = find_table(&bytes, 0, TAG_HEAD).unwrap();
    assert_eq!(head.end - head.start, 54);
    assert_eq!(find_table(&bytes, 0, TAG_NAME), None);
    assert_eq!(find_table(&[], 0, TAG_HEAD), None);
}

#[test]
fn outline_provider_encodes_a_and_e_acute() {
    let bytes = font(1000);
    let font_ref = swash::FontRef::from_index(&bytes, 0).expect("parse the font");
    let mut provider = GlyphOutlineProvider::default();
    let mut descriptor_indices = Vec::new();
    for ch in ['A', '\u{e9}'] {
        let glyph_id = u32::from(font_ref.charmap().map(ch));
        assert_ne!(glyph_id, 0, "the font must contain {ch:?}");
        let request = match provider.resolve(&bytes, 0, 1, glyph_id) {
            GlyphLookup::Load(request) => request,
            _ => panic!("outline resolution failed for {ch:?}"),
        };
        let outline = request.outline();
        let id = provider.next_id().expect("there is room");
        let stored = CachedGlyph {
            descriptor_index: u32::from(id),
            empty: outline.curves.is_empty(),
        };
        let record = provider.insert(request.key, CacheOutcome::Stored(stored)).unwrap();
        assert!(!record.empty, "{ch:?} should have a non-empty outline");
        // It has an extent both ways.
        let extent = |low: u32, high: u32| f32::from_bits(high) - f32::from_bits(low);
        assert!(extent(outline.bbox_em.x, outline.bbox_em.z) > 0.0);
        assert!(extent(outline.bbox_em.y, outline.bbox_em.w) > 0.0);
        descriptor_indices.push((ch, record.descriptor_index));
    }

    // Resolving again must reuse the cached descriptor.
    let before = provider.next_id();
    let a_id = u32::from(font_ref.charmap().map('A'));
    match provider.resolve(&bytes, 0, 1, a_id) {
        GlyphLookup::Cached(again) => {
            assert_eq!(again.descriptor_index, descriptor_indices[0].1);
        }
        _ => panic!("a cached glyph must not be encoded again"),
    }
    assert_eq!(provider.next_id(), before);
}

#[test]
fn cached_glyphs_are_found_again() {
    let mut provider = GlyphOutlineProvider::default();
    let key = FontGlyphKey { blob_id: 9, font_index: 0, glyph_id: 1 };
    let stored = CachedGlyph { descriptor_index: 4, empty: false };
    assert_eq!(provider.next_id(), Some(0));
    assert_eq!(provider.insert(key, CacheOutcome::Full), None);
    assert_eq!(provider.next_id(), Some(0));
    assert_eq!(provider.insert(key, CacheOutcome::Stored(stored)), Some(stored));
    assert_eq!(provider.next_id(), Some(1));
    match provider.resolve(&[], 0, 9, 1) {
        GlyphLookup::Cached(found) => assert_eq!(found, stored),
        _ => panic!("the glyph is cached"),
    }
    // The same number in another font or face is another glyph.
    assert!(matches!(provider.resolve(&[], 0, 8, 1), GlyphLookup::Unavailable));
    assert!(matches!(provider.resolve(&[], 1, 9, 1), GlyphLookup::Unavailable));
}

#[test]
fn the_cache_has_sixteen_bit_numbers() {
    let mut provider = GlyphOutlineProvider::new();
    let stored = CachedGlyph { descriptor_index: 0, empty: true };
    let mut count = 0;
    while provider.next_id().is_some() {
        let key = FontGlyphKey { blob_id: 1, font_index: 0, glyph_id: count };
        provider.insert(key, CacheOutcome::Stored(stored));
        count += 1;
    }
    assert_eq!(count, 65536);
}

fn outline(verbs: Vec<OutlineVerb>, points: Vec<Point>) -> FontOutline {
    FontOutline {
        verbs,
        points,
        bounds: RectBits { min: point(1.0, 2.0), max: point(3.0, 4.0) },
    }
}

#[test]
fn open_contours_are_closed_by_a_line() {
    let (a, b, c) = (point(0.0, 0.0), point(1.0, 0.0), point(1.0, 1.0));
    let glyph = convert_outline(
        &outline(
            vec![OutlineVerb::MoveTo, OutlineVerb::LineTo, OutlineVerb::LineTo, OutlineVerb::Close],
            vec![a, b, c],
        ),
        7,
    )
    .unwrap();
    assert_eq!(glyph.curves[0], GlyphCurve { p1: a, p2: b, p3: b });
    assert_eq!(glyph.curves[2], GlyphCurve { p1: c, p2: a, p3: a });
    assert_eq!(glyph.contour_end, vec![3]);
    assert_eq!(glyph.advance_em, 7);
    assert_eq!(glyph.bbox_em.x, 1.0f32.to_bits());
    assert_eq!(glyph.bbox_em.w, 4.0f32.to_bits());
}

#[test]
fn contours_that_return_need_no_line() {
    let (a, b) = (point(0.0, 0.0), point(1.0, 0.0));
    // A negative zero is the same place.
    let again = point(-0.0, 0.0);
    let glyph = convert_outline(
        &outline(
            vec![
                OutlineVerb::MoveTo,
                OutlineVerb::QuadTo,
                OutlineVerb::Close,
                OutlineVerb::Close,
            ],
            vec![a, b, again],
        ),
        7,
    )
    .unwrap();
    assert_eq!(glyph.curves.len(), 1);
    assert_eq!(glyph.contour_end, vec![1]);
}

#[test]
fn cubic_outlines_are_not_converted() {
    let p = point(0.0, 0.0);
    let cubic = outline(vec![OutlineVerb::MoveTo, OutlineVerb::CurveTo], vec![p; 4]);
    assert!(convert_outline(&cubic, 7).is_none());
}

#[test]
fn the_default_capacities_suit_a_usual_ui() {
    let config = default_cache_config();
    assert_eq!(config.max_glyphs, 4096);
    assert_eq!(config.curve_capacity, 262144);
    assert_eq!(config.band_capacity, 65536);
    assert_eq!(config.band_curve_index_capacity, 524288);
}

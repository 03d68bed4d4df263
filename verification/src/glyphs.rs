//! Glyph outlines: reading them from fonts, turning them into quadratic
//! curves, and remembering which ones a glyph cache holds already.
//!
//! Fonts are read with `swash`. Coordinates are single-precision bit patterns;
//! dividing them by the font's units per em is left to the caller, between
//! [`GlyphOutlineProvider::resolve`] and [`GlyphRequest::outline`].

use std::collections::HashMap;

use swash::scale::ScaleContext;
use swash::zeno::Point as FontPoint;
use swash::zeno::Verb::{Close, CurveTo, LineTo, MoveTo, QuadTo};
use swash::FontRef;
use vstd::prelude::*;

use crate::abi::{Point, Quadruple, RectBits};
use crate::float_bits;
use crate::font_file;

verus! {

broadcast use vstd::std_specs::hash::group_hash_axioms;

/// How many glyphs a cache can tell apart.
pub const TEXT_GLYPH_CACHE_INDEX_COUNT: usize = 65536;

// ---------------------------------------------------------------------------
// Reading fonts

/// A step along a glyph outline.
#[derive(Debug, Clone, Copy, PartialEq, Eq, Structural)]
pub enum OutlineVerb {
    MoveTo,
    LineTo,
    QuadTo,
    CurveTo,
    Close,
}

/// An outline in font units.
pub struct FontOutline {
    pub verbs: Vec<OutlineVerb>,
    pub points: Vec<Point>,
    pub bounds: RectBits,
}

/// Model of an outline.
pub struct OutlineModel {
    pub verbs: Seq<OutlineVerb>,
    pub points: Seq<Point>,
    pub bounds: RectBits,
}

impl View for FontOutline {
    type V = OutlineModel;

    open spec fn view(&self) -> OutlineModel {
        OutlineModel { verbs: self.verbs@, points: self.points@, bounds: self.bounds }
    }
}

/// The model of an optional outline.
pub open spec fn outline_view(outline: Option<FontOutline>) -> Option<OutlineModel> {
    match outline {
        Some(outline) => Some(outline@),
        None => None,
    }
}

/// How many points a step takes.
pub open spec fn verb_points(verb: OutlineVerb) -> nat {
    match verb {
        OutlineVerb::MoveTo => 1,
        OutlineVerb::LineTo => 1,
        OutlineVerb::QuadTo => 2,
        OutlineVerb::CurveTo => 3,
        OutlineVerb::Close => 0,
    }
}

/// How many points the first `n` steps take.
pub open spec fn points_taken(verbs: Seq<OutlineVerb>, n: nat) -> nat
    decreases n,
{
    if n == 0 {
        0
    } else {
        points_taken(verbs, (n - 1) as nat) + verb_points(verbs[n - 1])
    }
}

/// Units per em of face `index` of a font file: what its header says, or one
/// where it has none.
pub open spec fn font_units_per_em(bytes: Seq<u8>, index: u32) -> u16 {
    match font_file::face_at(bytes, index) {
        Some(face) => match font_file::held_table(bytes, face, font_file::TAG_HEAD) {
            Some(head) => font_file::field(bytes, Some(head), 18),
            None => 1,
        },
        None => 1,
    }
}

/// Bits of a glyph's advance width in font units.
pub uninterp spec fn font_advance(bytes: Seq<u8>, index: u32, glyph: u16) -> u32;

/// A glyph's unscaled, unhinted outline, if it has one.
pub uninterp spec fn font_outline(bytes: Seq<u8>, index: u32, glyph: u16) -> Option<OutlineModel>;

/// Reads a face's units per em.
///
/// Trusted: `swash::FontRef::metrics` reads the units per em from the header at
/// byte 18, as zero where the header is too short, and has one where there is no
/// header. `swash::FontRef::from_index` finds every face that
/// [`font_file::face_at`] finds, and the descenders of such a face can be
/// negated, which is the one operation on its metrics that could overflow.
#[verifier::external_body]
fn units_per_em(bytes: &[u8], index: u32) -> (units: u16)
    requires
        font_file::metrics_readable(bytes@, index),
    ensures
        units == font_units_per_em(bytes@, index),
{
    FontRef::from_index(bytes, index as usize).unwrap().metrics(&[]).units_per_em
}

/// Reads a glyph's advance width in font units.
///
/// Trusted: `swash::GlyphMetrics::advance_width` without variations depends on
/// the bytes, the index and the glyph alone. It counts down from a number of
/// metrics that is not zero, and follows the glyph's variation to a set that
/// counts its deltas.
#[verifier::external_body]
fn advance_width(bytes: &[u8], index: u32, glyph: u16) -> (advance: u32)
    requires
        font_file::advance_readable(bytes@, index, glyph),
    ensures
        advance == font_advance(bytes@, index, glyph),
{
    let font = FontRef::from_index(bytes, index as usize).unwrap();
    font.glyph_metrics(&[]).advance_width(glyph).to_bits()
}

/// Reads a glyph's outline in font units.
///
/// Trusted: `swash::scale::Scaler::scale_outline` at its default size of zero,
/// without hinting and variations, depends on the bytes, the index and the
/// glyph alone, and every step of an outline comes with its points: one for a
/// move or a line, two for a quadratic and three for a cubic curve, none for
/// closing a contour. Setting the scaler up reads the face's metrics and, of a
/// face with bitmaps in colour, searches the table of names for its family name.
#[verifier::external_body]
fn scale_outline(bytes: &[u8], index: u32, glyph: u16) -> (outline: Option<FontOutline>)
    requires
        font_file::outlines_readable(bytes@, index),
    ensures
        outline_view(outline) == font_outline(bytes@, index, glyph),
        outline matches Some(o) ==> o.points@.len() == points_taken(o.verbs@, o.verbs@.len()),
{
    let font = FontRef::from_index(bytes, index as usize)?;
    let outline = ScaleContext::new().builder(font).hint(false).build().scale_outline(glyph)?;
    let point = |p: &FontPoint| Point { x: p.x.to_bits(), y: p.y.to_bits() };
    let verbs = outline.verbs().iter().map(|verb| match verb {
        MoveTo => OutlineVerb::MoveTo,
        LineTo => OutlineVerb::LineTo,
        QuadTo => OutlineVerb::QuadTo,
        CurveTo => OutlineVerb::CurveTo,
        Close => OutlineVerb::Close,
    }).collect();
    let bounds = RectBits { min: point(&outline.bounds().min), max: point(&outline.bounds().max) };
    Some(FontOutline { verbs, points: outline.points().iter().map(point).collect(), bounds })
}

// ---------------------------------------------------------------------------
// Outlines as quadratic curves

/// One quadratic curve; a line has its end point twice.
#[derive(Debug, Clone, Copy, PartialEq, Eq, Structural)]
pub struct GlyphCurve {
    pub p1: Point,
    pub p2: Point,
    pub p3: Point,
}

/// A glyph as quadratic curves in em units.
pub struct GlyphOutline {
    pub curves: Vec<GlyphCurve>,
    /// For each closed contour, how many curves there are up to its end.
    pub contour_end: Vec<usize>,
    pub advance_em: u32,
    pub bbox_em: Quadruple,
}

/// Model of a glyph as quadratic curves.
pub struct GlyphModel {
    pub curves: Seq<GlyphCurve>,
    pub contour_end: Seq<usize>,
    pub advance_em: u32,
    pub bbox_em: Quadruple,
}

impl View for GlyphOutline {
    type V = GlyphModel;

    open spec fn view(&self) -> GlyphModel {
        GlyphModel {
            curves: self.curves@,
            contour_end: self.contour_end@,
            advance_em: self.advance_em,
            bbox_em: self.bbox_em,
        }
    }
}

/// How far along an outline its tracing has come.
pub struct Trace {
    pub curves: Seq<GlyphCurve>,
    pub contour_end: Seq<usize>,
    pub current: Point,
    pub start: Point,
}

/// Whether two points are the same, compared as numbers.
pub open spec fn same_point(a: Point, b: Point) -> bool {
    float_bits::equal(a.x, b.x) && float_bits::equal(a.y, b.y)
}

impl Trace {
    /// Ends the contour, with a line back to its start where that is needed.
    pub open spec fn close(self) -> Trace {
        let curves = if same_point(self.current, self.start) {
            self.curves
        } else {
            self.curves.push(GlyphCurve { p1: self.current, p2: self.start, p3: self.start })
        };
        let recorded: int = if self.contour_end.len() == 0 {
            0
        } else {
            self.contour_end.last() as int
        };
        Trace {
            curves,
            contour_end: if curves.len() > recorded {
                self.contour_end.push(curves.len() as usize)
            } else {
                self.contour_end
            },
            current: self.start,
            start: self.start,
        }
    }

    /// Goes one step along the outline, whose next points start at `at`.
    ///
    /// Not defined for a cubic curve.
    pub open spec fn step(self, verb: OutlineVerb, points: Seq<Point>, at: int) -> Trace {
        match verb {
            OutlineVerb::MoveTo => Trace { current: points[at], start: points[at], ..self },
            OutlineVerb::LineTo => Trace {
                curves: self.curves.push(
                    GlyphCurve { p1: self.current, p2: points[at], p3: points[at] },
                ),
                current: points[at],
                ..self
            },
            OutlineVerb::QuadTo => Trace {
                curves: self.curves.push(
                    GlyphCurve { p1: self.current, p2: points[at], p3: points[at + 1] },
                ),
                current: points[at + 1],
                ..self
            },
            OutlineVerb::Close => self.close(),
            OutlineVerb::CurveTo => self,
        }
    }
}

/// The trace of the first `n` steps of an outline without cubic curves.
pub open spec fn traced(verbs: Seq<OutlineVerb>, points: Seq<Point>, n: nat) -> Trace
    decreases n,
{
    if n == 0 {
        Trace {
            curves: Seq::empty(),
            contour_end: Seq::empty(),
            current: Point { x: 0, y: 0 },
            start: Point { x: 0, y: 0 },
        }
    } else {
        traced(verbs, points, (n - 1) as nat).step(
            verbs[n - 1],
            points,
            points_taken(verbs, (n - 1) as nat) as int,
        )
    }
}

/// Whether an outline has a cubic curve.
pub open spec fn has_cubic(verbs: Seq<OutlineVerb>) -> bool {
    exists|i: int| 0 <= i < verbs.len() && #[trigger] verbs[i] == OutlineVerb::CurveTo
}

/// A glyph's curves, unless one of them is cubic.
pub open spec fn converted(outline: OutlineModel, advance_em: u32) -> Option<GlyphModel> {
    if has_cubic(outline.verbs) {
        None
    } else {
        let trace = traced(outline.verbs, outline.points, outline.verbs.len());
        Some(
            GlyphModel {
                curves: trace.curves,
                contour_end: trace.contour_end,
                advance_em,
                bbox_em: if trace.curves.len() == 0 {
                    Quadruple { x: 0, y: 0, z: 0, w: 0 }
                } else {
                    Quadruple {
                        x: outline.bounds.min.x,
                        y: outline.bounds.min.y,
                        z: outline.bounds.max.x,
                        w: outline.bounds.max.y,
                    }
                },
            },
        )
    }
}

/// A glyph that draws nothing.
pub open spec fn empty_glyph(advance_em: u32) -> GlyphModel {
    GlyphModel {
        curves: Seq::empty(),
        contour_end: Seq::empty(),
        advance_em,
        bbox_em: Quadruple { x: 0, y: 0, z: 0, w: 0 },
    }
}

impl GlyphOutline {
    /// A glyph that draws nothing.
    pub fn empty(advance_em: u32) -> (glyph: GlyphOutline)
        ensures
            glyph@ == empty_glyph(advance_em),
    {
        GlyphOutline {
            curves: Vec::new(),
            contour_end: Vec::new(),
            advance_em,
            bbox_em: Quadruple::zeros(),
        }
    }
}

/// The model of an optional glyph.
pub open spec fn glyph_view(glyph: Option<GlyphOutline>) -> Option<GlyphModel> {
    match glyph {
        Some(glyph) => Some(glyph@),
        None => None,
    }
}

fn is_same_point(a: Point, b: Point) -> (same: bool)
    ensures
        same == same_point(a, b),
{
    float_bits::is_equal(a.x, b.x) && float_bits::is_equal(a.y, b.y)
}

proof fn lemma_points_taken_monotone(verbs: Seq<OutlineVerb>, a: nat, b: nat)
    requires
        a <= b,
    ensures
        points_taken(verbs, a) <= points_taken(verbs, b),
    decreases b,
{
    if a < b {
        lemma_points_taken_monotone(verbs, a, (b - 1) as nat);
    }
}

/// Turns an outline, its points already in em units, into quadratic curves.
///
/// Lines become curves that end where they are pulled to. There is no
/// result for an outline with a cubic curve.
pub fn convert_outline(outline: &FontOutline, advance_em: u32) -> (glyph: Option<GlyphOutline>)
    requires
        points_taken(outline.verbs@, outline.verbs@.len()) <= outline.points@.len(),
    ensures
        glyph_view(glyph) == converted(outline@, advance_em),
{
    let ghost verbs = outline.verbs@;
    let ghost points = outline.points@;
    let total: usize = outline.points.len();
    let mut curves: Vec<GlyphCurve> = Vec::new();
    let mut contour_end: Vec<usize> = Vec::new();
    let mut at: usize = 0;
    let mut current: Point = Point::origin();
    let mut start: Point = Point::origin();
    let mut i: usize = 0;
    while i < outline.verbs.len()
        invariant
            verbs == outline.verbs@,
            points == outline.points@,
            points_taken(verbs, verbs.len()) <= points.len() == total,
            i <= verbs.len(),
            at == points_taken(verbs, i as nat),
            forall|k: int| 0 <= k < i ==> #[trigger] verbs[k] != OutlineVerb::CurveTo,
            traced(verbs, points, i as nat) == (Trace {
                curves: curves@,
                contour_end: contour_end@,
                current,
                start,
            }),
        decreases verbs.len() - i,
    {
        let ghost trace = traced(verbs, points, i as nat);
        proof {
            lemma_points_taken_monotone(verbs, (i + 1) as nat, verbs.len());
        }
        match outline.verbs[i] {
            OutlineVerb::MoveTo => {
                let p: Point = outline.points[at];
                at = at + 1;
                current = p;
                start = p;
            },
            OutlineVerb::LineTo => {
                let p: Point = outline.points[at];
                at = at + 1;
                curves.push(GlyphCurve { p1: current, p2: p, p3: p });
                current = p;
            },
            OutlineVerb::QuadTo => {
                let c: Point = outline.points[at];
                let p: Point = outline.points[at + 1];
                at = at + 2;
                curves.push(GlyphCurve { p1: current, p2: c, p3: p });
                current = p;
            },
            OutlineVerb::CurveTo => {
                assert(verbs[i as int] == OutlineVerb::CurveTo);
                return None;
            },
            OutlineVerb::Close => {
                if !is_same_point(current, start) {
                    curves.push(GlyphCurve { p1: current, p2: start, p3: start });
                }
                let recorded: usize = if contour_end.len() == 0 {
                    0
                } else {
                    contour_end[contour_end.len() - 1]
                };
                if curves.len() > recorded {
                    contour_end.push(curves.len());
                }
                current = start;
            },
        }
        i = i + 1;
    }
    let bbox_em: Quadruple = if curves.len() == 0 {
        Quadruple::zeros()
    } else {
        Quadruple {
            x: outline.bounds.min.x,
            y: outline.bounds.min.y,
            z: outline.bounds.max.x,
            w: outline.bounds.max.y,
        }
    };
    Some(GlyphOutline { curves, contour_end, advance_em, bbox_em })
}

/// Contours end one after the other, none of them is empty, and none ends
/// beyond the last curve.
pub proof fn law_contours_are_ordered(verbs: Seq<OutlineVerb>, points: Seq<Point>, n: nat)
    requires
        traced(verbs, points, n).curves.len() <= usize::MAX,
    ensures
        ({
            let trace = traced(verbs, points, n);
            &&& forall|i: int, j: int|
                0 <= i < j < trace.contour_end.len() ==> #[trigger] trace.contour_end[i]
                    < #[trigger] trace.contour_end[j]
            &&& forall|i: int|
                0 <= i < trace.contour_end.len() ==> 0 < #[trigger] trace.contour_end[i]
                    <= trace.curves.len()
        }),
    decreases n,
{
    if n > 0 {
        let before = traced(verbs, points, (n - 1) as nat);
        assert(before.curves.len() <= traced(verbs, points, n).curves.len());
        law_contours_are_ordered(verbs, points, (n - 1) as nat);
        if before.contour_end.len() > 0 {
            assert(before.contour_end.last() == before.contour_end[before.contour_end.len() - 1]);
        }
    }
}

// ---------------------------------------------------------------------------
// Remembering glyphs

/// Identity of one glyph in one font face.
#[derive(Debug, Clone, Copy, PartialEq, Eq, Structural)]
pub struct FontGlyphKey {
    pub blob_id: u64,
    pub font_index: u32,
    pub glyph_id: u32,
}

impl FontGlyphKey {
    /// A number for the key.
    pub open spec fn code(self) -> u128 {
        (self.blob_id * 0x1_0000_0000_0000_0000 + self.font_index * 0x1_0000_0000 + self.glyph_id) as u128
    }

    fn to_code(self) -> (code: u128)
        ensures
            code == self.code(),
    {
        self.blob_id as u128 * 0x1_0000_0000_0000_0000 + self.font_index as u128 * 0x1_0000_0000
            + self.glyph_id as u128
    }
}

/// Different glyphs, faces or fonts never share a number.
pub proof fn law_keys_do_not_collide(a: FontGlyphKey, b: FontGlyphKey)
    ensures
        a.code() == b.code() <==> a == b,
{
}

/// Remembering one glyph makes it known and touches no other glyph.
pub proof fn law_remembered_glyph_is_found(
    known: Map<u128, CachedGlyph>,
    key: FontGlyphKey,
    stored: CachedGlyph,
    other: FontGlyphKey,
)
    ensures
        known.insert(key.code(), stored).contains_key(key.code()),
        known.insert(key.code(), stored)[key.code()] == stored,
        other != key ==> known.insert(key.code(), stored).contains_key(other.code())
            == known.contains_key(other.code()),
        other != key ==> known.insert(key.code(), stored)[other.code()] == known[other.code()],
{
    law_keys_do_not_collide(key, other);
}

/// What a glyph cache says of one glyph.
#[derive(Debug, Clone, Copy, PartialEq, Eq, Structural)]
pub struct CachedGlyph {
    /// Where the glyph's descriptor is.
    pub descriptor_index: u32,
    /// Whether the glyph draws nothing.
    pub empty: bool,
}

/// How a glyph cache took an outline.
pub enum CacheOutcome {
    /// It is stored.
    Stored(CachedGlyph),
    /// There is no room for it.
    Full,
}

/// A glyph that is still to be put into the cache.
pub struct GlyphRequest {
    pub key: FontGlyphKey,
    pub units_per_em: u16,
    /// Bits of the advance width in font units.
    pub advance: u32,
    /// The outline in font units, if the glyph has one.
    pub outline: Option<FontOutline>,
}

impl GlyphRequest {
    /// Whether the outline has all its points.
    pub open spec fn wf(self) -> bool {
        self.outline matches Some(outline) ==> points_taken(outline.verbs@, outline.verbs@.len())
            <= outline.points@.len()
    }

    /// What is to be stored for a glyph whose numbers have been divided by its
    /// units per em: its curves, or a glyph that draws nothing where there is no
    /// outline or one with cubic curves.
    pub open spec fn stored(outline: Option<OutlineModel>, advance_em: u32) -> GlyphModel {
        match outline {
            None => empty_glyph(advance_em),
            Some(outline) => match converted(outline, advance_em) {
                Some(glyph) => glyph,
                None => empty_glyph(advance_em),
            },
        }
    }

    /// What is to be stored for this glyph, once its advance width and outline
    /// have been divided by its units per em.
    pub fn outline(&self) -> (glyph: GlyphOutline)
        requires
            self.wf(),
        ensures
            glyph@ == GlyphRequest::stored(outline_view(self.outline), self.advance),
    {
        match &self.outline {
            None => GlyphOutline::empty(self.advance),
            Some(outline) => match convert_outline(outline, self.advance) {
                Some(glyph) => glyph,
                None => GlyphOutline::empty(self.advance),
            },
        }
    }
}

/// What is known of a glyph.
pub enum GlyphLookup {
    /// The cache has it.
    Cached(CachedGlyph),
    /// It can not be had: the font can not be read or has no such glyph number.
    Unavailable,
    /// It is to be scaled and put into the cache.
    Load(GlyphRequest),
}

/// The capacities of a glyph cache.
#[derive(Debug, Clone, Copy, PartialEq, Eq, Structural)]
pub struct TextGlyphCacheConfig {
    pub max_glyphs: u32,
    pub curve_capacity: u32,
    pub band_capacity: u32,
    pub band_curve_index_capacity: u32,
}

/// The capacities for the text of a usual UI.
pub fn default_cache_config() -> (config: TextGlyphCacheConfig)
    ensures
        config == (TextGlyphCacheConfig {
            max_glyphs: 4096,
            curve_capacity: 262144,
            band_capacity: 65536,
            band_curve_index_capacity: 524288,
        }),
{
    TextGlyphCacheConfig {
        max_glyphs: 4096,
        curve_capacity: 256 * 1024,
        band_capacity: 64 * 1024,
        band_curve_index_capacity: 512 * 1024,
    }
}

/// Which glyphs a glyph cache holds.
pub struct GlyphOutlineProvider {
    /// Glyphs in the cache.
    records: usize,
    lookup: HashMap<u128, CachedGlyph>,
}

impl Default for GlyphOutlineProvider {
    fn default() -> (provider: GlyphOutlineProvider)
        ensures
            provider.record_count() == 0,
            provider.known() == Map::<u128, CachedGlyph>::empty(),
    {
        GlyphOutlineProvider::new()
    }
}

impl GlyphOutlineProvider {
    /// How many glyphs are in the cache.
    pub closed spec fn record_count(self) -> nat {
        self.records as nat
    }

    /// The cached glyphs by the number of their key.
    pub closed spec fn known(self) -> Map<u128, CachedGlyph> {
        self.lookup@
    }

    /// Nothing is cached yet.
    pub fn new() -> (provider: GlyphOutlineProvider)
        ensures
            provider.record_count() == 0,
            provider.known() == Map::<u128, CachedGlyph>::empty(),
    {
        GlyphOutlineProvider { records: 0, lookup: HashMap::new() }
    }

    /// Looks a glyph up, reading it from its font if the cache does not have it.
    ///
    /// A glyph number has to fit in sixteen bits, the font bytes have to hold a
    /// face at that index whose metrics and outlines can be read, and its units
    /// per em must not be zero.
    pub fn resolve(&self, font_bytes: &[u8], font_index: u32, blob_id: u64, glyph_id: u32) -> (found:
        GlyphLookup)
        ensures
            ({
                let key = FontGlyphKey { blob_id, font_index, glyph_id };
                let units = font_units_per_em(font_bytes@, font_index);
                if self.known().contains_key(key.code()) {
                    found == GlyphLookup::Cached(self.known()[key.code()])
                } else if glyph_id > 0xffff || !font_file::advance_readable(
                    font_bytes@,
                    font_index,
                    glyph_id as u16,
                ) || !font_file::outlines_readable(font_bytes@, font_index) || units == 0 {
                    found == GlyphLookup::Unavailable
                } else {
                    found matches GlyphLookup::Load(request) && {
                        &&& request.wf()
                        &&& request.key == key
                        &&& request.units_per_em == units
                        &&& request.advance == font_advance(
                            font_bytes@,
                            font_index,
                            glyph_id as u16,
                        )
                        &&& outline_view(request.outline) == font_outline(
                            font_bytes@,
                            font_index,
                            glyph_id as u16,
                        )
                    }
                }
            }),
    {
        let key: FontGlyphKey = FontGlyphKey { blob_id, font_index, glyph_id };
        if let Some(record) = self.lookup.get(&key.to_code()) {
            return GlyphLookup::Cached(*record);
        }
        if glyph_id > 0xffff {
            return GlyphLookup::Unavailable;
        }
        let glyph: u16 = glyph_id as u16;
        if !font_file::reads_advance(font_bytes, font_index, glyph) || !font_file::reads_outlines(
            font_bytes,
            font_index,
        ) {
            return GlyphLookup::Unavailable;
        }
        let units: u16 = units_per_em(font_bytes, font_index);
        if units == 0 {
            return GlyphLookup::Unavailable;
        }
        let advance: u32 = advance_width(font_bytes, font_index, glyph);
        let outline: Option<FontOutline> = scale_outline(font_bytes, font_index, glyph);
        GlyphLookup::Load(GlyphRequest { key, units_per_em: units, advance, outline })
    }

    /// The number under which the next glyph goes into the cache; `None` once
    /// all sixteen-bit numbers are used up.
    pub fn next_id(&self) -> (id: Option<u16>)
        ensures
            self.record_count() >= TEXT_GLYPH_CACHE_INDEX_COUNT ==> id is None,
            self.record_count() < TEXT_GLYPH_CACHE_INDEX_COUNT ==> id == Some(
                self.record_count() as u16,
            ),
    {
        if self.records >= TEXT_GLYPH_CACHE_INDEX_COUNT {
            return None;
        }
        Some(self.records as u16)
    }

    /// Notes how the cache took a glyph under the number from
    /// [`GlyphOutlineProvider::next_id`]. A glyph that found no room is not
    /// remembered and will be tried again.
    pub fn insert(&mut self, key: FontGlyphKey, outcome: CacheOutcome) -> (record: Option<CachedGlyph>)
        requires
            old(self).record_count() < TEXT_GLYPH_CACHE_INDEX_COUNT,
        ensures
            match outcome {
                CacheOutcome::Stored(stored) => {
                    &&& record == Some(stored)
                    &&& final(self).record_count() == old(self).record_count() + 1
                    &&& final(self).known() == old(self).known().insert(key.code(), stored)
                },
                CacheOutcome::Full => {
                    &&& record is None
                    &&& final(self).record_count() == old(self).record_count()
                    &&& final(self).known() == old(self).known()
                },
            },
    {
        match outcome {
            CacheOutcome::Stored(stored) => {
                self.records = self.records + 1;
                self.lookup.insert(key.to_code(), stored);
                Some(stored)
            },
            CacheOutcome::Full => None,
        }
    }
}

} // verus!

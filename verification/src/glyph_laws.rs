//! What holds of glyph outlines and of the font files that they are read from.

use vstd::prelude::*;

use crate::abi::Point;
use crate::float_bits;
use crate::font_file;
use crate::font_file::TableRange;
use crate::glyphs;
use crate::glyphs::{GlyphRequest, OutlineModel, OutlineVerb, Trace};

verus! {

// ---------------------------------------------------------------------------
// Tracing

/// Steps take their points one after the other: one to move or for a line, two
/// for a quadratic curve, three for a cubic one and none to close.
pub proof fn law_steps_take_their_points(verbs: Seq<OutlineVerb>, n: nat)
    requires
        n < verbs.len(),
    ensures
        glyphs::points_taken(verbs, 0) == 0,
        ({
            let taken = glyphs::points_taken(verbs, n + 1) - glyphs::points_taken(verbs, n);
            &&& verbs[n as int] == OutlineVerb::MoveTo ==> taken == 1
            &&& verbs[n as int] == OutlineVerb::LineTo ==> taken == 1
            &&& verbs[n as int] == OutlineVerb::QuadTo ==> taken == 2
            &&& verbs[n as int] == OutlineVerb::CurveTo ==> taken == 3
            &&& verbs[n as int] == OutlineVerb::Close ==> taken == 0
        }),
{
}

/// A move draws nothing and begins a contour at its point.
pub proof fn law_moves_begin_contours(trace: Trace, points: Seq<Point>, at: int)
    ensures
        ({
            let after = trace.step(OutlineVerb::MoveTo, points, at);
            &&& after.curves == trace.curves
            &&& after.contour_end == trace.contour_end
            &&& after.current == points[at]
            &&& after.start == points[at]
        }),
{
}

/// A line or a quadratic curve draws one curve from where the trace is to its
/// last point, where the trace is then. A line is pulled to its end.
pub proof fn law_curves_go_on_from_the_last_point(trace: Trace, points: Seq<Point>, at: int)
    ensures
        ({
            let line = trace.step(OutlineVerb::LineTo, points, at);
            let curve = trace.step(OutlineVerb::QuadTo, points, at);
            let n = trace.curves.len() as int;
            &&& line.curves.len() == n + 1
            &&& forall|i: int| 0 <= i < n ==> #[trigger] line.curves[i] == trace.curves[i]
            &&& line.curves[n].p1 == trace.current
            &&& line.curves[n].p2 == points[at]
            &&& line.curves[n].p3 == points[at]
            &&& line.current == points[at]
            &&& line.start == trace.start
            &&& line.contour_end == trace.contour_end
            &&& curve.curves.len() == n + 1
            &&& forall|i: int| 0 <= i < n ==> #[trigger] curve.curves[i] == trace.curves[i]
            &&& curve.curves[n].p1 == trace.current
            &&& curve.curves[n].p2 == points[at]
            &&& curve.curves[n].p3 == points[at + 1]
            &&& curve.current == points[at + 1]
            &&& curve.start == trace.start
            &&& curve.contour_end == trace.contour_end
        }),
{
}

/// Closing goes back to the start, with a line where the trace is not there,
/// and ends a contour where anything was drawn since the last one ended.
pub proof fn law_closing_goes_back_to_the_start(trace: Trace, points: Seq<Point>, at: int)
    requires
        trace.curves.len() < usize::MAX,
    ensures
        ({
            let after = trace.step(OutlineVerb::Close, points, at);
            let n = trace.curves.len() as int;
            let there = !float_bits::is_nan(trace.current.x) && !float_bits::is_nan(
                trace.current.y,
            ) && !float_bits::is_nan(trace.start.x) && !float_bits::is_nan(trace.start.y)
                && float_bits::rank(trace.current.x) == float_bits::rank(trace.start.x)
                && float_bits::rank(trace.current.y) == float_bits::rank(trace.start.y);
            &&& after.current == trace.start
            &&& after.start == trace.start
            &&& there ==> after.curves == trace.curves
            &&& !there ==> after.curves.len() == n + 1 && after.curves.take(n) == trace.curves
                && after.curves[n].p1 == trace.current && after.curves[n].p2 == trace.start
                && after.curves[n].p3 == trace.start
            &&& trace.contour_end.len() == 0 && after.curves.len() == 0 ==> after.contour_end
                == trace.contour_end
            &&& trace.contour_end.len() > 0 && after.curves.len() <= trace.contour_end.last()
                ==> after.contour_end == trace.contour_end
            &&& after.curves.len() > 0 && (trace.contour_end.len() == 0 || after.curves.len()
                > trace.contour_end.last()) ==> after.contour_end.len() == trace.contour_end.len()
                + 1 && after.contour_end.last() == after.curves.len()
                && after.contour_end.drop_last() == trace.contour_end
        }),
{
    let after = trace.step(OutlineVerb::Close, points, at);
    let n = trace.curves.len() as int;
    assert(trace.contour_end.push(after.curves.len() as usize).drop_last() == trace.contour_end);
    if after.curves.len() > n {
        assert(after.curves.take(n) == trace.curves);
    }
}

/// A trace begins at the origin with nothing drawn, and each step takes the
/// points behind those of the steps before it.
pub proof fn law_traces_take_one_step_after_another(
    verbs: Seq<OutlineVerb>,
    points: Seq<Point>,
    n: nat,
)
    requires
        n < verbs.len(),
    ensures
        ({
            let first = glyphs::traced(verbs, points, 0);
            &&& first.curves.len() == 0
            &&& first.contour_end.len() == 0
            &&& first.current.x == 0 && first.current.y == 0
            &&& first.start.x == 0 && first.start.y == 0
        }),
        glyphs::traced(verbs, points, n + 1) == glyphs::traced(verbs, points, n).step(
            verbs[n as int],
            points,
            glyphs::points_taken(verbs, n) as int,
        ),
{
}

/// Two curves that follow each other without a move between them meet: where
/// the next step draws, it begins where the last curve ended.
pub proof fn law_curves_meet(verbs: Seq<OutlineVerb>, points: Seq<Point>, n: nat)
    requires
        0 < n < verbs.len(),
        verbs[n - 1] == OutlineVerb::LineTo || verbs[n - 1] == OutlineVerb::QuadTo,
        verbs[n as int] == OutlineVerb::LineTo || verbs[n as int] == OutlineVerb::QuadTo,
    ensures
        ({
            let curves = glyphs::traced(verbs, points, n + 1).curves;
            &&& curves.len() >= 2
            &&& curves[curves.len() - 1].p1 == curves[curves.len() - 2].p3
        }),
{
    reveal_with_fuel(glyphs::traced, 3);
}

/// An outline becomes curves just if none of its steps is a cubic curve. The
/// glyph has the outline's bounds, or none where it draws nothing.
pub proof fn law_outlines_become_curves(outline: OutlineModel, advance_em: u32, i: int)
    ensures
        0 <= i < outline.verbs.len() && outline.verbs[i] == OutlineVerb::CurveTo
            ==> glyphs::converted(outline, advance_em) is None,
        (forall|k: int|
            0 <= k < outline.verbs.len() ==> #[trigger] outline.verbs[k] != OutlineVerb::CurveTo)
            ==> (glyphs::converted(outline, advance_em) matches Some(glyph) && {
            let trace = glyphs::traced(outline.verbs, outline.points, outline.verbs.len());
            &&& glyph.curves == trace.curves
            &&& glyph.contour_end == trace.contour_end
            &&& glyph.advance_em == advance_em
            &&& glyph.curves.len() > 0 ==> glyph.bbox_em.x == outline.bounds.min.x
                && glyph.bbox_em.y == outline.bounds.min.y && glyph.bbox_em.z
                == outline.bounds.max.x && glyph.bbox_em.w == outline.bounds.max.y
            &&& glyph.curves.len() == 0 ==> glyph.bbox_em.x == 0 && glyph.bbox_em.y == 0
                && glyph.bbox_em.z == 0 && glyph.bbox_em.w == 0
        }),
{
}

/// What is stored of a glyph keeps its advance width, whatever its outline is.
/// One without an outline, or with a cubic curve, draws nothing.
pub proof fn law_stored_glyphs_keep_their_width(outline: Option<OutlineModel>, advance_em: u32, i: int)
    ensures
        ({
            let stored = GlyphRequest::stored(outline, advance_em);
            let draws_nothing = stored.curves.len() == 0 && stored.contour_end.len() == 0
                && stored.bbox_em.x == 0 && stored.bbox_em.y == 0 && stored.bbox_em.z == 0
                && stored.bbox_em.w == 0;
            &&& stored.advance_em == advance_em
            &&& outline is None ==> draws_nothing
            &&& outline matches Some(o) ==> 0 <= i < o.verbs.len() && o.verbs[i]
                == OutlineVerb::CurveTo ==> draws_nothing
            &&& outline matches Some(o) ==> glyphs::converted(o, advance_em) matches Some(glyph)
                ==> stored == glyph
        }),
{
}

// ---------------------------------------------------------------------------
// Numbers of a font file

/// Two bytes are a number with the first of them in its upper half, four bytes
/// one whose upper and lower halves are such numbers; there is one just if all
/// its bytes are in the file.
pub proof fn law_numbers_are_big_endian(bytes: Seq<u8>, at: int)
    ensures
        font_file::u16_at(bytes, at) is Some <==> 0 <= at && at + 1 < bytes.len(),
        font_file::u32_at(bytes, at) is Some <==> 0 <= at && at + 3 < bytes.len(),
        font_file::u16_at(bytes, at) matches Some(v) ==> v as int / 256 == bytes[at] && v % 256
            == bytes[at + 1],
        font_file::u32_at(bytes, at) matches Some(v) ==> font_file::u16_at(bytes, at) == Some(
            (v / 65536) as u16,
        ) && font_file::u16_at(bytes, at + 2) == Some((v % 65536) as u16),
{
}

/// An entry of one to four bytes is the number of its bytes, most significant
/// first.
pub proof fn law_entries_are_big_endian(bytes: Seq<u8>, at: int)
    ensures
        font_file::entry_at(bytes, at, 1) is Some <==> 0 <= at < bytes.len(),
        font_file::entry_at(bytes, at, 2) is Some <==> 0 <= at && at + 1 < bytes.len(),
        font_file::entry_at(bytes, at, 3) is Some <==> 0 <= at && at + 2 < bytes.len(),
        font_file::entry_at(bytes, at, 4) is Some <==> 0 <= at && at + 3 < bytes.len(),
        font_file::entry_at(bytes, at, 1) matches Some(v) ==> v == bytes[at],
        font_file::entry_at(bytes, at, 2) matches Some(v) ==> v as int / 256 == bytes[at] && v % 256
            == bytes[at + 1],
        font_file::entry_at(bytes, at, 3) matches Some(v) ==> v as int / 65536 == bytes[at]
            && font_file::u16_at(bytes, at + 1) == Some((v % 65536) as u16),
        font_file::entry_at(bytes, at, 4) == font_file::u32_at(bytes, at),
{
}

/// A face begins with one of three tags: a number one, the letters of cubic
/// outlines or those of the older form.
pub proof fn law_faces_begin_with_a_tag(bytes: Seq<u8>, at: int)
    requires
        0 <= at,
        at + 4 <= bytes.len(),
    ensures
        font_file::begins_face(bytes, at) <==> bytes.subrange(at, at + 4) == seq![0u8, 1, 0, 0]
            || bytes.subrange(at, at + 4) == seq![0x4fu8, 0x54, 0x54, 0x4f] || bytes.subrange(
            at,
            at + 4,
        ) == seq![0x74u8, 0x72, 0x75, 0x65],
{
    let four = bytes.subrange(at, at + 4);
    assert(four[0] == bytes[at] && four[1] == bytes[at + 1] && four[2] == bytes[at + 2] && four[3]
        == bytes[at + 3]);
    assert(font_file::u32_at(bytes, at) matches Some(tag) && tag == bytes[at] * 16777216 + bytes[at
        + 1] * 65536 + bytes[at + 2] * 256 + bytes[at + 3]);
    if font_file::begins_face(bytes, at) {
        assert(four =~= seq![0u8, 1, 0, 0] || four =~= seq![0x4fu8, 0x54, 0x54, 0x4f] || four
            =~= seq![0x74u8, 0x72, 0x75, 0x65]);
    }
}

/// A file that begins with a face holds that face alone.
pub proof fn law_single_faces(bytes: Seq<u8>, index: u32)
    requires
        font_file::begins_face(bytes, 0),
    ensures
        font_file::face_at(bytes, 0) == Some(0u32),
        index > 0 ==> font_file::face_at(bytes, index) is None,
{
}

/// A collection says how many faces it holds and where each begins; there is
/// one at each of its places where a face begins.
pub proof fn law_collected_faces(bytes: Seq<u8>, index: u32, count: u32, place: u32)
    requires
        bytes.len() >= 4,
        bytes.subrange(0, 4) == seq![0x74u8, 0x74, 0x63, 0x66],
        font_file::u32_at(bytes, 8) == Some(count),
        font_file::u32_at(bytes, 12 + 4 * index) == Some(place),
    ensures
        index < count && font_file::begins_face(bytes, place as int) ==> font_file::face_at(
            bytes,
            index,
        ) == Some(place),
        index >= count ==> font_file::face_at(bytes, index) is None,
        !font_file::begins_face(bytes, place as int) ==> font_file::face_at(bytes, index) is None,
{
    let four = bytes.subrange(0, 4);
    assert(four[0] == bytes[0] && four[1] == bytes[1] && four[2] == bytes[2] && four[3]
        == bytes[3]);
    law_faces_begin_with_a_tag(bytes, 0);
}

/// A file of any other kind holds no face.
pub proof fn law_other_files_hold_no_face(bytes: Seq<u8>, index: u32)
    requires
        bytes.len() < 4 || (!font_file::begins_face(bytes, 0) && bytes.subrange(0, 4) != seq![
            0x74u8,
            0x74,
            0x63,
            0x66,
        ]),
    ensures
        font_file::face_at(bytes, index) is None,
{
    if bytes.len() >= 4 && font_file::u32_at(bytes, 0) == Some(0x7474_6366u32) {
        assert(bytes.subrange(0, 4) =~= seq![0x74u8, 0x74, 0x63, 0x66]);
    }
}

// ---------------------------------------------------------------------------
// Tables of a font file

proof fn lemma_found_tables_are_recorded(
    bytes: Seq<u8>,
    face: u32,
    tag: u32,
    low: int,
    high: int,
) -> (k: int)
    requires
        0 <= low,
        font_file::table_among(bytes, face, tag, low, high) is Some,
    ensures
        low <= k < high,
        font_file::u32_at(bytes, face + 12 + 16 * k) == Some(tag),
        ({
            let table = font_file::table_among(bytes, face, tag, low, high)->0;
            &&& font_file::u32_at(bytes, face + 12 + 16 * k + 8) == Some(table.start)
            &&& font_file::u32_at(bytes, face + 12 + 16 * k + 12) matches Some(length)
                && table.start + length == table.end
        }),
    decreases high - low,
{
    let middle = (low + high) / 2;
    match font_file::u32_at(bytes, face + 12 + 16 * middle) {
        None => middle,
        Some(found) => if tag < found {
            lemma_found_tables_are_recorded(bytes, face, tag, low, middle)
        } else if tag > found {
            lemma_found_tables_are_recorded(bytes, face, tag, middle + 1, high)
        } else {
            middle
        },
    }
}

/// A table that is found has a record of its tag among those that the face
/// counts, which says where it begins and how long it is.
pub proof fn law_found_tables_are_recorded(bytes: Seq<u8>, face: u32, tag: u32)
    requires
        font_file::listed_table(bytes, face, tag) is Some,
    ensures
        exists|k: int|
            #![trigger font_file::u32_at(bytes, face + 12 + 16 * k)]
            {
                let table = font_file::listed_table(bytes, face, tag)->0;
                &&& 0 <= k
                &&& font_file::u16_at(bytes, face + 4) matches Some(count) && k < count
                &&& font_file::u32_at(bytes, face + 12 + 16 * k) == Some(tag)
                &&& font_file::u32_at(bytes, face + 12 + 16 * k + 8) == Some(table.start)
                &&& font_file::u32_at(bytes, face + 12 + 16 * k + 12) matches Some(length)
                    && table.start + length == table.end
            },
{
    let count = font_file::u16_at(bytes, face + 4)->0;
    let k = lemma_found_tables_are_recorded(bytes, face, tag, 0, count as int);
    assert(font_file::u32_at(bytes, face + 12 + 16 * k) == Some(tag));
}

proof fn lemma_sorted_tables_are_found(
    bytes: Seq<u8>,
    face: u32,
    tag: u32,
    low: int,
    high: int,
    k: int,
)
    requires
        0 <= low <= k < high,
        forall|i: int|
            low <= i < high ==> (#[trigger] font_file::u32_at(bytes, face + 12 + 16 * i)) is Some,
        forall|i: int, j: int|
            low <= i < j < high ==> (#[trigger] font_file::u32_at(bytes, face + 12 + 16 * i))->0 < (
            #[trigger] font_file::u32_at(bytes, face + 12 + 16 * j))->0,
        font_file::u32_at(bytes, face + 12 + 16 * k) == Some(tag),
    ensures
        font_file::table_among(bytes, face, tag, low, high) == (match (
            font_file::u32_at(bytes, face + 12 + 16 * k + 8),
            font_file::u32_at(bytes, face + 12 + 16 * k + 12),
        ) {
            (Some(start), Some(length)) => if start + length < 0x1_0000_0000 {
                Some(TableRange { start, end: (start + length) as u32 })
            } else {
                None
            },
            _ => None,
        }),
    decreases high - low,
{
    let middle = (low + high) / 2;
    assert(font_file::u32_at(bytes, face + 12 + 16 * middle) is Some);
    let found = font_file::u32_at(bytes, face + 12 + 16 * middle)->0;
    if tag < found {
        lemma_sorted_tables_are_found(bytes, face, tag, low, middle, k);
    } else if tag > found {
        lemma_sorted_tables_are_found(bytes, face, tag, middle + 1, high, k);
    } else {
        assert(middle == k) by {
            if middle < k {
                assert(font_file::u32_at(bytes, face + 12 + 16 * middle)->0 < font_file::u32_at(
                    bytes,
                    face + 12 + 16 * k,
                )->0);
            } else if middle > k {
                assert(font_file::u32_at(bytes, face + 12 + 16 * k)->0 < font_file::u32_at(
                    bytes,
                    face + 12 + 16 * middle,
                )->0);
            }
        }
    }
}

/// Where the records are ordered by their tags, every one of them is found: its
/// table begins where the record says and is as long as it says, if its end can
/// be told.
pub proof fn law_ordered_tables_are_found(bytes: Seq<u8>, face: u32, count: u16, k: int)
    requires
        font_file::u16_at(bytes, face + 4) == Some(count),
        0 <= k < count,
        forall|i: int|
            0 <= i < count ==> (#[trigger] font_file::u32_at(bytes, face + 12 + 16 * i)) is Some,
        forall|i: int, j: int|
            0 <= i < j < count ==> (#[trigger] font_file::u32_at(bytes, face + 12 + 16 * i))->0 < (
            #[trigger] font_file::u32_at(bytes, face + 12 + 16 * j))->0,
        font_file::u32_at(bytes, face + 12 + 16 * k) is Some,
    ensures
        font_file::listed_table(
            bytes,
            face,
            font_file::u32_at(bytes, face + 12 + 16 * k)->0,
        ) == (match (
            font_file::u32_at(bytes, face + 12 + 16 * k + 8),
            font_file::u32_at(bytes, face + 12 + 16 * k + 12),
        ) {
            (Some(start), Some(length)) => if start + length < 0x1_0000_0000 {
                Some(TableRange { start, end: (start + length) as u32 })
            } else {
                None
            },
            _ => None,
        }),
{
    lemma_sorted_tables_are_found(
        bytes,
        face,
        font_file::u32_at(bytes, face + 12 + 16 * k)->0,
        0,
        count as int,
        k,
    );
}

/// A table is held just if it ends within the file.
pub proof fn law_held_tables_end_within_the_file(bytes: Seq<u8>, face: u32, tag: u32)
    ensures
        font_file::held_table(bytes, face, tag) matches Some(table) ==> table.end <= bytes.len()
            && font_file::listed_table(bytes, face, tag) == Some(table),
        font_file::listed_table(bytes, face, tag) matches Some(table) ==> table.end <= bytes.len()
            ==> font_file::held_table(bytes, face, tag) == Some(table),
        font_file::listed_table(bytes, face, tag) matches Some(table) ==> font_file::table_start(
            bytes,
            face,
            tag,
        ) == table.start,
        font_file::listed_table(bytes, face, tag) is None ==> font_file::held_table(
            bytes,
            face,
            tag,
        ) is None && font_file::table_start(bytes, face, tag) == 0,
{
}

/// A field is the number at its place from the table's start on, if the table
/// reaches over it; else it is zero.
pub proof fn law_fields_lie_within_their_table(bytes: Seq<u8>, table: TableRange, at: int)
    requires
        at >= 0,
        table.start <= table.end <= bytes.len(),
    ensures
        table.start + at + 2 <= table.end ==> font_file::u16_at(bytes, table.start + at) == Some(
            font_file::field(bytes, Some(table), at),
        ),
        table.start + at + 2 > table.end ==> font_file::field(bytes, Some(table), at) == 0,
        font_file::field(bytes, None, at) == 0,
{
}

/// Units per em are the number at byte 18 of the table `head`, and one where a
/// face or that table is missing.
pub proof fn law_units_are_in_the_header(bytes: Seq<u8>, index: u32, face: u32, head: TableRange)
    ensures
        font_file::face_at(bytes, index) is None ==> glyphs::font_units_per_em(bytes, index) == 1,
        font_file::face_at(bytes, index) == Some(face) && font_file::held_table(
            bytes,
            face,
            0x6865_6164,
        ) is None ==> glyphs::font_units_per_em(bytes, index) == 1,
        font_file::face_at(bytes, index) == Some(face) && font_file::held_table(
            bytes,
            face,
            0x6865_6164,
        ) == Some(head) && head.start + 20 <= head.end ==> font_file::u16_at(
            bytes,
            head.start + 18,
        ) == Some(glyphs::font_units_per_em(bytes, index)),
        font_file::face_at(bytes, index) == Some(face) && font_file::held_table(
            bytes,
            face,
            0x6865_6164,
        ) == Some(head) && head.start + 20 > head.end ==> glyphs::font_units_per_em(bytes, index)
            == 0,
{
}

// ---------------------------------------------------------------------------
// What can be read

/// A descender that has no negative can not be read where it counts: that of the
/// vertical header always, that of the horizontal header unless the face asks
/// for the typographic metrics and has a typographic ascender, and the
/// typographic one just if the face asks for it.
pub proof fn law_descenders_are_negated(bytes: Seq<u8>, face: u32)
    requires
        font_file::held_table(bytes, face, 0x6865_6164) is Some,
        font_file::held_table(bytes, face, 0x6d61_7870) is Some,
    ensures
        ({
            let os2 = font_file::held_table(bytes, face, 0x4f53_2f32);
            let asked = font_file::field(bytes, os2, 62) / 128 % 2 == 1;
            let typographic = font_file::field(bytes, os2, 70);
            let ascender = font_file::field(bytes, os2, 68);
            let horizontal = font_file::field(
                bytes,
                font_file::held_table(bytes, face, 0x6868_6561),
                6,
            );
            let vertical = font_file::field(
                bytes,
                font_file::held_table(bytes, face, 0x7668_6561),
                6,
            );
            &&& vertical == 0x8000 ==> !font_file::descenders_negate(bytes, face)
            &&& horizontal == 0x8000 && !asked ==> !font_file::descenders_negate(bytes, face)
            &&& horizontal == 0x8000 && ascender == 0 ==> !font_file::descenders_negate(bytes, face)
            &&& typographic == 0x8000 && asked ==> !font_file::descenders_negate(bytes, face)
            &&& vertical != 0x8000 && horizontal != 0x8000 && typographic != 0x8000
                ==> font_file::descenders_negate(bytes, face)
            &&& vertical != 0x8000 && horizontal != 0x8000 && !asked
                ==> font_file::descenders_negate(bytes, face)
            &&& vertical != 0x8000 && asked && ascender != 0 && typographic != 0x8000
                ==> font_file::descenders_negate(bytes, face)
        }),
{
}

/// A face without a header or without a profile has no metrics that could fail.
pub proof fn law_faces_without_metrics_are_read(bytes: Seq<u8>, index: u32, face: u32)
    requires
        font_file::face_at(bytes, index) == Some(face),
        12 + 4 * index <= usize::MAX,
        font_file::held_table(bytes, face, 0x6865_6164) is None || font_file::held_table(
            bytes,
            face,
            0x6d61_7870,
        ) is None,
    ensures
        font_file::metrics_readable(bytes, index),
        forall|glyph: u16| !#[trigger] font_file::advance_readable(bytes, index, glyph),
{
}

/// What can be read is that of a face that is there and whose descenders can be
/// negated.
pub proof fn law_only_faces_are_read(bytes: Seq<u8>, index: u32, glyph: u16)
    ensures
        font_file::face_at(bytes, index) is None ==> !font_file::metrics_readable(bytes, index),
        font_file::face_at(bytes, index) matches Some(face) ==> !font_file::descenders_negate(
            bytes,
            face,
        ) ==> !font_file::metrics_readable(bytes, index),
        font_file::face_at(bytes, index) matches Some(face) ==> font_file::descenders_negate(
            bytes,
            face,
        ) && 12 + 4 * index <= usize::MAX ==> font_file::metrics_readable(bytes, index),
        font_file::advance_readable(bytes, index, glyph) ==> font_file::metrics_readable(
            bytes,
            index,
        ),
        font_file::outlines_readable(bytes, index) ==> font_file::metrics_readable(bytes, index),
{
}

/// A face's advance widths can not be read where its horizontal header counts no
/// metric. Where they do not vary and addresses are long enough, that is all
/// that can stand against it.
pub proof fn law_advances_need_metrics(
    bytes: Seq<u8>,
    index: u32,
    glyph: u16,
    face: u32,
    hhea: TableRange,
)
    requires
        font_file::face_at(bytes, index) == Some(face),
        font_file::held_table(bytes, face, 0x6868_6561) == Some(hhea),
    ensures
        font_file::field(bytes, Some(hhea), 34) == 0 ==> !font_file::advance_readable(
            bytes,
            index,
            glyph,
        ),
        font_file::field(bytes, Some(hhea), 34) != 0 && font_file::metrics_readable(bytes, index)
            && font_file::held_table(bytes, face, 0x6865_6164) is Some && font_file::held_table(
            bytes,
            face,
            0x6d61_7870,
        ) is Some && font_file::listed_table(bytes, face, 0x4856_4152) is None && usize::MAX
            > 0xffff_ffff ==> font_file::advance_readable(bytes, index, glyph),
        font_file::field(bytes, Some(hhea), 34) != 0 && font_file::metrics_readable(bytes, index)
            && font_file::held_table(bytes, face, 0x6865_6164) is Some && font_file::held_table(
            bytes,
            face,
            0x6d61_7870,
        ) is Some && usize::MAX > 0xffff_ffff && font_file::listed_table(bytes, face, 0x4856_4152)
            is Some ==> (font_file::advance_readable(bytes, index, glyph)
            <==> font_file::variation_found(
            bytes,
            font_file::listed_table(bytes, face, 0x4856_4152)->0.start,
            glyph,
        )),
{
}

/// Glyphs without an entry of their own share the last one; one with an entry is
/// led to the set in its upper bits, above as many as the map's form says.
pub proof fn law_glyphs_share_the_last_entry(
    bytes: Seq<u8>,
    map: int,
    form: u16,
    count: u16,
    glyph: u16,
    size: int,
)
    requires
        count > 0,
        size == form / 16 % 4 + 1,
    ensures
        glyph >= count ==> font_file::mapped_set(bytes, map, form, count, glyph)
            == font_file::mapped_set(bytes, map, form, count, (count - 1) as u16),
        glyph < count ==> (font_file::mapped_set(bytes, map, form, count, glyph) is Some
            <==> font_file::entry_at(bytes, map + 4 + glyph * size, size) is Some),
        (font_file::entry_at(bytes, map + 4 + glyph * size, size) matches Some(
            entry,
        ) ==> glyph < count ==> font_file::mapped_set(bytes, map, form, count, glyph) == Some(
            (entry >> ((form % 16 + 1) as u32)) as u16,
        )),
{
}

/// A face without variations has nothing to look up. In one with them, a map
/// without entries leads nowhere, and without a map all glyphs have the first
/// set.
pub proof fn law_variations_are_looked_up(
    bytes: Seq<u8>,
    table: u32,
    glyph: u16,
    offset: u32,
    map: u32,
)
    requires
        table > 0,
        font_file::u32_at(bytes, table + 4) == Some(offset),
        font_file::u32_at(bytes, table + 8) == Some(map),
    ensures
        font_file::variation_found(bytes, 0, glyph),
        offset == 0 ==> font_file::variation_found(bytes, table, glyph),
        offset > 0 && table + offset >= 0x1_0000_0000 ==> !font_file::variation_found(
            bytes,
            table,
            glyph,
        ),
        offset > 0 && table + offset < 0x1_0000_0000 && map == 0 ==> (font_file::variation_found(
            bytes,
            table,
            glyph,
        ) <==> font_file::set_counts(bytes, table + offset, 0)),
        offset > 0 && map > 0 && font_file::u16_at(bytes, table + map) is Some && font_file::u16_at(
            bytes,
            table + map + 2,
        ) == Some(0u16) ==> !font_file::variation_found(bytes, table, glyph),
        (font_file::u16_at(bytes, table + map) matches Some(form) ==> font_file::u16_at(
            bytes,
            table + map + 2,
        ) matches Some(count) ==> font_file::mapped_set(
            bytes,
            table + map,
            form,
            count,
            glyph,
        ) matches Some(set) ==> offset > 0 && table + offset < 0x1_0000_0000 && map > 0 && count
            > 0 ==> (font_file::variation_found(bytes, table, glyph)
            <==> font_file::set_counts(bytes, table + offset, set as int))),
{
}

/// A set must not have more long deltas than deltas.
pub proof fn law_sets_count_their_deltas(
    bytes: Seq<u8>,
    store: int,
    set: int,
    sets: u16,
    regions: u32,
    place: u32,
    deltas: u16,
    long: u16,
)
    requires
        font_file::u16_at(bytes, store + 6) == Some(sets),
        font_file::u32_at(bytes, store + 2) == Some(regions),
        font_file::u32_at(bytes, store + 8 + 4 * set) == Some(place),
        font_file::u16_at(bytes, store + regions) is Some,
        font_file::u16_at(bytes, store + regions + 2) is Some,
        font_file::u16_at(bytes, store + place + 4) == Some(deltas),
        font_file::u16_at(bytes, store + place + 2) == Some(long),
        set < sets,
    ensures
        long <= deltas ==> font_file::set_counts(bytes, store, set),
        long > deltas ==> !font_file::set_counts(bytes, store, set),
{
}

/// A record of the names is twelve bytes long, behind six of the table. One with
/// the number of family names counts, if the table holds all of it.
pub proof fn law_family_names(bytes: Seq<u8>, names: TableRange, record: int)
    requires
        record >= 0,
        names.start <= names.end,
    ensures
        names.start + 18 + 12 * record > names.end ==> !font_file::is_family(bytes, names, record),
        names.start + 18 + 12 * record <= names.end ==> (font_file::is_family(bytes, names, record)
            <==> font_file::field(bytes, Some(names), 12 * record + 12) == 1),
        font_file::is_universal(bytes, names, record) <==> font_file::is_family(
            bytes,
            names,
            record,
        ) && font_file::field(bytes, Some(names), 12 * record + 6) == 0,
{
}

/// A Roman name can be read just if its text, whose place and length the record
/// has, ends within the table; other names always can.
pub proof fn law_roman_names_end_within_the_table(bytes: Seq<u8>, names: TableRange, record: int)
    requires
        record >= 0,
        names.start <= names.end,
    ensures
        ({
            let at = 12 * record + 6;
            let platform = font_file::field(bytes, Some(names), at);
            let encoding = font_file::field(bytes, Some(names), at + 2);
            let length = font_file::field(bytes, Some(names), at + 8);
            let place = font_file::field(bytes, Some(names), at + 10);
            let texts = font_file::field(bytes, Some(names), 4);
            &&& platform != 1 || encoding != 0 ==> !font_file::name_overruns(bytes, names, record)
            &&& platform == 1 && encoding == 0 ==> (font_file::name_overruns(bytes, names, record)
                <==> names.start + texts + place + length > names.end)
        }),
{
}

/// The first family name without a language is the one that is found.
pub proof fn law_universal_names_are_found(bytes: Seq<u8>, names: TableRange, record: int, other: int)
    requires
        0 <= record < font_file::field(bytes, Some(names), 2),
        font_file::is_universal(bytes, names, record),
        forall|r: int| 0 <= r < record ==> !#[trigger] font_file::is_universal(bytes, names, r),
    ensures
        font_file::is_found(bytes, names, record),
        font_file::is_found(bytes, names, other) ==> other == record,
        record < other ==> !font_file::is_reached(bytes, names, other),
{
    assert(font_file::is_universal(bytes, names, record));
}

/// Without a family name that has no language, the first one is found.
pub proof fn law_first_names_are_found(bytes: Seq<u8>, names: TableRange, record: int, other: int)
    requires
        0 <= record < font_file::field(bytes, Some(names), 2),
        font_file::is_family(bytes, names, record),
        forall|r: int| 0 <= r < record ==> !#[trigger] font_file::is_family(bytes, names, r),
        forall|r: int|
            0 <= r < font_file::field(bytes, Some(names), 2) ==> !#[trigger] font_file::is_universal(
                bytes,
                names,
                r,
            ),
    ensures
        font_file::is_found(bytes, names, record),
        font_file::is_found(bytes, names, other) ==> other == record,
{
    assert(font_file::is_family(bytes, names, record));
    if font_file::is_found(bytes, names, other) && other > record {
        assert(!font_file::is_universal(bytes, names, other));
    }
}

/// The names are only searched of a face with bitmaps in colour. There, a record
/// beyond the table or a name that overruns it stands against reading outlines.
pub proof fn law_outlines_need_names(
    bytes: Seq<u8>,
    index: u32,
    face: u32,
    names: TableRange,
    record: int,
)
    requires
        font_file::face_at(bytes, index) == Some(face),
        font_file::metrics_readable(bytes, index),
    ensures
        font_file::listed_table(bytes, face, 0x7362_6978) is None ==> font_file::outlines_readable(
            bytes,
            index,
        ),
        font_file::held_table(bytes, face, 0x6e61_6d65) is None ==> font_file::outlines_readable(
            bytes,
            index,
        ),
        font_file::held_table(bytes, face, 0x6e61_6d65) == Some(names) && font_file::table_start(
            bytes,
            face,
            0x7362_6978,
        ) != 0 && font_file::is_reached(bytes, names, record) && names.start + 6 + 12 * record
            > names.end ==> !font_file::outlines_readable(bytes, index),
        font_file::held_table(bytes, face, 0x6e61_6d65) == Some(names) && font_file::table_start(
            bytes,
            face,
            0x7362_6978,
        ) != 0 && font_file::is_found(bytes, names, record) && font_file::name_overruns(
            bytes,
            names,
            record,
        ) ==> !font_file::outlines_readable(bytes, index),
{
}

/// Outlines of a face with bitmaps in colour can be read where every record that
/// the search reaches begins within the table of names or at its end and no name
/// that it finds overruns the table.
pub proof fn law_sound_names_are_read(bytes: Seq<u8>, index: u32, face: u32, names: TableRange)
    requires
        font_file::face_at(bytes, index) == Some(face),
        font_file::metrics_readable(bytes, index),
        font_file::held_table(bytes, face, 0x6e61_6d65) == Some(names),
        forall|record: int| #[trigger]
            font_file::is_reached(bytes, names, record) ==> names.start + 6 + 12 * record
                <= names.end,
        forall|record: int| #[trigger]
            font_file::is_found(bytes, names, record) ==> !font_file::name_overruns(
                bytes,
                names,
                record,
            ),
    ensures
        font_file::outlines_readable(bytes, index),
{
}

} // verus!

//! Font files: the directory of tables, and which fields of the tables the font
//! reader can take.
//!
//! The reader negates descenders, counts metrics down from their number and
//! walks offsets that the file gives, in plain arithmetic. What would take it
//! out of range is found here first.

use vstd::prelude::*;

verus! {

/// The tag of a collection of faces.
pub const TAG_COLLECTION: u32 = 0x7474_6366;

/// The tags that a face can begin with: outlines of quadratic curves, outlines
/// of cubic curves, and an older form of the first.
pub const TAG_TRUE_TYPE: u32 = 0x0001_0000;

pub const TAG_OPEN_TYPE: u32 = 0x4f54_544f;

pub const TAG_TRUE: u32 = 0x7472_7565;

/// The tags of tables.
pub const TAG_HEAD: u32 = 0x6865_6164;

pub const TAG_MAXP: u32 = 0x6d61_7870;

pub const TAG_OS2: u32 = 0x4f53_2f32;

pub const TAG_HHEA: u32 = 0x6868_6561;

pub const TAG_VHEA: u32 = 0x7668_6561;

pub const TAG_HMTX: u32 = 0x686d_7478;

pub const TAG_HVAR: u32 = 0x4856_4152;

pub const TAG_SBIX: u32 = 0x7362_6978;

pub const TAG_NAME: u32 = 0x6e61_6d65;

/// The least signed number of sixteen bits, as an unsigned one. It has no
/// negative.
pub const LEAST: u16 = 0x8000;

// ---------------------------------------------------------------------------
// Numbers

/// The number of two bytes, most significant first.
pub open spec fn u16_at(bytes: Seq<u8>, at: int) -> Option<u16> {
    if 0 <= at && at + 2 <= bytes.len() {
        Some((bytes[at] * 256 + bytes[at + 1]) as u16)
    } else {
        None
    }
}

/// The number of four bytes, most significant first.
pub open spec fn u32_at(bytes: Seq<u8>, at: int) -> Option<u32> {
    if 0 <= at && at + 4 <= bytes.len() {
        Some(
            (bytes[at] * 16777216 + bytes[at + 1] * 65536 + bytes[at + 2] * 256 + bytes[at
                + 3]) as u32,
        )
    } else {
        None
    }
}

fn read_u16(bytes: &[u8], at: u64) -> (value: Option<u16>)
    ensures
        value == u16_at(bytes@, at as int),
{
    let length: u64 = bytes.len() as u64;
    if length < 2 || at > length - 2 {
        return None;
    }
    let i: usize = at as usize;
    Some(bytes[i] as u16 * 256 + bytes[i + 1] as u16)
}

fn read_u32(bytes: &[u8], at: u64) -> (value: Option<u32>)
    ensures
        value == u32_at(bytes@, at as int),
{
    let length: u64 = bytes.len() as u64;
    if length < 4 || at > length - 4 {
        return None;
    }
    let i: usize = at as usize;
    Some(
        bytes[i] as u32 * 16777216 + bytes[i + 1] as u32 * 65536 + bytes[i + 2] as u32 * 256
            + bytes[i + 3] as u32,
    )
}

// ---------------------------------------------------------------------------
// Faces and tables

/// Whether a face begins at a place.
pub open spec fn begins_face(bytes: Seq<u8>, at: int) -> bool {
    match u32_at(bytes, at) {
        Some(tag) => tag == TAG_TRUE_TYPE || tag == TAG_OPEN_TYPE || tag == TAG_TRUE,
        None => false,
    }
}

/// Where a face of a file begins: at its start, or where the collection that
/// the file is says.
pub open spec fn face_at(bytes: Seq<u8>, index: u32) -> Option<u32> {
    if begins_face(bytes, 0) {
        if index == 0 {
            Some(0)
        } else {
            None
        }
    } else if u32_at(bytes, 0) == Some(TAG_COLLECTION) {
        match (u32_at(bytes, 8), u32_at(bytes, 12 + 4 * index)) {
            (Some(count), Some(face)) => if index < count && begins_face(bytes, face as int) {
                Some(face)
            } else {
                None
            },
            _ => None,
        }
    } else {
        None
    }
}

/// Where a table lies.
#[derive(Debug, Clone, Copy, PartialEq, Eq, Structural)]
pub struct TableRange {
    pub start: u32,
    pub end: u32,
}

/// The table of a tag among the directory's records from `low` to `high`, which
/// are ordered by tag.
pub open spec fn table_among(bytes: Seq<u8>, face: u32, tag: u32, low: int, high: int) -> Option<
    TableRange,
>
    decreases high - low,
{
    if low >= high {
        None
    } else {
        let middle = (low + high) / 2;
        let record = face + 12 + 16 * middle;
        match u32_at(bytes, record) {
            None => None,
            Some(found) => if tag < found {
                table_among(bytes, face, tag, low, middle)
            } else if tag > found {
                table_among(bytes, face, tag, middle + 1, high)
            } else {
                match (u32_at(bytes, record + 8), u32_at(bytes, record + 12)) {
                    (Some(start), Some(length)) => if start + length <= u32::MAX {
                        Some(TableRange { start, end: (start + length) as u32 })
                    } else {
                        None
                    },
                    _ => None,
                }
            },
        }
    }
}

/// The table of a tag, as the face's directory has it.
pub open spec fn listed_table(bytes: Seq<u8>, face: u32, tag: u32) -> Option<TableRange> {
    match u16_at(bytes, face + 4) {
        None => None,
        Some(count) => table_among(bytes, face, tag, 0, count as int),
    }
}

/// The table of a tag, if the file holds all of it.
pub open spec fn held_table(bytes: Seq<u8>, face: u32, tag: u32) -> Option<TableRange> {
    match listed_table(bytes, face, tag) {
        Some(table) => if table.end <= bytes.len() {
            Some(table)
        } else {
            None
        },
        None => None,
    }
}

/// Where the directory has a table begin; zero where it has none.
pub open spec fn table_start(bytes: Seq<u8>, face: u32, tag: u32) -> u32 {
    match listed_table(bytes, face, tag) {
        Some(table) => table.start,
        None => 0,
    }
}

/// A field of a table; zero beyond its end.
pub open spec fn field(bytes: Seq<u8>, table: Option<TableRange>, at: int) -> u16 {
    match table {
        Some(table) => if table.start + at + 2 <= table.end {
            match u16_at(bytes, table.start + at) {
                Some(value) => value,
                None => 0,
            }
        } else {
            0
        },
        None => 0,
    }
}

fn is_face(bytes: &[u8], at: u64) -> (yes: bool)
    ensures
        yes == begins_face(bytes@, at as int),
{
    match read_u32(bytes, at) {
        Some(tag) => tag == TAG_TRUE_TYPE || tag == TAG_OPEN_TYPE || tag == TAG_TRUE,
        None => false,
    }
}

/// Finds where a face begins.
pub fn find_face(bytes: &[u8], index: u32) -> (face: Option<u32>)
    ensures
        face == face_at(bytes@, index),
{
    if is_face(bytes, 0) {
        return if index == 0 {
            Some(0)
        } else {
            None
        };
    }
    match read_u32(bytes, 0) {
        Some(tag) => if tag != TAG_COLLECTION {
            return None;
        },
        None => return None,
    }
    let count: u32 = match read_u32(bytes, 8) {
        Some(count) => count,
        None => return None,
    };
    let face: u32 = match read_u32(bytes, 12 + 4 * index as u64) {
        Some(face) => face,
        None => return None,
    };
    if index < count && is_face(bytes, face as u64) {
        Some(face)
    } else {
        None
    }
}

/// Finds where a table lies.
pub fn find_table(bytes: &[u8], face: u32, tag: u32) -> (table: Option<TableRange>)
    ensures
        table == listed_table(bytes@, face, tag),
{
    let count: u64 = match read_u16(bytes, face as u64 + 4) {
        Some(count) => count as u64,
        None => return None,
    };
    let mut low: u64 = 0;
    let mut high: u64 = count;
    while low < high
        invariant
            low <= high <= 0xffff,
            listed_table(bytes@, face, tag) == table_among(
                bytes@,
                face,
                tag,
                low as int,
                high as int,
            ),
        decreases high - low,
    {
        let middle: u64 = (low + high) / 2;
        let record: u64 = face as u64 + 12 + 16 * middle;
        let found: u32 = match read_u32(bytes, record) {
            Some(found) => found,
            None => return None,
        };
        if tag < found {
            high = middle;
        } else if tag > found {
            low = middle + 1;
        } else {
            let start: u32 = match read_u32(bytes, record + 8) {
                Some(start) => start,
                None => return None,
            };
            let length: u32 = match read_u32(bytes, record + 12) {
                Some(length) => length,
                None => return None,
            };
            if start as u64 + length as u64 > 0xffff_ffff {
                return None;
            }
            return Some(TableRange { start, end: start + length });
        }
    }
    None
}

fn find_held(bytes: &[u8], face: u32, tag: u32) -> (table: Option<TableRange>)
    ensures
        table == held_table(bytes@, face, tag),
{
    match find_table(bytes, face, tag) {
        Some(table) => if table.end as u64 <= bytes.len() as u64 {
            Some(table)
        } else {
            None
        },
        None => None,
    }
}

fn find_start(bytes: &[u8], face: u32, tag: u32) -> (start: u32)
    ensures
        start == table_start(bytes@, face, tag),
{
    match find_table(bytes, face, tag) {
        Some(table) => table.start,
        None => 0,
    }
}

fn read_field(bytes: &[u8], table: Option<TableRange>, at: u32) -> (value: u16)
    ensures
        value == field(bytes@, table, at as int),
{
    match table {
        Some(table) => if table.start as u64 + at as u64 + 2 <= table.end as u64 {
            match read_u16(bytes, table.start as u64 + at as u64) {
                Some(value) => value,
                None => 0,
            }
        } else {
            0
        },
        None => 0,
    }
}

// ---------------------------------------------------------------------------
// Metrics

/// Whether the descenders that a face's metrics are made of can all be negated.
/// Those of a face without a header or without a profile are not looked at. The
/// horizontal ones are the typographic descender where the face asks for that,
/// and that of the horizontal header unless a typographic ascender stands in.
pub open spec fn descenders_negate(bytes: Seq<u8>, face: u32) -> bool {
    let os2 = held_table(bytes, face, TAG_OS2);
    let typographic = field(bytes, os2, 62) / 128 % 2 == 1;
    ||| held_table(bytes, face, TAG_HEAD) is None
    ||| held_table(bytes, face, TAG_MAXP) is None
    ||| {
        &&& typographic ==> field(bytes, os2, 70) != LEAST
        &&& !(typographic && field(bytes, os2, 68) != 0) ==> field(
            bytes,
            held_table(bytes, face, TAG_HHEA),
            6,
        ) != LEAST
        &&& field(bytes, held_table(bytes, face, TAG_VHEA), 6) != LEAST
    }
}

/// Whether the metrics of a face can be read.
pub open spec fn metrics_readable(bytes: Seq<u8>, index: u32) -> bool {
    &&& 12 + 4 * index <= usize::MAX
    &&& face_at(bytes, index) is Some
    &&& descenders_negate(bytes, face_at(bytes, index)->0)
}

/// Tells whether the metrics of a face can be read.
pub fn reads_metrics(bytes: &[u8], index: u32) -> (yes: bool)
    ensures
        yes == metrics_readable(bytes@, index),
{
    if index as usize > (usize::MAX - 12) / 4 {
        return false;
    }
    let face: u32 = match find_face(bytes, index) {
        Some(face) => face,
        None => return false,
    };
    if find_held(bytes, face, TAG_HEAD).is_none() || find_held(bytes, face, TAG_MAXP).is_none() {
        return true;
    }
    let os2 = find_held(bytes, face, TAG_OS2);
    let hhea = find_held(bytes, face, TAG_HHEA);
    let vhea = find_held(bytes, face, TAG_VHEA);
    let typographic = read_field(bytes, os2, 62) / 128 % 2 == 1;
    let stands_in = typographic && read_field(bytes, os2, 68) != 0;
    (!typographic || read_field(bytes, os2, 70) != LEAST) && (stands_in || read_field(
        bytes,
        hhea,
        6,
    ) != LEAST) && read_field(bytes, vhea, 6) != LEAST
}

// ---------------------------------------------------------------------------
// Advance widths

/// An entry of the map from glyphs to variations, of one to four bytes.
pub open spec fn entry_at(bytes: Seq<u8>, at: int, size: int) -> Option<u32> {
    if size == 1 {
        if 0 <= at < bytes.len() {
            Some(bytes[at] as u32)
        } else {
            None
        }
    } else if size == 2 {
        match u16_at(bytes, at) {
            Some(value) => Some(value as u32),
            None => None,
        }
    } else if size == 3 {
        if 0 <= at && at + 3 <= bytes.len() {
            Some((bytes[at] * 65536 + bytes[at + 1] * 256 + bytes[at + 2]) as u32)
        } else {
            None
        }
    } else {
        u32_at(bytes, at)
    }
}

fn read_entry(bytes: &[u8], at: u64, size: u16) -> (entry: Option<u32>)
    requires
        at < 0x10_0000_0000,
        1 <= size <= 4,
    ensures
        entry == entry_at(bytes@, at as int, size as int),
{
    let length: u64 = bytes.len() as u64;
    if size == 1 {
        if at < length {
            Some(bytes[at as usize] as u32)
        } else {
            None
        }
    } else if size == 2 {
        match read_u16(bytes, at) {
            Some(value) => Some(value as u32),
            None => None,
        }
    } else if size == 3 {
        if at + 3 <= length {
            let i: usize = at as usize;
            Some(bytes[i] as u32 * 65536 + bytes[i + 1] as u32 * 256 + bytes[i + 2] as u32)
        } else {
            None
        }
    } else {
        read_u32(bytes, at)
    }
}

/// Whether a set of a store of variations has no more long deltas than deltas.
/// A set that can not be found is not looked into.
pub open spec fn set_counts(bytes: Seq<u8>, store: int, set: int) -> bool {
    match (u16_at(bytes, store + 6), u32_at(bytes, store + 2), u32_at(bytes, store + 8 + 4 * set)) {
        (Some(sets), Some(regions), Some(place)) => {
            let regions = store + regions;
            let place = store + place;
            match (
                u16_at(bytes, regions),
                u16_at(bytes, regions + 2),
                u16_at(bytes, place + 4),
                u16_at(bytes, place + 2),
            ) {
                (Some(_), Some(_), Some(deltas), Some(long)) => set >= sets || long <= deltas,
                _ => true,
            }
        },
        _ => true,
    }
}

fn is_set_counted(bytes: &[u8], store: u32, set: u16) -> (yes: bool)
    ensures
        yes == set_counts(bytes@, store as int, set as int),
{
    let store: u64 = store as u64;
    match (
        read_u16(bytes, store + 6),
        read_u32(bytes, store + 2),
        read_u32(bytes, store + 8 + 4 * set as u64),
    ) {
        (Some(sets), Some(regions), Some(place)) => {
            let regions: u64 = store + regions as u64;
            let place: u64 = store + place as u64;
            match (
                read_u16(bytes, regions),
                read_u16(bytes, regions + 2),
                read_u16(bytes, place + 4),
                read_u16(bytes, place + 2),
            ) {
                (Some(_), Some(_), Some(deltas), Some(long)) => set >= sets || long <= deltas,
                _ => true,
            }
        },
        _ => true,
    }
}

/// The set of variations that a map leads a glyph to, given the map's form and
/// its number of entries. Glyphs beyond the last entry share it.
pub open spec fn mapped_set(bytes: Seq<u8>, map: int, form: u16, count: u16, glyph: u16) -> Option<
    u16,
> {
    let index = if glyph >= count {
        count - 1
    } else {
        glyph as int
    };
    let size = form / 16 % 4 + 1;
    match entry_at(bytes, map + 4 + index * size, size) {
        Some(entry) => Some((entry >> ((form % 16 + 1) as u32)) as u16),
        None => None,
    }
}

/// Whether a glyph's variation of its advance width can be looked up: the store
/// lies at a place of 32 bits, the map from glyphs has an entry, and the set
/// that it leads to counts its deltas.
pub open spec fn variation_found(bytes: Seq<u8>, table: u32, glyph: u16) -> bool {
    match (u32_at(bytes, table + 4), u32_at(bytes, table + 8)) {
        (Some(offset), Some(map)) => {
            let store = table + offset;
            let map_at = table + map;
            ||| table == 0
            ||| offset == 0
            ||| {
                &&& store <= u32::MAX
                &&& if map == 0 {
                    set_counts(bytes, store, 0)
                } else {
                    match (u16_at(bytes, map_at), u16_at(bytes, map_at + 2)) {
                        (Some(form), Some(count)) => {
                            &&& count != 0
                            &&& match mapped_set(bytes, map_at, form, count, glyph) {
                                Some(set) => set_counts(bytes, store, set as int),
                                None => true,
                            }
                        },
                        _ => true,
                    }
                }
            }
        },
        (Some(offset), None) => table == 0 || table + offset <= u32::MAX,
        _ => true,
    }
}

fn is_variation_found(bytes: &[u8], table: u32, glyph: u16) -> (yes: bool)
    ensures
        yes == variation_found(bytes@, table, glyph),
{
    let base: u64 = table as u64;
    match (read_u32(bytes, base + 4), read_u32(bytes, base + 8)) {
        (Some(offset), Some(map)) => {
            if table == 0 || offset == 0 {
                return true;
            }
            if base + offset as u64 > 0xffff_ffff {
                return false;
            }
            let store: u32 = table + offset;
            if map == 0 {
                return is_set_counted(bytes, store, 0);
            }
            let map_at: u64 = base + map as u64;
            match (read_u16(bytes, map_at), read_u16(bytes, map_at + 2)) {
                (Some(form), Some(count)) => {
                    if count == 0 {
                        return false;
                    }
                    let index: u16 = if glyph >= count {
                        count - 1
                    } else {
                        glyph
                    };
                    let size: u16 = form / 16 % 4 + 1;
                    proof {
                        assert(index * size <= 0xffff * 4) by (nonlinear_arith)
                            requires
                                index <= 0xffff,
                                size <= 4,
                        ;
                    }
                    let shift: u32 = (form % 16 + 1) as u32;
                    match read_entry(bytes, map_at + 4 + index as u64 * size as u64, size) {
                        Some(entry) => is_set_counted(bytes, store, (entry >> shift) as u16),
                        None => true,
                    }
                },
                _ => true,
            }
        },
        (Some(offset), None) => table == 0 || base + offset as u64 <= 0xffff_ffff,
        _ => true,
    }
}

/// Whether a glyph's advance width can be read: the face has a header and a
/// profile, a horizontal header that it has counts at least one metric, and the
/// glyph's variation is found. Where addresses have 32 bits, metrics must not
/// vary and must lie in their lower half.
pub open spec fn advance_readable(bytes: Seq<u8>, index: u32, glyph: u16) -> bool {
    let face = face_at(bytes, index)->0;
    let hhea = held_table(bytes, face, TAG_HHEA);
    let hvar = table_start(bytes, face, TAG_HVAR);
    &&& metrics_readable(bytes, index)
    &&& held_table(bytes, face, TAG_HEAD) is Some
    &&& held_table(bytes, face, TAG_MAXP) is Some
    &&& hhea is None || field(bytes, hhea, 34) != 0
    &&& variation_found(bytes, hvar, glyph)
    &&& usize::MAX > 0xffff_ffff || (hvar == 0 && table_start(bytes, face, TAG_HMTX)
        <= 0x7fff_ffff)
}

/// Tells whether a glyph's advance width can be read.
pub fn reads_advance(bytes: &[u8], index: u32, glyph: u16) -> (yes: bool)
    ensures
        yes == advance_readable(bytes@, index, glyph),
{
    if !reads_metrics(bytes, index) {
        return false;
    }
    let face: u32 = match find_face(bytes, index) {
        Some(face) => face,
        None => return false,
    };
    let hhea = find_held(bytes, face, TAG_HHEA);
    let hvar: u32 = find_start(bytes, face, TAG_HVAR);
    find_held(bytes, face, TAG_HEAD).is_some() && find_held(bytes, face, TAG_MAXP).is_some() && (
    hhea.is_none() || read_field(bytes, hhea, 34) != 0) && is_variation_found(bytes, hvar, glyph)
        && (usize::MAX > 0xffff_ffff || (hvar == 0 && find_start(bytes, face, TAG_HMTX)
        <= 0x7fff_ffff))
}

// ---------------------------------------------------------------------------
// Outlines

/// How long the table of names is.
pub open spec fn names_length(names: TableRange) -> int {
    names.end - names.start
}

/// A field of a record of the names.
pub open spec fn name_field(bytes: Seq<u8>, names: TableRange, record: int, at: int) -> u16 {
    field(bytes, Some(names), 6 + 12 * record + at)
}

/// Whether a record of the names is a family name.
pub open spec fn is_family(bytes: Seq<u8>, names: TableRange, record: int) -> bool {
    6 + 12 * record + 12 <= names_length(names) && name_field(bytes, names, record, 6) == 1
}

/// Whether a record is a family name without a language, in Unicode.
pub open spec fn is_universal(bytes: Seq<u8>, names: TableRange, record: int) -> bool {
    is_family(bytes, names, record) && name_field(bytes, names, record, 0) == 0
}

/// Whether a record is reached in the search for the family name, which ends at
/// the first one without a language.
pub open spec fn is_reached(bytes: Seq<u8>, names: TableRange, record: int) -> bool {
    &&& 0 <= record < field(bytes, Some(names), 2)
    &&& forall|r: int| 0 <= r < record ==> !#[trigger] is_universal(bytes, names, r)
}

/// Whether a record is the family name that is found: the first one without a
/// language, else the first one.
pub open spec fn is_found(bytes: Seq<u8>, names: TableRange, record: int) -> bool {
    &&& is_family(bytes, names, record)
    &&& is_reached(bytes, names, record)
    &&& is_universal(bytes, names, record) || {
        &&& forall|r: int|
            0 <= r < field(bytes, Some(names), 2) ==> !#[trigger] is_universal(bytes, names, r)
        &&& forall|r: int| 0 <= r < record ==> !#[trigger] is_family(bytes, names, r)
    }
}

/// Whether a name is in the Macintosh's Roman encoding and its text goes beyond
/// the table.
pub open spec fn name_overruns(bytes: Seq<u8>, names: TableRange, record: int) -> bool {
    let text = field(bytes, Some(names), 4) + name_field(bytes, names, record, 10);
    &&& name_field(bytes, names, record, 0) == 1
    &&& name_field(bytes, names, record, 2) == 0
    &&& text + name_field(bytes, names, record, 8) > names_length(names)
}

/// Whether the family name of a face can be read, where a face with bitmaps in
/// colour is asked for it: every record that the search reaches begins within
/// the table or at its end, and the name that it finds lies within it.
pub open spec fn family_readable(bytes: Seq<u8>, face: u32) -> bool {
    match held_table(bytes, face, TAG_NAME) {
        Some(names) => table_start(bytes, face, TAG_SBIX) == 0 || {
            &&& forall|record: int| #[trigger]
                is_reached(bytes, names, record) ==> 6 + 12 * record <= names_length(names)
            &&& forall|record: int| #[trigger]
                is_found(bytes, names, record) ==> !name_overruns(bytes, names, record)
        },
        None => true,
    }
}

/// Whether a face's outlines can be read.
pub open spec fn outlines_readable(bytes: Seq<u8>, index: u32) -> bool {
    &&& metrics_readable(bytes, index)
    &&& family_readable(bytes, face_at(bytes, index)->0)
}

fn read_name_field(bytes: &[u8], names: TableRange, record: u16, at: u32) -> (value: u16)
    requires
        at < 12,
    ensures
        value == name_field(bytes@, names, record as int, at as int),
{
    read_field(bytes, Some(names), 6 + 12 * record as u32 + at)
}

fn does_name_overrun(bytes: &[u8], names: TableRange, record: u16) -> (yes: bool)
    requires
        names.start <= names.end,
    ensures
        yes == name_overruns(bytes@, names, record as int),
{
    let length: u64 = (names.end - names.start) as u64;
    let text: u64 = read_field(bytes, Some(names), 4) as u64 + read_name_field(
        bytes,
        names,
        record,
        10,
    ) as u64;
    read_name_field(bytes, names, record, 0) == 1 && read_name_field(bytes, names, record, 2) == 0
        && text + read_name_field(bytes, names, record, 8) as u64 > length
}

/// Searches for the family name; `false` where that leaves the table.
fn finds_family(bytes: &[u8], names: TableRange) -> (yes: bool)
    requires
        names.start <= names.end,
    ensures
        yes == ((forall|record: int| #[trigger]
            is_reached(bytes@, names, record) ==> 6 + 12 * record <= names_length(names)) && (forall|
            record: int,
        | #[trigger]
            is_found(bytes@, names, record) ==> !name_overruns(bytes@, names, record))),
{
    let length: u32 = names.end - names.start;
    let count: u16 = read_field(bytes, Some(names), 2);
    let mut first: Option<u16> = None;
    let mut record: u16 = 0;
    while record < count
        invariant
            record <= count,
            count == field(bytes@, Some(names), 2),
            names.start <= names.end,
            length == names_length(names),
            forall|r: int| 0 <= r < record ==> !#[trigger] is_universal(bytes@, names, r),
            forall|r: int|
                #![trigger is_reached(bytes@, names, r)]
                0 <= r < record ==> 6 + 12 * r <= length,
            match first {
                Some(f) => f < record && is_family(bytes@, names, f as int) && forall|r: int|
                    0 <= r < f ==> !#[trigger] is_family(bytes@, names, r),
                None => forall|r: int| 0 <= r < record ==> !#[trigger] is_family(bytes@, names, r),
            },
        decreases count - record,
    {
        let at: u32 = 6 + 12 * record as u32;
        if at > length {
            assert(is_reached(bytes@, names, record as int));
            return false;
        }
        if at + 12 <= length && read_name_field(bytes, names, record, 6) == 1 {
            assert(is_family(bytes@, names, record as int));
            if read_name_field(bytes, names, record, 0) == 0 {
                assert(is_universal(bytes@, names, record as int));
                return true;
            }
            if first.is_none() {
                first = Some(record);
            }
        }
        record = record + 1;
    }
    match first {
        Some(f) => {
            let overruns: bool = does_name_overrun(bytes, names, f);
            proof {
                assert(is_found(bytes@, names, f as int));
                assert forall|r: int| #[trigger] is_found(bytes@, names, r) implies r == f by {
                    assert(!is_universal(bytes@, names, r));
                    assert(is_family(bytes@, names, r));
                    assert(is_family(bytes@, names, f as int));
                }
            }
            !overruns
        },
        None => true,
    }
}

proof fn lemma_tables_are_ranges(bytes: Seq<u8>, face: u32, tag: u32, low: int, high: int)
    ensures
        table_among(bytes, face, tag, low, high) matches Some(table) ==> table.start <= table.end,
    decreases high - low,
{
    if low < high {
        let middle = (low + high) / 2;
        lemma_tables_are_ranges(bytes, face, tag, low, middle);
        lemma_tables_are_ranges(bytes, face, tag, middle + 1, high);
    }
}

/// Tells whether a face's outlines can be read.
pub fn reads_outlines(bytes: &[u8], index: u32) -> (yes: bool)
    ensures
        yes == outlines_readable(bytes@, index),
{
    if !reads_metrics(bytes, index) {
        return false;
    }
    let face: u32 = match find_face(bytes, index) {
        Some(face) => face,
        None => return false,
    };
    match find_held(bytes, face, TAG_NAME) {
        Some(names) => {
            proof {
                lemma_tables_are_ranges(
                    bytes@,
                    face,
                    TAG_NAME,
                    0,
                    u16_at(bytes@, face + 4)->0 as int,
                );
            }
            find_start(bytes, face, TAG_SBIX) == 0 || finds_family(bytes, names)
        },
        None => true,
    }
}

} // verus!

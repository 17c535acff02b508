//! Pick-id encoding for sketch lines and solid triangles.
//!
//! Id `0` is "nothing"; ids `1..=line_count` name sketch lines and the ids
//! after them name solid triangles.  An id travels through the GPU as the
//! red, green and blue bytes of a pixel.
use vstd::prelude::*;

verus! {

/// Encoded pick target id.
#[derive(Debug, Clone, Copy, PartialEq, Eq, Structural)]
pub struct SelectionId(pub u32);

/// Result of a viewport pick query.
#[derive(Debug, Clone, Copy, PartialEq, Eq, Structural)]
pub enum PickResult {
    /// The pixel shows no pickable target.
    Nothing,
    SketchLine(usize),
    SolidTriangle(usize),
}

/// Maps pick ids to sketch lines and solid triangles.
#[derive(Debug, Clone, Copy, PartialEq, Eq, Structural)]
pub struct SelectionCatalog {
    pub line_count: usize,
    pub triangle_count: usize,
}

/// The id of a sketch line: its index plus one, saturating at `u32::MAX`
/// (the index is first truncated to 32 bits).
pub open spec fn line_id_spec(line_index: usize) -> u32 {
    let i = line_index as u32;
    if i == u32::MAX { u32::MAX } else { (i + 1) as u32 }
}

/// The id of a solid triangle: it follows every sketch line id.
pub open spec fn triangle_id_spec(triangle_index: usize, line_count: usize) -> int {
    (line_count as u32) + (triangle_index as u32) + 1
}

/// What a pick id names in a catalog.
pub open spec fn decode_spec(catalog: SelectionCatalog, id: SelectionId) -> PickResult {
    if id.0 == 0 {
        PickResult::Nothing
    } else if id.0 <= catalog.line_count as u32 {
        PickResult::SketchLine((id.0 - 1) as usize)
    } else if ((id.0 - (catalog.line_count as u32) - 1) as usize) < catalog.triangle_count {
        PickResult::SolidTriangle((id.0 - (catalog.line_count as u32) - 1) as usize)
    } else {
        PickResult::Nothing
    }
}

/// The red, green and blue bytes of an id, followed by an opaque alpha.
pub open spec fn rgba_spec(id: SelectionId) -> [u8; 4] {
    [
        ((id.0 as int / 0x10000) % 0x100) as u8,
        ((id.0 as int / 0x100) % 0x100) as u8,
        (id.0 as int % 0x100) as u8,
        255u8,
    ]
}

/// The id packed in the red, green and blue bytes of a pixel.
pub open spec fn id_of_rgba_spec(rgba: [u8; 4]) -> SelectionId {
    SelectionId((rgba[0] as int * 0x10000 + rgba[1] as int * 0x100 + rgba[2] as int) as u32)
}

impl SelectionId {
    /// The id that names nothing.
    pub fn none() -> (id: SelectionId)
        ensures
            id.0 == 0,
    {
        SelectionId(0)
    }

    pub fn from_line_index(line_index: usize) -> (id: SelectionId)
        ensures
            id.0 == line_id_spec(line_index),
    {
        SelectionId((line_index as u32).saturating_add(1))
    }

    pub fn from_triangle_index(triangle_index: usize, line_count: usize) -> (id: SelectionId)
        requires
            triangle_id_spec(triangle_index, line_count) <= u32::MAX,
        ensures
            id.0 == triangle_id_spec(triangle_index, line_count),
    {
        SelectionId(line_count as u32 + triangle_index as u32 + 1)
    }

    pub fn line_index(self) -> (index: Option<usize>)
        ensures
            self.0 == 0 ==> index is None,
            self.0 != 0 ==> index == Some((self.0 - 1) as usize),
    {
        if self.0 == 0 {
            None
        } else {
            Some((self.0 - 1) as usize)
        }
    }
}

impl SelectionCatalog {
    pub fn decode(self, id: SelectionId) -> (result: PickResult)
        ensures
            result == decode_spec(self, id),
    {
        if id.0 == 0 {
            return PickResult::Nothing;
        }
        if id.0 <= self.line_count as u32 {
            return PickResult::SketchLine((id.0 - 1) as usize);
        }
        let triangle_index = (id.0 - self.line_count as u32 - 1) as usize;
        if triangle_index < self.triangle_count {
            PickResult::SolidTriangle(triangle_index)
        } else {
            PickResult::Nothing
        }
    }
}

pub fn selection_id_to_rgba(id: SelectionId) -> (rgba: [u8; 4])
    ensures
        rgba == rgba_spec(id),
{
    let value = id.0;
    let r = ((value >> 16) & 0xff) as u8;
    let g = ((value >> 8) & 0xff) as u8;
    let b = (value & 0xff) as u8;
    assert(((value >> 16) & 0xff) == (value as int / 0x10000) % 0x100) by (bit_vector);
    assert(((value >> 8) & 0xff) == (value as int / 0x100) % 0x100) by (bit_vector);
    assert((value & 0xff) == value as int % 0x100) by (bit_vector);
    let rgba = [r, g, b, 255];
    assert(rgba =~= rgba_spec(id));
    rgba
}

pub fn rgba_to_selection_id(rgba: [u8; 4]) -> (id: SelectionId)
    ensures
        id == id_of_rgba_spec(rgba),
{
    let r = rgba[0] as u32;
    let g = rgba[1] as u32;
    let b = rgba[2] as u32;
    let value = (r << 16) | (g << 8) | b;
    assert((r << 16) | (g << 8) | b == r * 0x10000 + g * 0x100 + b) by (bit_vector)
        requires
            r < 256,
            g < 256,
            b < 256,
    ;
    SelectionId(value)
}

/// A line index below `u32::MAX` survives the trip to an id and back.
pub proof fn law_line_index_round_trip(line_index: usize)
    requires
        line_index < u32::MAX,
    ensures
        line_id_spec(line_index) != 0,
        (line_id_spec(line_index) - 1) as usize == line_index,
{
}

/// Every id below 2^24 survives the trip through a pixel's color bytes.
pub proof fn law_rgba_round_trip(id: SelectionId)
    requires
        id.0 < 0x100_0000,
    ensures
        id_of_rgba_spec(rgba_spec(id)) == id,
{
    let v = id.0 as int;
    assert(v == (v / 0x10000) * 0x10000 + ((v / 0x100) % 0x100) * 0x100 + v % 0x100) by (nonlinear_arith)
        requires
            0 <= v < 0x100_0000,
    ;
}

/// A line id decodes to its sketch line, a triangle id to its triangle, and
/// id zero to nothing: the two namespaces never overlap.
pub proof fn law_decode_ids(catalog: SelectionCatalog, line_index: usize, triangle_index: usize)
    requires
        catalog.line_count < u32::MAX,
        triangle_index < u32::MAX,
        triangle_id_spec(triangle_index, catalog.line_count) <= u32::MAX,
    ensures
        decode_spec(catalog, SelectionId(0)) == PickResult::Nothing,
        line_index < catalog.line_count ==> decode_spec(
            catalog,
            SelectionId(line_id_spec(line_index)),
        ) == PickResult::SketchLine(line_index),
        triangle_index < catalog.triangle_count ==> decode_spec(
            catalog,
            SelectionId(triangle_id_spec(triangle_index, catalog.line_count) as u32),
        ) == PickResult::SolidTriangle(triangle_index),
{
}

} // verus!

//! Which sketch entity stands behind a pickable overlay line, and how a
//! constraint is marked on the overlay.
use vstd::prelude::*;
use crate::constraint::Constraint;
use crate::refs::opt_view;

verus! {

/// Where an overlay line comes from: its sketch entity, when it has one,
/// and whether it is construction geometry. (The line's end points stay
/// with the renderer.)
#[derive(Debug, Clone, PartialEq, Eq)]
pub struct LineOrigin {
    pub construction: bool,
    pub sketch_id: Option<String>,
    pub entity_id: Option<String>,
    /// Segment of a tessellated circle; lines of line entities have none.
    pub segment_index: Option<usize>,
}

/// Resolved sketch entity behind a pickable overlay line index.
#[derive(Debug, Clone, PartialEq, Eq)]
pub struct PickableSketchLine {
    pub sketch_id: String,
    pub entity_id: String,
    pub entity_kind: &'static str,
    pub segment_index: Option<usize>,
    pub construction: bool,
}

/// `"circle"` for a circle segment, `"line"` otherwise.
pub open spec fn entity_kind_of(segment_index: Option<usize>) -> Seq<char> {
    if segment_index is Some {
        "circle"@
    } else {
        "line"@
    }
}

/// Map a GPU pick line index to the source sketch entity, when known: the
/// line must exist and name both its sketch and its entity.
pub fn pickable_line_at(lines: &[LineOrigin], line_index: usize) -> (r: Option<PickableSketchLine>)
    ensures
        match r {
            Some(p) => {
                &&& line_index < lines@.len()
                &&& opt_view(lines@[line_index as int].sketch_id) == Some(p.sketch_id@)
                &&& opt_view(lines@[line_index as int].entity_id) == Some(p.entity_id@)
                &&& p.entity_kind@ == entity_kind_of(lines@[line_index as int].segment_index)
                &&& p.segment_index == lines@[line_index as int].segment_index
                &&& p.construction == lines@[line_index as int].construction
            },
            None => line_index >= lines@.len() || lines@[line_index as int].sketch_id is None
                || lines@[line_index as int].entity_id is None,
        },
{
    if line_index >= lines.len() {
        return None;
    }
    let line = &lines[line_index];
    let sketch_id = match &line.sketch_id {
        Some(s) => s.clone(),
        None => {
            return None;
        },
    };
    let entity_id = match &line.entity_id {
        Some(s) => s.clone(),
        None => {
            return None;
        },
    };
    let entity_kind: &'static str = if line.segment_index.is_some() {
        "circle"
    } else {
        "line"
    };
    Some(
        PickableSketchLine {
            sketch_id,
            entity_id,
            entity_kind,
            segment_index: line.segment_index,
            construction: line.construction,
        },
    )
}

/// How a constraint is marked on the sketch overlay.
#[derive(Debug, Clone, Copy, PartialEq, Eq)]
pub enum ConstraintMark {
    /// A fixed text label.
    Glyph(&'static str),
    /// The dimension's value as text, after a prefix.
    Dimension { prefix: &'static str },
    /// The angle in degrees, after `<`.
    AngleDegrees,
    /// A drawn coincidence symbol.
    CoincidentSymbol,
    /// A drawn right-angle symbol.
    PerpendicularSymbol,
}

pub open spec fn constraint_mark_spec(c: Constraint) -> ConstraintMark {
    match c {
        Constraint::Distance { .. } => ConstraintMark::Dimension { prefix: "" },
        Constraint::Horizontal { .. } => ConstraintMark::Glyph("H"),
        Constraint::Vertical { .. } => ConstraintMark::Glyph("V"),
        Constraint::Radius { .. } => ConstraintMark::Dimension { prefix: "R" },
        Constraint::Diameter { .. } => ConstraintMark::Dimension { prefix: "D" },
        Constraint::Coincident { .. } => ConstraintMark::CoincidentSymbol,
        Constraint::Parallel { .. } => ConstraintMark::Glyph("//"),
        Constraint::Perpendicular { .. } => ConstraintMark::PerpendicularSymbol,
        Constraint::Equal { .. } => ConstraintMark::Glyph("="),
        Constraint::Angle { .. } => ConstraintMark::AngleDegrees,
        Constraint::Midpoint { .. } => ConstraintMark::Glyph("M"),
        Constraint::Symmetric { .. } => ConstraintMark::Glyph("S"),
        Constraint::Tangent { .. } => ConstraintMark::Glyph("T"),
    }
}

/// The mark a constraint gets on the overlay; where it is placed is
/// geometry.
pub fn constraint_mark(c: &Constraint) -> (m: ConstraintMark)
    ensures
        m == constraint_mark_spec(*c),
{
    match c {
        Constraint::Distance { .. } => ConstraintMark::Dimension { prefix: "" },
        Constraint::Horizontal { .. } => ConstraintMark::Glyph("H"),
        Constraint::Vertical { .. } => ConstraintMark::Glyph("V"),
        Constraint::Radius { .. } => ConstraintMark::Dimension { prefix: "R" },
        Constraint::Diameter { .. } => ConstraintMark::Dimension { prefix: "D" },
        Constraint::Coincident { .. } => ConstraintMark::CoincidentSymbol,
        Constraint::Parallel { .. } => ConstraintMark::Glyph("//"),
        Constraint::Perpendicular { .. } => ConstraintMark::PerpendicularSymbol,
        Constraint::Equal { .. } => ConstraintMark::Glyph("="),
        Constraint::Angle { .. } => ConstraintMark::AngleDegrees,
        Constraint::Midpoint { .. } => ConstraintMark::Glyph("M"),
        Constraint::Symmetric { .. } => ConstraintMark::Glyph("S"),
        Constraint::Tangent { .. } => ConstraintMark::Glyph("T"),
    }
}

} // verus!

//! Geometric and dimensional sketch constraints, and the entities they
//! refer to.
use vstd::prelude::*;
use crate::error::CadError;
use crate::refs::opt_view;
use crate::text::str_eq;

verus! {

/// Reference to a point, line, circle, or a sub-element.
#[derive(Debug, Clone, PartialEq, Eq)]
pub enum EntityRef {
    Entity(String),
    PointOnLine { line: String, end: LineEnd },
}

#[derive(Debug, Clone, Copy, PartialEq, Eq, Structural)]
pub enum LineEnd {
    Start,
    End,
}

#[derive(Debug, Clone, PartialEq, Eq)]
pub enum DistanceTarget {
    PointToPoint { a: String, b: String },
    LineLength { line: String },
    /// Dimension on a rectangle edge (e.g. `ent:rect_1.width`).
    RectangleDimension { rectangle: String, edge: RectangleEdge },
}

#[derive(Debug, Clone, Copy, PartialEq, Eq, Structural)]
pub enum RectangleEdge {
    Width,
    Height,
}

#[derive(Debug, Clone, PartialEq, Eq)]
pub enum EqualTarget {
    /// Length of a line entity.
    LineLength(String),
    /// Radius of a circle or arc entity.
    Radius(String),
}

/// Geometric or dimensional constraint in a sketch.
#[derive(Debug, Clone, PartialEq, Eq)]
pub enum Constraint {
    Coincident { id: String, a: EntityRef, b: EntityRef },
    Horizontal { id: String, line: String },
    Vertical { id: String, line: String },
    Parallel { id: String, line_a: String, line_b: String },
    Perpendicular { id: String, line_a: String, line_b: String },
    Distance { id: String, target: DistanceTarget, expr: String },
    Radius { id: String, target: String, expr: String },
    Diameter { id: String, target: String, expr: String },
    Equal { id: String, a: EqualTarget, b: EqualTarget },
    /// Directed angle from `line_a` to `line_b`.
    Angle { id: String, line_a: String, line_b: String, expr: String },
    /// A point at the midpoint of a line.
    Midpoint { id: String, point: String, line: String },
    /// Two points mirrored about a line.
    Symmetric { id: String, a: String, b: String, line: String },
    /// A line tangent to a circle or arc.
    Tangent { id: String, line: String, curve: String },
}

/// The entity a reference names (a point on a line names the line).
pub open spec fn entity_ref_id(r: EntityRef) -> Seq<char> {
    match r {
        EntityRef::Entity(id) => id@,
        EntityRef::PointOnLine { line, .. } => line@,
    }
}

/// The entity an equality target names.
pub open spec fn equal_target_id(t: EqualTarget) -> Seq<char> {
    match t {
        EqualTarget::LineLength(id) => id@,
        EqualTarget::Radius(id) => id@,
    }
}

pub open spec fn constraint_id(c: Constraint) -> Seq<char> {
    match c {
        Constraint::Coincident { id, .. } => id@,
        Constraint::Horizontal { id, .. } => id@,
        Constraint::Vertical { id, .. } => id@,
        Constraint::Parallel { id, .. } => id@,
        Constraint::Perpendicular { id, .. } => id@,
        Constraint::Distance { id, .. } => id@,
        Constraint::Radius { id, .. } => id@,
        Constraint::Diameter { id, .. } => id@,
        Constraint::Equal { id, .. } => id@,
        Constraint::Angle { id, .. } => id@,
        Constraint::Midpoint { id, .. } => id@,
        Constraint::Symmetric { id, .. } => id@,
        Constraint::Tangent { id, .. } => id@,
    }
}

/// Every sketch entity a constraint refers to, in field order.
pub open spec fn constraint_entities(c: Constraint) -> Seq<Seq<char>> {
    match c {
        Constraint::Coincident { a, b, .. } => seq![entity_ref_id(a), entity_ref_id(b)],
        Constraint::Horizontal { line, .. } => seq![line@],
        Constraint::Vertical { line, .. } => seq![line@],
        Constraint::Parallel { line_a, line_b, .. } => seq![line_a@, line_b@],
        Constraint::Perpendicular { line_a, line_b, .. } => seq![line_a@, line_b@],
        Constraint::Distance { target, .. } => match target {
            DistanceTarget::PointToPoint { a, b } => seq![a@, b@],
            DistanceTarget::LineLength { line } => seq![line@],
            DistanceTarget::RectangleDimension { rectangle, .. } => seq![rectangle@],
        },
        Constraint::Radius { target, .. } => seq![target@],
        Constraint::Diameter { target, .. } => seq![target@],
        Constraint::Equal { a, b, .. } => seq![equal_target_id(a), equal_target_id(b)],
        Constraint::Angle { line_a, line_b, .. } => seq![line_a@, line_b@],
        Constraint::Midpoint { point, line, .. } => seq![point@, line@],
        Constraint::Symmetric { a, b, line, .. } => seq![a@, b@, line@],
        Constraint::Tangent { line, curve, .. } => seq![line@, curve@],
    }
}

/// The parametric expression driving a constraint, if any.
pub open spec fn constraint_expression(c: Constraint) -> Option<Seq<char>> {
    match c {
        Constraint::Distance { expr, .. } => Some(expr@),
        Constraint::Radius { expr, .. } => Some(expr@),
        Constraint::Diameter { expr, .. } => Some(expr@),
        Constraint::Angle { expr, .. } => Some(expr@),
        _ => None,
    }
}

pub open spec fn refs_text(v: Seq<&String>) -> Seq<Seq<char>> {
    v.map_values(|s: &String| s@)
}

fn entity_ref_of(r: &EntityRef) -> (id: &String)
    ensures
        id@ == entity_ref_id(*r),
{
    match r {
        EntityRef::Entity(id) => id,
        EntityRef::PointOnLine { line, .. } => line,
    }
}

fn equal_target_of(t: &EqualTarget) -> (id: &String)
    ensures
        id@ == equal_target_id(*t),
{
    match t {
        EqualTarget::LineLength(id) => id,
        EqualTarget::Radius(id) => id,
    }
}

impl Constraint {
    pub fn id(&self) -> (id: &String)
        ensures
            id@ == constraint_id(*self),
    {
        match self {
            Constraint::Coincident { id, .. } => id,
            Constraint::Horizontal { id, .. } => id,
            Constraint::Vertical { id, .. } => id,
            Constraint::Parallel { id, .. } => id,
            Constraint::Perpendicular { id, .. } => id,
            Constraint::Distance { id, .. } => id,
            Constraint::Radius { id, .. } => id,
            Constraint::Diameter { id, .. } => id,
            Constraint::Equal { id, .. } => id,
            Constraint::Angle { id, .. } => id,
            Constraint::Midpoint { id, .. } => id,
            Constraint::Symmetric { id, .. } => id,
            Constraint::Tangent { id, .. } => id,
        }
    }

    /// Every sketch entity this constraint refers to, in field order.
    pub fn entity_refs(&self) -> (refs: Vec<&String>)
        ensures
            refs_text(refs@) == constraint_entities(*self),
    {
        let refs: Vec<&String> = match self {
            Constraint::Coincident { a, b, .. } => vec![entity_ref_of(a), entity_ref_of(b)],
            Constraint::Horizontal { line, .. } => vec![line],
            Constraint::Vertical { line, .. } => vec![line],
            Constraint::Parallel { line_a, line_b, .. } => vec![line_a, line_b],
            Constraint::Perpendicular { line_a, line_b, .. } => vec![line_a, line_b],
            Constraint::Distance { target, .. } => match target {
                DistanceTarget::PointToPoint { a, b } => vec![a, b],
                DistanceTarget::LineLength { line } => vec![line],
                DistanceTarget::RectangleDimension { rectangle, .. } => vec![rectangle],
            },
            Constraint::Radius { target, .. } => vec![target],
            Constraint::Diameter { target, .. } => vec![target],
            Constraint::Equal { a, b, .. } => vec![equal_target_of(a), equal_target_of(b)],
            Constraint::Angle { line_a, line_b, .. } => vec![line_a, line_b],
            Constraint::Midpoint { point, line, .. } => vec![point, line],
            Constraint::Symmetric { a, b, line, .. } => vec![a, b, line],
            Constraint::Tangent { line, curve, .. } => vec![line, curve],
        };
        assert(refs_text(refs@) =~= constraint_entities(*self));
        refs
    }

    /// The parametric expression driving this constraint, if any.
    pub fn expression(&self) -> (e: Option<&String>)
        ensures
            match e {
                Some(x) => constraint_expression(*self) == Some(x@),
                None => constraint_expression(*self) is None,
            },
    {
        match self {
            Constraint::Distance { expr, .. } => Some(expr),
            Constraint::Radius { expr, .. } => Some(expr),
            Constraint::Diameter { expr, .. } => Some(expr),
            Constraint::Angle { expr, .. } => Some(expr),
            _ => None,
        }
    }
}

/// Why an equality target object is refused.
pub const AMBIGUOUS_EQUAL_TARGET: &'static str =
    "equal target must contain exactly one of 'line' or 'radius'";

impl EqualTarget {
    /// The target named by the explicit object form `{"line": ..}` or
    /// `{"radius": ..}`: exactly one of the two must be present.
    pub fn from_fields(line: Option<String>, radius: Option<String>) -> (r: Result<
        EqualTarget,
        CadError,
    >)
        ensures
            match (opt_view(line), opt_view(radius)) {
                (Some(l), None) => r matches Ok(EqualTarget::LineLength(id)) && id@ == l,
                (None, Some(x)) => r matches Ok(EqualTarget::Radius(id)) && id@ == x,
                _ => r matches Err(CadError::Validation(m)) && m@ == AMBIGUOUS_EQUAL_TARGET@,
            },
    {
        match (line, radius) {
            (Some(id), None) => Ok(EqualTarget::LineLength(id)),
            (None, Some(id)) => Ok(EqualTarget::Radius(id)),
            _ => Err(CadError::Validation(AMBIGUOUS_EQUAL_TARGET.to_owned())),
        }
    }

    /// A bare entity id, the form written before targets named their kind,
    /// is a line-length target.
    pub fn from_legacy(id: String) -> (t: EqualTarget)
        ensures
            t matches EqualTarget::LineLength(x) && x@ == id@,
    {
        EqualTarget::LineLength(id)
    }

    /// The explicit object form: `(line, radius)`, exactly one present.
    pub fn fields(&self) -> (f: (Option<String>, Option<String>))
        ensures
            match *self {
                EqualTarget::LineLength(id) => opt_view(f.0) == Some(id@) && f.1 is None,
                EqualTarget::Radius(id) => f.0 is None && opt_view(f.1) == Some(id@),
            },
    {
        match self {
            EqualTarget::LineLength(id) => (Some(id.clone()), None),
            EqualTarget::Radius(id) => (None, Some(id.clone())),
        }
    }
}

/// Writing a target in its object form and reading it back gives the
/// same target.
pub proof fn law_equal_target_fields_round_trip(t: EqualTarget, line: Option<String>, radius: Option<String>)
    requires
        match t {
            EqualTarget::LineLength(id) => opt_view(line) == Some(id@) && radius is None,
            EqualTarget::Radius(id) => line is None && opt_view(radius) == Some(id@),
        },
    ensures
        match (opt_view(line), opt_view(radius)) {
            (Some(l), None) => t matches EqualTarget::LineLength(id) && id@ == l,
            (None, Some(x)) => t matches EqualTarget::Radius(id) && id@ == x,
            _ => false,
        },
{
}

/// Some constraint of the list has the id.
pub open spec fn has_constraint_id(cs: Seq<Constraint>, id: Seq<char>) -> bool {
    exists|i: int| 0 <= i < cs.len() && constraint_id(#[trigger] cs[i]) == id
}

/// Add a constraint to a sketch's list; ids are unique, so a constraint
/// whose id is taken is refused and the list is left as it was.
pub fn add_constraint(constraints: &mut Vec<Constraint>, constraint: Constraint) -> (r: Result<(), CadError>)
    ensures
        has_constraint_id(old(constraints)@, constraint_id(constraint)) ==> {
            &&& r matches Err(CadError::Validation(m)) && m@ == "constraint '"@ + constraint_id(
                constraint,
            ) + "' already exists"@
            &&& final(constraints)@ == old(constraints)@
        },
        !has_constraint_id(old(constraints)@, constraint_id(constraint)) ==> {
            &&& r is Ok
            &&& final(constraints)@ == old(constraints)@.push(constraint)
        },
{
    let mut i: usize = 0;
    while i < constraints.len()
        invariant
            i <= constraints.len(),
            forall|k: int|
                0 <= k < i ==> constraint_id(#[trigger] constraints@[k]) != constraint_id(constraint),
        decreases constraints.len() - i,
    {
        if str_eq(constraints[i].id().as_str(), constraint.id().as_str()) {
            let mut m = "constraint '".to_owned();
            m.append(constraint.id().as_str());
            m.append("' already exists");
            return Err(CadError::Validation(m));
        }
        i = i + 1;
    }
    constraints.push(constraint);
    Ok(())
}

} // verus!

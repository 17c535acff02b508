//! Solver variables referenced by residual equations.
use vstd::prelude::*;

verus! {

/// Index of a scalar solver variable.
#[derive(Debug, Clone, Copy, PartialEq, Eq, Hash, Structural)]
pub struct VarId(pub u32);

/// A scalar length used by an equal-length residual: the length of a
/// segment between two points, or a scalar variable (a radius).
#[derive(Debug, Clone, Copy, PartialEq, Eq, Structural)]
pub enum LengthTerm {
    Segment { x1: VarId, y1: VarId, x2: VarId, y2: VarId },
    Scalar { value: VarId },
}

/// Variables a length term reads, in field order.
pub open spec fn length_term_vars_spec(term: LengthTerm) -> Seq<VarId> {
    match term {
        LengthTerm::Segment { x1, y1, x2, y2 } => seq![x1, y1, x2, y2],
        LengthTerm::Scalar { value } => seq![value],
    }
}

pub fn length_term_vars(term: LengthTerm) -> (vars: Vec<VarId>)
    ensures
        vars@ == length_term_vars_spec(term),
{
    let vars = match term {
        LengthTerm::Segment { x1, y1, x2, y2 } => vec![x1, y1, x2, y2],
        LengthTerm::Scalar { value } => vec![value],
    };
    assert(vars@ =~= length_term_vars_spec(term));
    vars
}

/// Built-in 2D constraint residuals, with the variables each one reads.
/// Fixed targets (cosines, distances, values, angles) are carried as the
/// bit patterns of their `f64` values; evaluating a residual is floating
/// point and happens outside this library.
#[derive(Debug, Clone, Copy, PartialEq, Eq, Structural)]
pub enum ConstraintResidual {
    /// A point lies at a fixed angle on an arc (x coordinate).
    ArcEndpointX { px: VarId, cx: VarId, radius: VarId, cos_bits: u64 },
    /// A point lies at a fixed angle on an arc (y coordinate).
    ArcEndpointY { py: VarId, cy: VarId, radius: VarId, sin_bits: u64 },
    CoincidentX { a: VarId, b: VarId },
    CoincidentY { a: VarId, b: VarId },
    Horizontal { x1: VarId, y1: VarId, x2: VarId, y2: VarId },
    Vertical { x1: VarId, y1: VarId, x2: VarId, y2: VarId },
    /// Direction alignment of two line segments.
    Parallel {
        ax1: VarId,
        ay1: VarId,
        ax2: VarId,
        ay2: VarId,
        bx1: VarId,
        by1: VarId,
        bx2: VarId,
        by2: VarId,
    },
    /// Orthogonality of two line segments.
    Perpendicular {
        ax1: VarId,
        ay1: VarId,
        ax2: VarId,
        ay2: VarId,
        bx1: VarId,
        by1: VarId,
        bx2: VarId,
        by2: VarId,
    },
    Distance { x1: VarId, y1: VarId, x2: VarId, y2: VarId, target_bits: u64 },
    Radius { radius: VarId, target_bits: u64 },
    /// Equality between any two length-valued terms (line length or radius).
    EqualLength { a: LengthTerm, b: LengthTerm },
    FixedX { x: VarId, value_bits: u64 },
    FixedY { y: VarId, value_bits: u64 },
    /// Directed angle from segment `a` to segment `b`.
    Angle {
        ax1: VarId,
        ay1: VarId,
        ax2: VarId,
        ay2: VarId,
        bx1: VarId,
        by1: VarId,
        bx2: VarId,
        by2: VarId,
        target_rad_bits: u64,
    },
    /// One coordinate of a point equals the mean of two coordinates.
    Midpoint { point: VarId, a: VarId, b: VarId },
    /// The midpoint of `p`–`q` lies on the line `l1`–`l2`.
    SymmetricMidpointOnLine {
        px: VarId,
        py: VarId,
        qx: VarId,
        qy: VarId,
        lx1: VarId,
        ly1: VarId,
        lx2: VarId,
        ly2: VarId,
    },
    /// `p`–`q` is perpendicular to the line `l1`–`l2`.
    SymmetricPerpendicular {
        px: VarId,
        py: VarId,
        qx: VarId,
        qy: VarId,
        lx1: VarId,
        ly1: VarId,
        lx2: VarId,
        ly2: VarId,
    },
    /// Distance from a circle center to an infinite line equals the radius.
    TangentLineCircle {
        cx: VarId,
        cy: VarId,
        radius: VarId,
        lx1: VarId,
        ly1: VarId,
        lx2: VarId,
        ly2: VarId,
    },
}

/// The variables a residual reads, in field order (an equal-length
/// residual: its first term's, then its second's).
pub open spec fn involved_vars_spec(r: ConstraintResidual) -> Seq<VarId> {
    match r {
        ConstraintResidual::CoincidentX { a, b } => seq![a, b],
        ConstraintResidual::CoincidentY { a, b } => seq![a, b],
        ConstraintResidual::Horizontal { x1, y1, x2, y2 } => seq![x1, y1, x2, y2],
        ConstraintResidual::Vertical { x1, y1, x2, y2 } => seq![x1, y1, x2, y2],
        ConstraintResidual::Parallel { ax1, ay1, ax2, ay2, bx1, by1, bx2, by2 } => seq![
            ax1,
            ay1,
            ax2,
            ay2,
            bx1,
            by1,
            bx2,
            by2,
        ],
        ConstraintResidual::Perpendicular { ax1, ay1, ax2, ay2, bx1, by1, bx2, by2 } => seq![
            ax1,
            ay1,
            ax2,
            ay2,
            bx1,
            by1,
            bx2,
            by2,
        ],
        ConstraintResidual::Distance { x1, y1, x2, y2, .. } => seq![x1, y1, x2, y2],
        ConstraintResidual::Radius { radius, .. } => seq![radius],
        ConstraintResidual::EqualLength { a, b } => length_term_vars_spec(a)
            + length_term_vars_spec(b),
        ConstraintResidual::FixedX { x, .. } => seq![x],
        ConstraintResidual::FixedY { y, .. } => seq![y],
        ConstraintResidual::Angle { ax1, ay1, ax2, ay2, bx1, by1, bx2, by2, .. } => seq![
            ax1,
            ay1,
            ax2,
            ay2,
            bx1,
            by1,
            bx2,
            by2,
        ],
        ConstraintResidual::Midpoint { point, a, b } => seq![point, a, b],
        ConstraintResidual::ArcEndpointX { px, cx, radius, .. } => seq![px, cx, radius],
        ConstraintResidual::ArcEndpointY { py, cy, radius, .. } => seq![py, cy, radius],
        ConstraintResidual::SymmetricMidpointOnLine { px, py, qx, qy, lx1, ly1, lx2, ly2 } => seq![
            px,
            py,
            qx,
            qy,
            lx1,
            ly1,
            lx2,
            ly2,
        ],
        ConstraintResidual::SymmetricPerpendicular { px, py, qx, qy, lx1, ly1, lx2, ly2 } => seq![
            px,
            py,
            qx,
            qy,
            lx1,
            ly1,
            lx2,
            ly2,
        ],
        ConstraintResidual::TangentLineCircle { cx, cy, radius, lx1, ly1, lx2, ly2 } => seq![
            cx,
            cy,
            radius,
            lx1,
            ly1,
            lx2,
            ly2,
        ],
    }
}

impl ConstraintResidual {
    /// Midpoint equations for both axes.
    pub fn midpoint(px: VarId, py: VarId, line: (VarId, VarId, VarId, VarId)) -> (r: [Self; 2])
        ensures
            r[0] == (ConstraintResidual::Midpoint { point: px, a: line.0, b: line.2 }),
            r[1] == (ConstraintResidual::Midpoint { point: py, a: line.1, b: line.3 }),
    {
        let (x1, y1, x2, y2) = line;
        [
            ConstraintResidual::Midpoint { point: px, a: x1, b: x2 },
            ConstraintResidual::Midpoint { point: py, a: y1, b: y2 },
        ]
    }

    /// Coincidence equations for both axes.
    pub fn coincident(a_x: VarId, a_y: VarId, b_x: VarId, b_y: VarId) -> (r: [Self; 2])
        ensures
            r[0] == (ConstraintResidual::CoincidentX { a: a_x, b: b_x }),
            r[1] == (ConstraintResidual::CoincidentY { a: a_y, b: b_y }),
    {
        [
            ConstraintResidual::CoincidentX { a: a_x, b: b_x },
            ConstraintResidual::CoincidentY { a: a_y, b: b_y },
        ]
    }

    /// The variables this residual reads; the Jacobian perturbs exactly
    /// these columns.
    pub fn involved_vars(&self) -> (vars: Vec<VarId>)
        ensures
            vars@ == involved_vars_spec(*self),
    {
        let vars = match *self {
            ConstraintResidual::CoincidentX { a, b } => vec![a, b],
            ConstraintResidual::CoincidentY { a, b } => vec![a, b],
            ConstraintResidual::Horizontal { x1, y1, x2, y2 }
            | ConstraintResidual::Vertical { x1, y1, x2, y2 } => vec![x1, y1, x2, y2],
            ConstraintResidual::Parallel { ax1, ay1, ax2, ay2, bx1, by1, bx2, by2 }
            | ConstraintResidual::Perpendicular { ax1, ay1, ax2, ay2, bx1, by1, bx2, by2 } => vec![
                ax1,
                ay1,
                ax2,
                ay2,
                bx1,
                by1,
                bx2,
                by2,
            ],
            ConstraintResidual::Distance { x1, y1, x2, y2, .. } => vec![x1, y1, x2, y2],
            ConstraintResidual::Radius { radius, .. } => vec![radius],
            ConstraintResidual::EqualLength { a, b } => {
                let mut vars = length_term_vars(a);
                let mut rest = length_term_vars(b);
                vars.append(&mut rest);
                vars
            },
            ConstraintResidual::FixedX { x, .. } => vec![x],
            ConstraintResidual::FixedY { y, .. } => vec![y],
            ConstraintResidual::Angle { ax1, ay1, ax2, ay2, bx1, by1, bx2, by2, .. } => vec![
                ax1,
                ay1,
                ax2,
                ay2,
                bx1,
                by1,
                bx2,
                by2,
            ],
            ConstraintResidual::Midpoint { point, a, b } => vec![point, a, b],
            ConstraintResidual::ArcEndpointX { px, cx, radius, .. } => vec![px, cx, radius],
            ConstraintResidual::ArcEndpointY { py, cy, radius, .. } => vec![py, cy, radius],
            ConstraintResidual::SymmetricMidpointOnLine { px, py, qx, qy, lx1, ly1, lx2, ly2 }
            | ConstraintResidual::SymmetricPerpendicular { px, py, qx, qy, lx1, ly1, lx2, ly2 } =>
                vec![px, py, qx, qy, lx1, ly1, lx2, ly2],
            ConstraintResidual::TangentLineCircle { cx, cy, radius, lx1, ly1, lx2, ly2 } => vec![
                cx,
                cy,
                radius,
                lx1,
                ly1,
                lx2,
                ly2,
            ],
        };
        assert(vars@ =~= involved_vars_spec(*self));
        vars
    }
}

/// The equations below `n` that repeat an earlier one.
pub open spec fn repeats_below(eqs: Seq<ConstraintResidual>, n: int) -> nat
    decreases n,
{
    if n <= 0 {
        0
    } else {
        repeats_below(eqs, n - 1) + if eqs.subrange(0, n - 1).contains(eqs[n - 1]) {
            1nat
        } else {
            0nat
        }
    }
}

/// How many equations repeat an earlier one exactly (same kind, variables
/// and target bits).
pub fn count_redundant_equations(equations: &[ConstraintResidual]) -> (n: usize)
    ensures
        n == repeats_below(equations@, equations@.len() as int),
{
    let mut redundant: usize = 0;
    let mut k: usize = 0;
    while k < equations.len()
        invariant
            k <= equations.len(),
            redundant == repeats_below(equations@, k as int),
            redundant <= k,
        decreases equations.len() - k,
    {
        let mut seen = false;
        let mut j: usize = 0;
        while j < k
            invariant
                j <= k < equations.len(),
                seen <==> equations@.subrange(0, j as int).contains(equations@[k as int]),
            decreases k - j,
        {
            let ghost before = equations@.subrange(0, j as int);
            assert(equations@.subrange(0, j + 1) =~= before.push(equations@[j as int]));
            let same = equations[j] == equations[k];
            proof {
                let x = equations@[k as int];
                let after = equations@.subrange(0, j + 1);
                if after.contains(x) {
                    let i = after.index_of(x);
                    if i < j {
                        assert(before[i] == x);
                    }
                }
                if before.contains(x) {
                    let i = before.index_of(x);
                    assert(after[i] == x);
                }
                if same {
                    assert(after[j as int] == x);
                }
            }
            if same {
                seen = true;
            }
            j = j + 1;
        }
        if seen {
            redundant = redundant + 1;
        }
        k = k + 1;
    }
    redundant
}

} // verus!

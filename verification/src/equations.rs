//! Sketch constraints as solver equations: the solver's variables by name,
//! the sketch entities a constraint can name, and the residual equations
//! each constraint contributes, with the errors it is refused with.
use vstd::prelude::*;
use crate::constraint::{Constraint, DistanceTarget, EntityRef, EqualTarget, LineEnd, RectangleEdge};
use crate::error::{copy_error, fault, fault_of, result_view, CadError, ErrorKind, Fault};
use crate::refs::{opt_view, strings_view};
use crate::residual::{ConstraintResidual, LengthTerm, VarId};
use crate::text::str_eq;

verus! {

// ---------------------------------------------------------------------------
// Variables by name
// ---------------------------------------------------------------------------

pub open spec fn x_name(id: Seq<char>) -> Seq<char> {
    id + ".x"@
}

pub open spec fn y_name(id: Seq<char>) -> Seq<char> {
    id + ".y"@
}

pub open spec fn radius_name(id: Seq<char>) -> Seq<char> {
    id + ".radius"@
}

/// `id` followed by `suffix`.
fn var_name(id: &str, suffix: &str) -> (s: String)
    ensures
        s@ == id@ + suffix@,
{
    let mut s = id.to_owned();
    s.append(suffix);
    s
}

/// `prefix`, the id, and a closing quote.
fn quoted(prefix: &str, id: &str) -> (s: String)
    ensures
        s@ == prefix@ + id@ + "'"@,
{
    let mut s = prefix.to_owned();
    s.append(id);
    s.append("'");
    s
}

/// The first variable below `n` with the given name.
pub open spec fn var_below(names: Seq<Seq<char>>, name: Seq<char>, n: int) -> Option<VarId>
    decreases n,
{
    if n <= 0 {
        None
    } else {
        match var_below(names, name, n - 1) {
            Some(v) => Some(v),
            None => if names[n - 1] == name {
                Some(VarId((n - 1) as u32))
            } else {
                None
            },
        }
    }
}

/// The variable with the given name, if any.
pub open spec fn var_of(names: Seq<Seq<char>>, name: Seq<char>) -> Option<VarId> {
    var_below(names, name, names.len() as int)
}

proof fn lemma_var_below_settled(names: Seq<Seq<char>>, name: Seq<char>, m: int, n: int)
    requires
        0 <= m <= n,
        var_below(names, name, m) is Some,
    ensures
        var_below(names, name, n) == var_below(names, name, m),
    decreases n - m,
{
    if n > m {
        lemma_var_below_settled(names, name, m, n - 1);
    }
}

/// The solver's scalar variables, by name: variable `i` is the `i`-th name.
pub struct VarTable {
    names: Vec<String>,
}

impl View for VarTable {
    type V = Seq<Seq<char>>;

    closed spec fn view(&self) -> Seq<Seq<char>> {
        strings_view(self.names@)
    }
}

impl VarTable {
    pub fn new() -> (t: VarTable)
        ensures
            t@ == Seq::<Seq<char>>::empty(),
    {
        let t = VarTable { names: Vec::new() };
        assert(t@ =~= Seq::<Seq<char>>::empty());
        t
    }

    pub fn len(&self) -> (n: usize)
        ensures
            n == self@.len(),
    {
        self.names.len()
    }

    /// The variable named `name`, if any.
    pub fn get(&self, name: &str) -> (v: Option<VarId>)
        ensures
            v == var_of(self@, name@),
    {
        let mut i: usize = 0;
        while i < self.names.len()
            invariant
                i <= self.names.len(),
                var_below(self@, name@, i as int) is None,
            decreases self.names.len() - i,
        {
            assert(self@[i as int] == self.names@[i as int]@);
            if str_eq(self.names[i].as_str(), name) {
                proof {
                    lemma_var_below_settled(self@, name@, i + 1, self@.len() as int);
                }
                return Some(VarId(i as u32));
            }
            i = i + 1;
        }
        None
    }

    /// The variable named `name`: the one there is, or a new one after the
    /// others.
    pub fn register(&mut self, name: &str) -> (v: VarId)
        requires
            old(self)@.len() < u32::MAX,
        ensures
            var_of(old(self)@, name@) matches Some(x) ==> v == x && final(self)@ == old(self)@,
            var_of(old(self)@, name@) is None ==> v == VarId(old(self)@.len() as u32)
                && final(self)@ == old(self)@.push(name@),
    {
        match self.get(name) {
            Some(v) => v,
            None => {
                let n = self.names.len();
                let ghost before = self.names@;
                self.names.push(name.to_owned());
                assert(strings_view(self.names@) =~= strings_view(before).push(name@));
                VarId(n as u32)
            },
        }
    }
}

// ---------------------------------------------------------------------------
// Sketch entities
// ---------------------------------------------------------------------------

/// What a sketch entity is, as far as its equations go: a line's end
/// points, a circle's or arc's center point, a rectangle's corner points.
#[derive(Debug, Clone, PartialEq, Eq)]
pub enum ShapeKind {
    Point,
    Line { start: String, end: String },
    Circle { center: String },
    Arc { center: String, start_point: Option<String>, end_point: Option<String> },
    Rectangle { corners: Vec<String> },
}

pub enum ShapeKindView {
    Point,
    Line { start: Seq<char>, end: Seq<char> },
    Circle { center: Seq<char> },
    Arc { center: Seq<char>, start_point: Option<Seq<char>>, end_point: Option<Seq<char>> },
    Rectangle { corners: Seq<Seq<char>> },
}

impl View for ShapeKind {
    type V = ShapeKindView;

    open spec fn view(&self) -> ShapeKindView {
        match self {
            ShapeKind::Point => ShapeKindView::Point,
            ShapeKind::Line { start, end } => ShapeKindView::Line { start: start@, end: end@ },
            ShapeKind::Circle { center } => ShapeKindView::Circle { center: center@ },
            ShapeKind::Arc { center, start_point, end_point } => ShapeKindView::Arc {
                center: center@,
                start_point: opt_view(*start_point),
                end_point: opt_view(*end_point),
            },
            ShapeKind::Rectangle { corners } => ShapeKindView::Rectangle {
                corners: strings_view(corners@),
            },
        }
    }
}

/// A sketch entity and its id.
#[derive(Debug, Clone, PartialEq, Eq)]
pub struct SketchShape {
    pub id: String,
    pub kind: ShapeKind,
}

pub struct ShapeView {
    pub id: Seq<char>,
    pub kind: ShapeKindView,
}

impl View for SketchShape {
    type V = ShapeView;

    open spec fn view(&self) -> ShapeView {
        ShapeView { id: self.id@, kind: self.kind@ }
    }
}

pub open spec fn shapes_view(shapes: Seq<SketchShape>) -> Seq<ShapeView> {
    shapes.map_values(|s: SketchShape| s@)
}

/// The first entity below `n` with the given id.
pub open spec fn shape_below(shapes: Seq<ShapeView>, id: Seq<char>, n: int) -> Option<ShapeKindView>
    decreases n,
{
    if n <= 0 {
        None
    } else {
        match shape_below(shapes, id, n - 1) {
            Some(k) => Some(k),
            None => if shapes[n - 1].id == id {
                Some(shapes[n - 1].kind)
            } else {
                None
            },
        }
    }
}

/// The entity with the given id (the first, should several share it).
pub open spec fn shape_of(shapes: Seq<ShapeView>, id: Seq<char>) -> Option<ShapeKindView> {
    shape_below(shapes, id, shapes.len() as int)
}

/// The end points of the last line below `n` with the given id.
pub open spec fn line_below(shapes: Seq<ShapeView>, id: Seq<char>, n: int) -> Option<(Seq<char>, Seq<char>)>
    decreases n,
{
    if n <= 0 {
        None
    } else if shapes[n - 1].id == id && shapes[n - 1].kind is Line {
        Some((shapes[n - 1].kind->start, shapes[n - 1].kind->end))
    } else {
        line_below(shapes, id, n - 1)
    }
}

/// The end points of the line with the given id (the last, should several
/// lines share it: a later line replaces an earlier one in the line index).
pub open spec fn line_of(shapes: Seq<ShapeView>, id: Seq<char>) -> Option<(Seq<char>, Seq<char>)> {
    line_below(shapes, id, shapes.len() as int)
}

/// The center of the first circle or arc below `n` with the given id.
pub open spec fn curve_below(shapes: Seq<ShapeView>, id: Seq<char>, n: int) -> Option<Seq<char>>
    decreases n,
{
    if n <= 0 {
        None
    } else {
        match curve_below(shapes, id, n - 1) {
            Some(c) => Some(c),
            None => if shapes[n - 1].id == id {
                match shapes[n - 1].kind {
                    ShapeKindView::Circle { center } => Some(center),
                    ShapeKindView::Arc { center, .. } => Some(center),
                    _ => None,
                }
            } else {
                None
            },
        }
    }
}

/// The center of the circle or arc with the given id.
pub open spec fn curve_of(shapes: Seq<ShapeView>, id: Seq<char>) -> Option<Seq<char>> {
    curve_below(shapes, id, shapes.len() as int)
}

proof fn lemma_shape_below_settled(shapes: Seq<ShapeView>, id: Seq<char>, m: int, n: int)
    requires
        0 <= m <= n,
        shape_below(shapes, id, m) is Some,
    ensures
        shape_below(shapes, id, n) == shape_below(shapes, id, m),
    decreases n - m,
{
    if n > m {
        lemma_shape_below_settled(shapes, id, m, n - 1);
    }
}

proof fn lemma_curve_below_settled(shapes: Seq<ShapeView>, id: Seq<char>, m: int, n: int)
    requires
        0 <= m <= n,
        curve_below(shapes, id, m) is Some,
    ensures
        curve_below(shapes, id, n) == curve_below(shapes, id, m),
    decreases n - m,
{
    if n > m {
        lemma_curve_below_settled(shapes, id, m, n - 1);
    }
}

fn find_shape<'a>(shapes: &'a [SketchShape], id: &str) -> (r: Option<&'a ShapeKind>)
    ensures
        match r {
            Some(k) => shape_of(shapes_view(shapes@), id@) == Some(k@),
            None => shape_of(shapes_view(shapes@), id@) is None,
        },
{
    let ghost v = shapes_view(shapes@);
    let mut i: usize = 0;
    while i < shapes.len()
        invariant
            i <= shapes.len(),
            v == shapes_view(shapes@),
            shape_below(v, id@, i as int) is None,
        decreases shapes.len() - i,
    {
        assert(v[i as int] == shapes@[i as int]@);
        if str_eq(shapes[i].id.as_str(), id) {
            proof {
                lemma_shape_below_settled(v, id@, i + 1, v.len() as int);
            }
            return Some(&shapes[i].kind);
        }
        i = i + 1;
    }
    None
}

fn find_line<'a>(shapes: &'a [SketchShape], id: &str) -> (r: Option<(&'a String, &'a String)>)
    ensures
        match r {
            Some((s, e)) => line_of(shapes_view(shapes@), id@) == Some((s@, e@)),
            None => line_of(shapes_view(shapes@), id@) is None,
        },
{
    let ghost v = shapes_view(shapes@);
    let mut found: Option<(&'a String, &'a String)> = None;
    let mut i: usize = 0;
    while i < shapes.len()
        invariant
            i <= shapes.len(),
            v == shapes_view(shapes@),
            match found {
                Some((s, e)) => line_below(v, id@, i as int) == Some((s@, e@)),
                None => line_below(v, id@, i as int) is None,
            },
        decreases shapes.len() - i,
    {
        assert(v[i as int] == shapes@[i as int]@);
        if str_eq(shapes[i].id.as_str(), id) {
            match &shapes[i].kind {
                ShapeKind::Line { start, end } => {
                    found = Some((start, end));
                },
                _ => {},
            }
        }
        i = i + 1;
    }
    found
}

fn find_curve_center<'a>(shapes: &'a [SketchShape], id: &str) -> (r: Option<&'a String>)
    ensures
        match r {
            Some(c) => curve_of(shapes_view(shapes@), id@) == Some(c@),
            None => curve_of(shapes_view(shapes@), id@) is None,
        },
{
    let ghost v = shapes_view(shapes@);
    let mut i: usize = 0;
    while i < shapes.len()
        invariant
            i <= shapes.len(),
            v == shapes_view(shapes@),
            curve_below(v, id@, i as int) is None,
        decreases shapes.len() - i,
    {
        assert(v[i as int] == shapes@[i as int]@);
        if str_eq(shapes[i].id.as_str(), id) {
            match &shapes[i].kind {
                ShapeKind::Circle { center } => {
                    proof {
                        lemma_curve_below_settled(v, id@, i + 1, v.len() as int);
                    }
                    return Some(center);
                },
                ShapeKind::Arc { center, .. } => {
                    proof {
                        lemma_curve_below_settled(v, id@, i + 1, v.len() as int);
                    }
                    return Some(center);
                },
                _ => {},
            }
        }
        i = i + 1;
    }
    None
}

// ---------------------------------------------------------------------------
// The variables of a sketch
// ---------------------------------------------------------------------------

pub open spec fn point_names(p: Seq<char>) -> Seq<Seq<char>> {
    seq![x_name(p), y_name(p)]
}

pub open spec fn opt_point_names(p: Option<Seq<char>>) -> Seq<Seq<char>> {
    match p {
        Some(p) => point_names(p),
        None => Seq::empty(),
    }
}

/// The variables an entity brings, in order: a point's coordinates; a
/// line's end points'; a circle's center's, then its radius; an arc's
/// center's, its radius, then its end points' where it has them. A
/// rectangle brings none of its own.
pub open spec fn shape_var_names(s: ShapeView) -> Seq<Seq<char>> {
    match s.kind {
        ShapeKindView::Point => point_names(s.id),
        ShapeKindView::Line { start, end } => point_names(start) + point_names(end),
        ShapeKindView::Circle { center } => point_names(center).push(radius_name(s.id)),
        ShapeKindView::Arc { center, start_point, end_point } => point_names(center).push(
            radius_name(s.id),
        ) + opt_point_names(start_point) + opt_point_names(end_point),
        ShapeKindView::Rectangle { .. } => Seq::empty(),
    }
}

/// The variables of the entities, entity by entity.
pub open spec fn sketch_var_names(shapes: Seq<ShapeView>) -> Seq<Seq<char>>
    decreases shapes.len(),
{
    if shapes.len() == 0 {
        Seq::empty()
    } else {
        sketch_var_names(shapes.drop_last()) + shape_var_names(shapes.last())
    }
}

/// The table after registering each name in turn: a name already there
/// keeps its variable, a new one is added last.
pub open spec fn registered(table: Seq<Seq<char>>, names: Seq<Seq<char>>) -> Seq<Seq<char>>
    decreases names.len(),
{
    if names.len() == 0 {
        table
    } else {
        let before = registered(table, names.drop_last());
        if var_of(before, names.last()) is Some {
            before
        } else {
            before.push(names.last())
        }
    }
}

proof fn lemma_registered_len(table: Seq<Seq<char>>, names: Seq<Seq<char>>)
    ensures
        registered(table, names).len() <= table.len() + names.len(),
    decreases names.len(),
{
    if names.len() > 0 {
        lemma_registered_len(table, names.drop_last());
    }
}

fn push_point_names(names: &mut Vec<String>, p: &str)
    ensures
        strings_view(final(names)@) == strings_view(old(names)@) + point_names(p@),
{
    let ghost before = names@;
    names.push(var_name(p, ".x"));
    names.push(var_name(p, ".y"));
    assert(strings_view(names@) =~= strings_view(before) + point_names(p@));
}

/// The names of the variables the entities bring, in order.
pub fn sketch_variable_names(shapes: &[SketchShape]) -> (names: Vec<String>)
    ensures
        strings_view(names@) == sketch_var_names(shapes_view(shapes@)),
{
    let ghost v = shapes_view(shapes@);
    let mut names: Vec<String> = Vec::new();
    let mut i: usize = 0;
    assert(v.take(0) =~= Seq::<ShapeView>::empty());
    while i < shapes.len()
        invariant
            i <= shapes.len(),
            v == shapes_view(shapes@),
            strings_view(names@) == sketch_var_names(v.take(i as int)),
        decreases shapes.len() - i,
    {
        let ghost before = strings_view(names@);
        let s = &shapes[i];
        assert(v[i as int] == s@);
        match &s.kind {
            ShapeKind::Point => {
                push_point_names(&mut names, s.id.as_str());
            },
            ShapeKind::Line { start, end } => {
                push_point_names(&mut names, start.as_str());
                push_point_names(&mut names, end.as_str());
                assert(strings_view(names@) =~= before + (point_names(start@) + point_names(end@)));
            },
            ShapeKind::Circle { center } => {
                push_point_names(&mut names, center.as_str());
                let ghost mid = names@;
                names.push(var_name(s.id.as_str(), ".radius"));
                assert(strings_view(names@) =~= strings_view(mid).push(radius_name(s.id@)));
                assert(strings_view(names@) =~= before + point_names(center@).push(radius_name(s.id@)));
            },
            ShapeKind::Arc { center, start_point, end_point } => {
                push_point_names(&mut names, center.as_str());
                let ghost mid = names@;
                names.push(var_name(s.id.as_str(), ".radius"));
                assert(strings_view(names@) =~= strings_view(mid).push(radius_name(s.id@)));
                let ghost with_radius = strings_view(names@);
                match start_point {
                    Some(p) => push_point_names(&mut names, p.as_str()),
                    None => {},
                }
                assert(strings_view(names@) =~= with_radius + opt_point_names(opt_view(*start_point)));
                let ghost with_start = strings_view(names@);
                match end_point {
                    Some(p) => push_point_names(&mut names, p.as_str()),
                    None => {},
                }
                assert(strings_view(names@) =~= with_start + opt_point_names(opt_view(*end_point)));
                assert(strings_view(names@) =~= before + (point_names(center@).push(radius_name(s.id@))
                    + opt_point_names(opt_view(*start_point)) + opt_point_names(opt_view(*end_point))));
            },
            ShapeKind::Rectangle { .. } => {
                assert(strings_view(names@) =~= before + Seq::<Seq<char>>::empty());
            },
        }
        assert(v.take(i + 1).drop_last() =~= v.take(i as int));
        assert(v.take(i + 1).last() == v[i as int]);
        i = i + 1;
    }
    assert(v.take(i as int) =~= v);
    names
}

/// Register each name in turn.
pub fn register_all(vars: &mut VarTable, names: &[String])
    requires
        old(vars)@.len() + names@.len() < u32::MAX,
    ensures
        final(vars)@ == registered(old(vars)@, strings_view(names@)),
{
    let ghost start = vars@;
    let ghost all = strings_view(names@);
    let mut j: usize = 0;
    assert(all.take(0) =~= Seq::<Seq<char>>::empty());
    while j < names.len()
        invariant
            j <= names.len(),
            all == strings_view(names@),
            start.len() + names@.len() < u32::MAX,
            vars@ == registered(start, all.take(j as int)),
        decreases names.len() - j,
    {
        proof {
            lemma_registered_len(start, all.take(j as int));
        }
        vars.register(names[j].as_str());
        assert(all.take(j + 1).drop_last() =~= all.take(j as int));
        assert(all.take(j + 1).last() == names@[j as int]@);
        j = j + 1;
    }
    assert(all.take(j as int) =~= all);
}

/// The solver variables of a sketch: each entity's, registered in entity
/// order, a shared point's variables once.
pub fn sketch_variables(shapes: &[SketchShape]) -> (vars: VarTable)
    requires
        sketch_var_names(shapes_view(shapes@)).len() < u32::MAX,
    ensures
        vars@ == registered(Seq::empty(), sketch_var_names(shapes_view(shapes@))),
{
    let names = sketch_variable_names(shapes);
    let mut vars = VarTable::new();
    register_all(&mut vars, names.as_slice());
    vars
}

// ---------------------------------------------------------------------------
// Looking up a constraint's variables
// ---------------------------------------------------------------------------

pub open spec fn not_found(message: Seq<char>) -> Fault {
    fault(ErrorKind::NotFound, message)
}

pub open spec fn invalid(message: Seq<char>) -> Fault {
    fault(ErrorKind::Validation, message)
}

/// The coordinates of a point.
pub open spec fn point_vars(vars: Seq<Seq<char>>, p: Seq<char>) -> Result<(VarId, VarId), Fault> {
    match var_of(vars, x_name(p)) {
        None => Err(not_found("point x '"@ + p + "'"@)),
        Some(x) => match var_of(vars, y_name(p)) {
            None => Err(not_found("point y '"@ + p + "'"@)),
            Some(y) => Ok((x, y)),
        },
    }
}

/// The coordinates of a line's start point, then of its end point.
pub open spec fn line_vars(vars: Seq<Seq<char>>, shapes: Seq<ShapeView>, l: Seq<char>) -> Result<
    (VarId, VarId, VarId, VarId),
    Fault,
> {
    match line_of(shapes, l) {
        None => Err(not_found("line '"@ + l + "'"@)),
        Some((s, e)) => match point_vars(vars, s) {
            Err(f) => Err(f),
            Ok((x1, y1)) => match point_vars(vars, e) {
                Err(f) => Err(f),
                Ok((x2, y2)) => Ok((x1, y1, x2, y2)),
            },
        },
    }
}

/// The coordinates of a referenced point: a point entity, or one end of a
/// line.
pub open spec fn ref_vars(vars: Seq<Seq<char>>, shapes: Seq<ShapeView>, r: EntityRef) -> Result<
    (VarId, VarId),
    Fault,
> {
    match r {
        EntityRef::Entity(id) => point_vars(vars, id@),
        EntityRef::PointOnLine { line, end } => match line_of(shapes, line@) {
            None => Err(not_found("line '"@ + line@ + "'"@)),
            Some((s, e)) => point_vars(
                vars,
                match end {
                    LineEnd::Start => s,
                    LineEnd::End => e,
                },
            ),
        },
    }
}

/// The radius variable of a circle or arc.
pub open spec fn radius_var(vars: Seq<Seq<char>>, id: Seq<char>) -> Result<VarId, Fault> {
    match var_of(vars, radius_name(id)) {
        None => Err(not_found("radius for '"@ + id + "'"@)),
        Some(r) => Ok(r),
    }
}

/// The first fault below `n` recorded for a line's direction.
pub open spec fn direction_below(dirs: Seq<(String, CadError)>, l: Seq<char>, n: int) -> Option<Fault>
    decreases n,
{
    if n <= 0 {
        None
    } else {
        match direction_below(dirs, l, n - 1) {
            Some(f) => Some(f),
            None => if dirs[n - 1].0@ == l {
                Some(fault_of(dirs[n - 1].1))
            } else {
                None
            },
        }
    }
}

/// A line's direction is usable unless a fault is recorded for it.
pub open spec fn direction_check(dirs: Seq<(String, CadError)>, l: Seq<char>) -> Result<(), Fault> {
    match direction_below(dirs, l, dirs.len() as int) {
        Some(f) => Err(f),
        None => Ok(()),
    }
}

/// The length an equality target stands for: a line's length, or a
/// circle's or arc's radius, checked against the entity it names.
pub open spec fn equal_term(vars: Seq<Seq<char>>, shapes: Seq<ShapeView>, t: EqualTarget) -> Result<
    LengthTerm,
    Fault,
> {
    match t {
        EqualTarget::LineLength(id) => match shape_of(shapes, id@) {
            None => Err(not_found("equal line-length target '"@ + id@ + "'"@)),
            Some(k) => if !(k is Line) {
                Err(invalid("equal line-length target '"@ + id@ + "' must reference a line"@))
            } else {
                match line_vars(vars, shapes, id@) {
                    Err(f) => Err(f),
                    Ok((x1, y1, x2, y2)) => Ok(LengthTerm::Segment { x1, y1, x2, y2 }),
                }
            },
        },
        EqualTarget::Radius(id) => match shape_of(shapes, id@) {
            None => Err(not_found("equal radius target '"@ + id@ + "'"@)),
            Some(k) => if !(k is Circle || k is Arc) {
                Err(
                    invalid(
                        "equal radius target '"@ + id@ + "' must reference a circle or arc"@,
                    ),
                )
            } else {
                match var_of(vars, radius_name(id@)) {
                    None => Err(not_found("radius variable for equal target '"@ + id@ + "'"@)),
                    Some(r) => Ok(LengthTerm::Scalar { value: r }),
                }
            },
        },
    }
}

fn point_xy(vars: &VarTable, p: &str) -> (r: Result<(VarId, VarId), CadError>)
    ensures
        result_view(r) == point_vars(vars@, p@),
{
    let x = match vars.get(var_name(p, ".x").as_str()) {
        Some(x) => x,
        None => return Err(CadError::NotFound(quoted("point x '", p))),
    };
    let y = match vars.get(var_name(p, ".y").as_str()) {
        Some(y) => y,
        None => return Err(CadError::NotFound(quoted("point y '", p))),
    };
    Ok((x, y))
}

fn line_endpoints(vars: &VarTable, shapes: &[SketchShape], l: &str) -> (r: Result<
    (VarId, VarId, VarId, VarId),
    CadError,
>)
    ensures
        result_view(r) == line_vars(vars@, shapes_view(shapes@), l@),
{
    let (s, e) = match find_line(shapes, l) {
        Some(ends) => ends,
        None => return Err(CadError::NotFound(quoted("line '", l))),
    };
    let (x1, y1) = match point_xy(vars, s.as_str()) {
        Ok(p) => p,
        Err(err) => return Err(err),
    };
    let (x2, y2) = match point_xy(vars, e.as_str()) {
        Ok(p) => p,
        Err(err) => return Err(err),
    };
    Ok((x1, y1, x2, y2))
}

fn entity_ref_xy(vars: &VarTable, shapes: &[SketchShape], r: &EntityRef) -> (res: Result<
    (VarId, VarId),
    CadError,
>)
    ensures
        result_view(res) == ref_vars(vars@, shapes_view(shapes@), *r),
{
    match r {
        EntityRef::Entity(id) => point_xy(vars, id.as_str()),
        EntityRef::PointOnLine { line, end } => {
            let (s, e) = match find_line(shapes, line.as_str()) {
                Some(ends) => ends,
                None => return Err(CadError::NotFound(quoted("line '", line.as_str()))),
            };
            match end {
                LineEnd::Start => point_xy(vars, s.as_str()),
                LineEnd::End => point_xy(vars, e.as_str()),
            }
        },
    }
}

fn radius_of(vars: &VarTable, id: &str) -> (r: Result<VarId, CadError>)
    ensures
        result_view(r) == radius_var(vars@, id@),
{
    match vars.get(var_name(id, ".radius").as_str()) {
        Some(r) => Ok(r),
        None => Err(CadError::NotFound(quoted("radius for '", id))),
    }
}

fn validate_direction_line(dirs: &[(String, CadError)], l: &str) -> (r: Result<(), CadError>)
    ensures
        result_view(r) == direction_check(dirs@, l@),
{
    let mut i: usize = 0;
    while i < dirs.len()
        invariant
            i <= dirs.len(),
            direction_below(dirs@, l@, i as int) is None,
        decreases dirs.len() - i,
    {
        if str_eq(dirs[i].0.as_str(), l) {
            proof {
                lemma_direction_below_settled(dirs@, l@, i + 1, dirs@.len() as int);
            }
            return Err(copy_error(&dirs[i].1));
        }
        i = i + 1;
    }
    Ok(())
}

proof fn lemma_direction_below_settled(dirs: Seq<(String, CadError)>, l: Seq<char>, m: int, n: int)
    requires
        0 <= m <= n,
        direction_below(dirs, l, m) is Some,
    ensures
        direction_below(dirs, l, n) == direction_below(dirs, l, m),
    decreases n - m,
{
    if n > m {
        lemma_direction_below_settled(dirs, l, m, n - 1);
    }
}

fn equal_target_length(vars: &VarTable, shapes: &[SketchShape], t: &EqualTarget) -> (r: Result<
    LengthTerm,
    CadError,
>)
    ensures
        result_view(r) == equal_term(vars@, shapes_view(shapes@), *t),
{
    match t {
        EqualTarget::LineLength(id) => {
            let kind = match find_shape(shapes, id.as_str()) {
                Some(k) => k,
                None => return Err(
                    CadError::NotFound(quoted("equal line-length target '", id.as_str())),
                ),
            };
            match kind {
                ShapeKind::Line { .. } => {},
                _ => {
                    let mut m = "equal line-length target '".to_owned();
                    m.append(id.as_str());
                    m.append("' must reference a line");
                    return Err(CadError::Validation(m));
                },
            }
            match line_endpoints(vars, shapes, id.as_str()) {
                Ok((x1, y1, x2, y2)) => Ok(LengthTerm::Segment { x1, y1, x2, y2 }),
                Err(e) => Err(e),
            }
        },
        EqualTarget::Radius(id) => {
            let kind = match find_shape(shapes, id.as_str()) {
                Some(k) => k,
                None => return Err(CadError::NotFound(quoted("equal radius target '", id.as_str()))),
            };
            match kind {
                ShapeKind::Circle { .. } => {},
                ShapeKind::Arc { .. } => {},
                _ => {
                    let mut m = "equal radius target '".to_owned();
                    m.append(id.as_str());
                    m.append("' must reference a circle or arc");
                    return Err(CadError::Validation(m));
                },
            }
            match vars.get(var_name(id.as_str(), ".radius").as_str()) {
                Some(r) => Ok(LengthTerm::Scalar { value: r }),
                None => Err(
                    CadError::NotFound(quoted("radius variable for equal target '", id.as_str())),
                ),
            }
        },
    }
}

// ---------------------------------------------------------------------------
// The equations of a constraint
// ---------------------------------------------------------------------------

/// Two lines, each usable as a direction, and their coordinates.
pub open spec fn two_directions(
    vars: Seq<Seq<char>>,
    shapes: Seq<ShapeView>,
    dirs: Seq<(String, CadError)>,
    a: Seq<char>,
    b: Seq<char>,
) -> Result<((VarId, VarId, VarId, VarId), (VarId, VarId, VarId, VarId)), Fault> {
    match line_vars(vars, shapes, a) {
        Err(f) => Err(f),
        Ok(la) => match line_vars(vars, shapes, b) {
            Err(f) => Err(f),
            Ok(lb) => match direction_check(dirs, a) {
                Err(f) => Err(f),
                Ok(_) => match direction_check(dirs, b) {
                    Err(f) => Err(f),
                    Ok(_) => Ok((la, lb)),
                },
            },
        },
    }
}

/// A single distance equation between two points, once the target is read.
pub open spec fn distance_between(
    p: Result<(VarId, VarId), Fault>,
    q: Result<(VarId, VarId), Fault>,
    target: Result<u64, CadError>,
) -> Result<Seq<ConstraintResidual>, Fault> {
    match p {
        Err(f) => Err(f),
        Ok((x1, y1)) => match q {
            Err(f) => Err(f),
            Ok((x2, y2)) => match result_view(target) {
                Err(f) => Err(f),
                Ok(bits) => Ok(
                    seq![ConstraintResidual::Distance { x1, y1, x2, y2, target_bits: bits }],
                ),
            },
        },
    }
}

/// The corner a rectangle dimension measures to from corner 0.
pub open spec fn far_corner(edge: RectangleEdge) -> int {
    match edge {
        RectangleEdge::Width => 1,
        RectangleEdge::Height => 3,
    }
}

/// A rectangle dimension on a rectangle with that corner: the entity is
/// found first, the target read only for a rectangle, then the corners'
/// coordinates; a dimension on another kind of entity adds nothing.
pub open spec fn rectangle_distance(
    vars: Seq<Seq<char>>,
    shapes: Seq<ShapeView>,
    rectangle: Seq<char>,
    edge: RectangleEdge,
    target: Result<u64, CadError>,
) -> Result<Seq<ConstraintResidual>, Fault> {
    match shape_of(shapes, rectangle) {
        None => Err(not_found("rectangle '"@ + rectangle + "'"@)),
        Some(ShapeKindView::Rectangle { corners }) => match result_view(target) {
            Err(f) => Err(f),
            Ok(_) => distance_between(
                point_vars(vars, corners[0]),
                point_vars(vars, corners[far_corner(edge)]),
                target,
            ),
        },
        Some(_) => Ok(Seq::empty()),
    }
}

/// The residual equations a constraint contributes, in order, or the error
/// it is refused with. `target` is the constraint's expression read as a
/// length (a diameter's already halved) or, for an angle, in radians;
/// `dirs` records the lines whose direction cannot be normalized.
#[verifier::opaque]
pub open spec fn constraint_equations(
    c: Constraint,
    vars: Seq<Seq<char>>,
    shapes: Seq<ShapeView>,
    target: Result<u64, CadError>,
    dirs: Seq<(String, CadError)>,
) -> Result<Seq<ConstraintResidual>, Fault> {
    match c {
        Constraint::Coincident { a, b, .. } => match ref_vars(vars, shapes, a) {
            Err(f) => Err(f),
            Ok((ax, ay)) => match ref_vars(vars, shapes, b) {
                Err(f) => Err(f),
                Ok((bx, by)) => Ok(
                    seq![
                        ConstraintResidual::CoincidentX { a: ax, b: bx },
                        ConstraintResidual::CoincidentY { a: ay, b: by },
                    ],
                ),
            },
        },
        Constraint::Horizontal { line, .. } => match line_vars(vars, shapes, line@) {
            Err(f) => Err(f),
            Ok((x1, y1, x2, y2)) => Ok(seq![ConstraintResidual::Horizontal { x1, y1, x2, y2 }]),
        },
        Constraint::Vertical { line, .. } => match line_vars(vars, shapes, line@) {
            Err(f) => Err(f),
            Ok((x1, y1, x2, y2)) => Ok(seq![ConstraintResidual::Vertical { x1, y1, x2, y2 }]),
        },
        Constraint::Distance { target: t, .. } => match t {
            DistanceTarget::PointToPoint { a, b } => distance_between(
                point_vars(vars, a@),
                point_vars(vars, b@),
                target,
            ),
            DistanceTarget::LineLength { line } => match line_vars(vars, shapes, line@) {
                Err(f) => Err(f),
                Ok((x1, y1, x2, y2)) => distance_between(Ok((x1, y1)), Ok((x2, y2)), target),
            },
            DistanceTarget::RectangleDimension { rectangle, edge } => rectangle_distance(
                vars,
                shapes,
                rectangle@,
                edge,
                target,
            ),
        },
        Constraint::Radius { target: t, .. } => match radius_var(vars, t@) {
            Err(f) => Err(f),
            Ok(radius) => match result_view(target) {
                Err(f) => Err(f),
                Ok(bits) => Ok(seq![ConstraintResidual::Radius { radius, target_bits: bits }]),
            },
        },
        Constraint::Diameter { target: t, .. } => match radius_var(vars, t@) {
            Err(f) => Err(f),
            Ok(radius) => match result_view(target) {
                Err(f) => Err(f),
                Ok(bits) => Ok(seq![ConstraintResidual::Radius { radius, target_bits: bits }]),
            },
        },
        Constraint::Equal { a, b, .. } => match equal_term(vars, shapes, a) {
            Err(f) => Err(f),
            Ok(ta) => match equal_term(vars, shapes, b) {
                Err(f) => Err(f),
                Ok(tb) => Ok(seq![ConstraintResidual::EqualLength { a: ta, b: tb }]),
            },
        },
        Constraint::Parallel { line_a, line_b, .. } => match two_directions(
            vars,
            shapes,
            dirs,
            line_a@,
            line_b@,
        ) {
            Err(f) => Err(f),
            Ok((a, b)) => Ok(
                seq![
                    ConstraintResidual::Parallel {
                        ax1: a.0,
                        ay1: a.1,
                        ax2: a.2,
                        ay2: a.3,
                        bx1: b.0,
                        by1: b.1,
                        bx2: b.2,
                        by2: b.3,
                    },
                ],
            ),
        },
        Constraint::Perpendicular { line_a, line_b, .. } => match two_directions(
            vars,
            shapes,
            dirs,
            line_a@,
            line_b@,
        ) {
            Err(f) => Err(f),
            Ok((a, b)) => Ok(
                seq![
                    ConstraintResidual::Perpendicular {
                        ax1: a.0,
                        ay1: a.1,
                        ax2: a.2,
                        ay2: a.3,
                        bx1: b.0,
                        by1: b.1,
                        bx2: b.2,
                        by2: b.3,
                    },
                ],
            ),
        },
        Constraint::Angle { line_a, line_b, .. } => match two_directions(
            vars,
            shapes,
            dirs,
            line_a@,
            line_b@,
        ) {
            Err(f) => Err(f),
            Ok((a, b)) => match result_view(target) {
                Err(f) => Err(f),
                Ok(bits) => Ok(
                    seq![
                        ConstraintResidual::Angle {
                            ax1: a.0,
                            ay1: a.1,
                            ax2: a.2,
                            ay2: a.3,
                            bx1: b.0,
                            by1: b.1,
                            bx2: b.2,
                            by2: b.3,
                            target_rad_bits: bits,
                        },
                    ],
                ),
            },
        },
        Constraint::Midpoint { point, line, .. } => match point_vars(vars, point@) {
            Err(f) => Err(f),
            Ok((px, py)) => match line_vars(vars, shapes, line@) {
                Err(f) => Err(f),
                Ok((x1, y1, x2, y2)) => Ok(
                    seq![
                        ConstraintResidual::Midpoint { point: px, a: x1, b: x2 },
                        ConstraintResidual::Midpoint { point: py, a: y1, b: y2 },
                    ],
                ),
            },
        },
        Constraint::Symmetric { a, b, line, .. } => match point_vars(vars, a@) {
            Err(f) => Err(f),
            Ok((px, py)) => match point_vars(vars, b@) {
                Err(f) => Err(f),
                Ok((qx, qy)) => match line_vars(vars, shapes, line@) {
                    Err(f) => Err(f),
                    Ok((lx1, ly1, lx2, ly2)) => match direction_check(dirs, line@) {
                        Err(f) => Err(f),
                        Ok(_) => Ok(
                            seq![
                                ConstraintResidual::SymmetricMidpointOnLine {
                                    px,
                                    py,
                                    qx,
                                    qy,
                                    lx1,
                                    ly1,
                                    lx2,
                                    ly2,
                                },
                                ConstraintResidual::SymmetricPerpendicular {
                                    px,
                                    py,
                                    qx,
                                    qy,
                                    lx1,
                                    ly1,
                                    lx2,
                                    ly2,
                                },
                            ],
                        ),
                    },
                },
            },
        },
        Constraint::Tangent { line, curve, .. } => match line_vars(vars, shapes, line@) {
            Err(f) => Err(f),
            Ok((lx1, ly1, lx2, ly2)) => match direction_check(dirs, line@) {
                Err(f) => Err(f),
                Ok(_) => match curve_of(shapes, curve@) {
                    None => Err(
                        invalid("tangent target '"@ + curve@ + "' must be a circle or arc"@),
                    ),
                    Some(center) => match point_vars(vars, center) {
                        Err(f) => Err(f),
                        Ok((cx, cy)) => match radius_var(vars, curve@) {
                            Err(f) => Err(f),
                            Ok(radius) => Ok(
                                seq![
                                    ConstraintResidual::TangentLineCircle {
                                        cx,
                                        cy,
                                        radius,
                                        lx1,
                                        ly1,
                                        lx2,
                                        ly2,
                                    },
                                ],
                            ),
                        },
                    },
                },
            },
        },
    }
}

/// A rectangle dimension, once its target reads, names no rectangle that
/// lacks the corner it measures to.
pub open spec fn corners_present(c: Constraint, shapes: Seq<ShapeView>, target: Result<u64, CadError>) -> bool {
    match c {
        Constraint::Distance { target: DistanceTarget::RectangleDimension { rectangle, edge }, .. } => {
            match shape_of(shapes, rectangle@) {
                Some(ShapeKindView::Rectangle { corners }) => target is Ok ==> far_corner(edge)
                    < corners.len(),
                _ => true,
            }
        },
        _ => true,
    }
}

pub open spec fn equations_view(r: Result<Vec<ConstraintResidual>, CadError>) -> Result<
    Seq<ConstraintResidual>,
    Fault,
> {
    match r {
        Ok(v) => Ok(v@),
        Err(e) => Err(fault_of(e)),
    }
}

fn two_lines(
    vars: &VarTable,
    shapes: &[SketchShape],
    dirs: &[(String, CadError)],
    a: &str,
    b: &str,
) -> (r: Result<((VarId, VarId, VarId, VarId), (VarId, VarId, VarId, VarId)), CadError>)
    ensures
        result_view(r) == two_directions(vars@, shapes_view(shapes@), dirs@, a@, b@),
{
    let la = match line_endpoints(vars, shapes, a) {
        Ok(l) => l,
        Err(e) => return Err(e),
    };
    let lb = match line_endpoints(vars, shapes, b) {
        Ok(l) => l,
        Err(e) => return Err(e),
    };
    match validate_direction_line(dirs, a) {
        Ok(_) => {},
        Err(e) => return Err(e),
    }
    match validate_direction_line(dirs, b) {
        Ok(_) => {},
        Err(e) => return Err(e),
    }
    Ok((la, lb))
}

fn distance_equation(
    p: Result<(VarId, VarId), CadError>,
    q: Result<(VarId, VarId), CadError>,
    target: &Result<u64, CadError>,
) -> (r: Result<Vec<ConstraintResidual>, CadError>)
    ensures
        equations_view(r) == distance_between(result_view(p), result_view(q), *target),
{
    let (x1, y1) = match p {
        Ok(p) => p,
        Err(e) => return Err(e),
    };
    let (x2, y2) = match q {
        Ok(q) => q,
        Err(e) => return Err(e),
    };
    match target {
        Ok(bits) => {
            let v = vec![ConstraintResidual::Distance { x1, y1, x2, y2, target_bits: *bits }];
            assert(v@ =~= seq![ConstraintResidual::Distance { x1, y1, x2, y2, target_bits: *bits }]);
            Ok(v)
        },
        Err(e) => Err(copy_error(e)),
    }
}

fn rectangle_equation(
    vars: &VarTable,
    shapes: &[SketchShape],
    rectangle: &str,
    edge: RectangleEdge,
    target: &Result<u64, CadError>,
) -> (r: Result<Vec<ConstraintResidual>, CadError>)
    requires
        match shape_of(shapes_view(shapes@), rectangle@) {
            Some(ShapeKindView::Rectangle { corners }) => target is Ok ==> far_corner(edge)
                < corners.len(),
            _ => true,
        },
    ensures
        equations_view(r) == rectangle_distance(vars@, shapes_view(shapes@), rectangle@, edge, *target),
{
    let kind = match find_shape(shapes, rectangle) {
        Some(k) => k,
        None => return Err(CadError::NotFound(quoted("rectangle '", rectangle))),
    };
    match kind {
        ShapeKind::Rectangle { corners } => {
            match target {
                Ok(_) => {},
                Err(e) => return Err(copy_error(e)),
            }
            let far: usize = match edge {
                RectangleEdge::Width => 1,
                RectangleEdge::Height => 3,
            };
            assert(strings_view(corners@)[0] == corners@[0]@);
            assert(strings_view(corners@)[far as int] == corners@[far as int]@);
            distance_equation(
                point_xy(vars, corners[0].as_str()),
                point_xy(vars, corners[far].as_str()),
                target,
            )
        },
        _ => {
            let v: Vec<ConstraintResidual> = Vec::new();
            assert(v@ =~= Seq::<ConstraintResidual>::empty());
            Ok(v)
        },
    }
}

/// The residual equations one sketch constraint adds to the solver's
/// problem, in the order they are pushed, or the error the constraint is
/// refused with. `target` is the constraint's expression as the residual
/// takes it (a length in SI units, a diameter's already halved; an angle in
/// radians), read only where the constraint has one; `directions` holds the
/// error recorded for each line whose initial direction cannot be
/// normalized.
pub fn build_constraint(
    c: &Constraint,
    vars: &VarTable,
    shapes: &[SketchShape],
    target: &Result<u64, CadError>,
    directions: &[(String, CadError)],
) -> (r: Result<Vec<ConstraintResidual>, CadError>)
    requires
        corners_present(*c, shapes_view(shapes@), *target),
    ensures
        equations_view(r) == constraint_equations(
            *c,
            vars@,
            shapes_view(shapes@),
            *target,
            directions@,
        ),
{
    proof {
        reveal(constraint_equations);
    }
    match c {
        Constraint::Coincident { a, b, .. } => {
            let (ax, ay) = match entity_ref_xy(vars, shapes, a) {
                Ok(p) => p,
                Err(e) => return Err(e),
            };
            let (bx, by) = match entity_ref_xy(vars, shapes, b) {
                Ok(p) => p,
                Err(e) => return Err(e),
            };
            let pair = ConstraintResidual::coincident(ax, ay, bx, by);
            let v = vec![pair[0], pair[1]];
            assert(v@ =~= seq![
                ConstraintResidual::CoincidentX { a: ax, b: bx },
                ConstraintResidual::CoincidentY { a: ay, b: by },
            ]);
            Ok(v)
        },
        Constraint::Horizontal { line, .. } => {
            let (x1, y1, x2, y2) = match line_endpoints(vars, shapes, line.as_str()) {
                Ok(l) => l,
                Err(e) => return Err(e),
            };
            let v = vec![ConstraintResidual::Horizontal { x1, y1, x2, y2 }];
            assert(v@ =~= seq![ConstraintResidual::Horizontal { x1, y1, x2, y2 }]);
            Ok(v)
        },
        Constraint::Vertical { line, .. } => {
            let (x1, y1, x2, y2) = match line_endpoints(vars, shapes, line.as_str()) {
                Ok(l) => l,
                Err(e) => return Err(e),
            };
            let v = vec![ConstraintResidual::Vertical { x1, y1, x2, y2 }];
            assert(v@ =~= seq![ConstraintResidual::Vertical { x1, y1, x2, y2 }]);
            Ok(v)
        },
        Constraint::Distance { target: t, .. } => match t {
            DistanceTarget::PointToPoint { a, b } => {
                let p = match point_xy(vars, a.as_str()) {
                    Ok(p) => p,
                    Err(e) => return Err(e),
                };
                let q = match point_xy(vars, b.as_str()) {
                    Ok(q) => q,
                    Err(e) => return Err(e),
                };
                distance_equation(Ok(p), Ok(q), target)
            },
            DistanceTarget::LineLength { line } => {
                let (x1, y1, x2, y2) = match line_endpoints(vars, shapes, line.as_str()) {
                    Ok(l) => l,
                    Err(e) => return Err(e),
                };
                distance_equation(Ok((x1, y1)), Ok((x2, y2)), target)
            },
            DistanceTarget::RectangleDimension { rectangle, edge } => {
                rectangle_equation(vars, shapes, rectangle.as_str(), *edge, target)
            },
        },
        Constraint::Radius { target: t, .. } | Constraint::Diameter { target: t, .. } => {
            let radius = match radius_of(vars, t.as_str()) {
                Ok(r) => r,
                Err(e) => return Err(e),
            };
            match target {
                Ok(bits) => {
                    let v = vec![ConstraintResidual::Radius { radius, target_bits: *bits }];
                    assert(v@ =~= seq![ConstraintResidual::Radius { radius, target_bits: *bits }]);
                    Ok(v)
                },
                Err(e) => Err(copy_error(e)),
            }
        },
        Constraint::Equal { a, b, .. } => {
            let ta = match equal_target_length(vars, shapes, a) {
                Ok(t) => t,
                Err(e) => return Err(e),
            };
            let tb = match equal_target_length(vars, shapes, b) {
                Ok(t) => t,
                Err(e) => return Err(e),
            };
            let v = vec![ConstraintResidual::EqualLength { a: ta, b: tb }];
            assert(v@ =~= seq![ConstraintResidual::EqualLength { a: ta, b: tb }]);
            Ok(v)
        },
        Constraint::Parallel { line_a, line_b, .. } => {
            let (a, b) = match two_lines(vars, shapes, directions, line_a.as_str(), line_b.as_str()) {
                Ok(ab) => ab,
                Err(e) => return Err(e),
            };
            let eq = ConstraintResidual::Parallel {
                ax1: a.0,
                ay1: a.1,
                ax2: a.2,
                ay2: a.3,
                bx1: b.0,
                by1: b.1,
                bx2: b.2,
                by2: b.3,
            };
            let v = vec![eq];
            assert(v@ =~= seq![eq]);
            Ok(v)
        },
        Constraint::Perpendicular { line_a, line_b, .. } => {
            let (a, b) = match two_lines(vars, shapes, directions, line_a.as_str(), line_b.as_str()) {
                Ok(ab) => ab,
                Err(e) => return Err(e),
            };
            let eq = ConstraintResidual::Perpendicular {
                ax1: a.0,
                ay1: a.1,
                ax2: a.2,
                ay2: a.3,
                bx1: b.0,
                by1: b.1,
                bx2: b.2,
                by2: b.3,
            };
            let v = vec![eq];
            assert(v@ =~= seq![eq]);
            Ok(v)
        },
        Constraint::Angle { line_a, line_b, .. } => {
            let (a, b) = match two_lines(vars, shapes, directions, line_a.as_str(), line_b.as_str()) {
                Ok(ab) => ab,
                Err(e) => return Err(e),
            };
            let bits = match target {
                Ok(bits) => *bits,
                Err(e) => return Err(copy_error(e)),
            };
            let eq = ConstraintResidual::Angle {
                ax1: a.0,
                ay1: a.1,
                ax2: a.2,
                ay2: a.3,
                bx1: b.0,
                by1: b.1,
                bx2: b.2,
                by2: b.3,
                target_rad_bits: bits,
            };
            let v = vec![eq];
            assert(v@ =~= seq![eq]);
            Ok(v)
        },
        Constraint::Midpoint { point, line, .. } => {
            let (px, py) = match point_xy(vars, point.as_str()) {
                Ok(p) => p,
                Err(e) => return Err(e),
            };
            let ends = match line_endpoints(vars, shapes, line.as_str()) {
                Ok(l) => l,
                Err(e) => return Err(e),
            };
            let pair = ConstraintResidual::midpoint(px, py, ends);
            let v = vec![pair[0], pair[1]];
            assert(v@ =~= seq![
                ConstraintResidual::Midpoint { point: px, a: ends.0, b: ends.2 },
                ConstraintResidual::Midpoint { point: py, a: ends.1, b: ends.3 },
            ]);
            Ok(v)
        },
        Constraint::Symmetric { a, b, line, .. } => {
            let (px, py) = match point_xy(vars, a.as_str()) {
                Ok(p) => p,
                Err(e) => return Err(e),
            };
            let (qx, qy) = match point_xy(vars, b.as_str()) {
                Ok(p) => p,
                Err(e) => return Err(e),
            };
            let (lx1, ly1, lx2, ly2) = match line_endpoints(vars, shapes, line.as_str()) {
                Ok(l) => l,
                Err(e) => return Err(e),
            };
            match validate_direction_line(directions, line.as_str()) {
                Ok(_) => {},
                Err(e) => return Err(e),
            }
            let on_line = ConstraintResidual::SymmetricMidpointOnLine { px, py, qx, qy, lx1, ly1, lx2, ly2 };
            let across = ConstraintResidual::SymmetricPerpendicular { px, py, qx, qy, lx1, ly1, lx2, ly2 };
            let v = vec![on_line, across];
            assert(v@ =~= seq![on_line, across]);
            Ok(v)
        },
        Constraint::Tangent { line, curve, .. } => {
            let (lx1, ly1, lx2, ly2) = match line_endpoints(vars, shapes, line.as_str()) {
                Ok(l) => l,
                Err(e) => return Err(e),
            };
            match validate_direction_line(directions, line.as_str()) {
                Ok(_) => {},
                Err(e) => return Err(e),
            }
            let center = match find_curve_center(shapes, curve.as_str()) {
                Some(c) => c,
                None => {
                    let mut m = "tangent target '".to_owned();
                    m.append(curve.as_str());
                    m.append("' must be a circle or arc");
                    return Err(CadError::Validation(m));
                },
            };
            let (cx, cy) = match point_xy(vars, center.as_str()) {
                Ok(p) => p,
                Err(e) => return Err(e),
            };
            let radius = match radius_of(vars, curve.as_str()) {
                Ok(r) => r,
                Err(e) => return Err(e),
            };
            let eq = ConstraintResidual::TangentLineCircle { cx, cy, radius, lx1, ly1, lx2, ly2 };
            let v = vec![eq];
            assert(v@ =~= seq![eq]);
            Ok(v)
        },
    }
}

/// The equations of the first `n` constraints, in order, or the error of the
/// first constraint refused.
pub open spec fn equations_below(
    cs: Seq<Constraint>,
    vars: Seq<Seq<char>>,
    shapes: Seq<ShapeView>,
    targets: Seq<Result<u64, CadError>>,
    dirs: Seq<(String, CadError)>,
    n: int,
) -> Result<Seq<ConstraintResidual>, Fault>
    decreases n,
{
    if n <= 0 {
        Ok(Seq::empty())
    } else {
        match equations_below(cs, vars, shapes, targets, dirs, n - 1) {
            Err(f) => Err(f),
            Ok(before) => match constraint_equations(cs[n - 1], vars, shapes, targets[n - 1], dirs) {
                Err(f) => Err(f),
                Ok(more) => Ok(before + more),
            },
        }
    }
}

/// The equations of all the constraints of a sketch, constraint by
/// constraint; `targets[k]` is constraint `k`'s expression read as
/// [`build_constraint`] takes it.
pub fn build_equations(
    constraints: &[Constraint],
    vars: &VarTable,
    shapes: &[SketchShape],
    targets: &[Result<u64, CadError>],
    directions: &[(String, CadError)],
) -> (r: Result<Vec<ConstraintResidual>, CadError>)
    requires
        targets@.len() == constraints@.len(),
        forall|k: int|
            0 <= k < constraints@.len() && equations_below(
                constraints@,
                vars@,
                shapes_view(shapes@),
                targets@,
                directions@,
                k,
            ) is Ok ==> corners_present(
                #[trigger] constraints@[k],
                shapes_view(shapes@),
                targets@[k],
            ),
    ensures
        equations_view(r) == equations_below(
            constraints@,
            vars@,
            shapes_view(shapes@),
            targets@,
            directions@,
            constraints@.len() as int,
        ),
{
    let ghost v = shapes_view(shapes@);
    let mut equations: Vec<ConstraintResidual> = Vec::new();
    let mut k: usize = 0;
    while k < constraints.len()
        invariant
            k <= constraints.len(),
            targets@.len() == constraints@.len(),
            v == shapes_view(shapes@),
            forall|j: int|
                0 <= j < constraints@.len() && equations_below(
                    constraints@,
                    vars@,
                    v,
                    targets@,
                    directions@,
                    j,
                ) is Ok ==> corners_present(#[trigger] constraints@[j], v, targets@[j]),
            equations_below(constraints@, vars@, v, targets@, directions@, k as int) == Ok::<
                Seq<ConstraintResidual>,
                Fault,
            >(equations@),
        decreases constraints.len() - k,
    {
        assert(corners_present(constraints@[k as int], v, targets@[k as int]));
        let more = match build_constraint(&constraints[k], vars, shapes, &targets[k], directions) {
            Ok(more) => more,
            Err(e) => {
                proof {
                    lemma_equations_below_fails(constraints@, vars@, v, targets@, directions@, k + 1, constraints@.len() as int);
                }
                return Err(e);
            },
        };
        let ghost before = equations@;
        let mut i: usize = 0;
        while i < more.len()
            invariant
                i <= more.len(),
                equations@ == before + more@.take(i as int),
            decreases more.len() - i,
        {
            equations.push(more[i]);
            assert(more@.take(i + 1) =~= more@.take(i as int).push(more@[i as int]));
            i = i + 1;
        }
        assert(more@.take(i as int) =~= more@);
        k = k + 1;
    }
    Ok(equations)
}

proof fn lemma_equations_below_fails(
    cs: Seq<Constraint>,
    vars: Seq<Seq<char>>,
    shapes: Seq<ShapeView>,
    targets: Seq<Result<u64, CadError>>,
    dirs: Seq<(String, CadError)>,
    m: int,
    n: int,
)
    requires
        0 < m <= n,
        equations_below(cs, vars, shapes, targets, dirs, m) is Err,
    ensures
        equations_below(cs, vars, shapes, targets, dirs, n) == equations_below(cs, vars, shapes, targets, dirs, m),
    decreases n - m,
{
    if n > m {
        lemma_equations_below_fails(cs, vars, shapes, targets, dirs, m, n - 1);
    }
}

// ---------------------------------------------------------------------------
// Laws
// ---------------------------------------------------------------------------

proof fn lemma_var_below_contains(names: Seq<Seq<char>>, name: Seq<char>, n: int)
    requires
        0 <= n <= names.len(),
        names.len() <= u32::MAX,
    ensures
        var_below(names, name, n) is Some <==> names.take(n).contains(name),
        var_below(names, name, n) matches Some(v) ==> v.0 < n && names[v.0 as int] == name,
    decreases n,
{
    if n > 0 {
        lemma_var_below_contains(names, name, n - 1);
        let t = names.take(n);
        assert(names.take(n - 1) =~= t.drop_last());
        if t.contains(name) {
            let i = t.index_of(name);
            if i < n - 1 {
                assert(names.take(n - 1)[i] == name);
            }
        }
        if names.take(n - 1).contains(name) {
            let i = names.take(n - 1).index_of(name);
            assert(t[i] == name);
        }
        if names[n - 1] == name {
            assert(t[n - 1] == name);
        }
    }
}

proof fn lemma_var_of_contains(names: Seq<Seq<char>>, name: Seq<char>)
    requires
        names.len() <= u32::MAX,
    ensures
        var_of(names, name) is Some <==> names.contains(name),
        var_of(names, name) matches Some(v) ==> v.0 < names.len() && names[v.0 as int] == name,
{
    lemma_var_below_contains(names, name, names.len() as int);
    assert(names.take(names.len() as int) =~= names);
}

/// Registering names gives each a variable of its own: the table holds
/// every registered name, nothing else, and no name twice.
pub proof fn law_registration_names_each_variable_once(names: Seq<Seq<char>>)
    requires
        names.len() <= u32::MAX,
    ensures
        forall|i: int, j: int|
            0 <= i < j < registered(Seq::empty(), names).len() ==> #[trigger] registered(
                Seq::empty(),
                names,
            )[i] != #[trigger] registered(Seq::empty(), names)[j],
        forall|k: int| 0 <= k < names.len() ==> registered(Seq::empty(), names).contains(#[trigger] names[k]),
        forall|i: int|
            0 <= i < registered(Seq::empty(), names).len() ==> names.contains(
                #[trigger] registered(Seq::empty(), names)[i],
            ),
    decreases names.len(),
{
    if names.len() > 0 {
        let rest = names.drop_last();
        let last = names.last();
        law_registration_names_each_variable_once(rest);
        let before = registered(Seq::empty(), rest);
        lemma_registered_len(Seq::empty(), rest);
        let after = registered(Seq::empty(), names);
        lemma_var_of_contains(before, last);
        assert forall|k: int| 0 <= k < names.len() implies after.contains(#[trigger] names[k]) by {
            if k < names.len() - 1 {
                assert(rest[k] == names[k]);
                let i = before.index_of(names[k]);
                assert(after[i] == names[k]);
            } else if !before.contains(last) {
                assert(after[after.len() - 1] == last);
            }
        }
        assert forall|i: int| 0 <= i < after.len() implies names.contains(#[trigger] after[i]) by {
            if i < before.len() {
                assert(after[i] == before[i]);
                let k = rest.index_of(before[i]);
                assert(names[k] == before[i]);
            } else {
                assert(names[names.len() - 1] == after[i]);
            }
        }
        assert forall|i: int, j: int| 0 <= i < j < after.len() implies #[trigger] after[i]
            != #[trigger] after[j] by {
            if j >= before.len() {
                assert(after[j] == last);
                assert(after[i] == before[i]);
                assert(!before.contains(last));
            } else {
                assert(after[i] == before[i]);
                assert(after[j] == before[j]);
            }
        }
    }
}

/// A variable of a table of `n`.
pub open spec fn in_table(v: VarId, n: nat) -> bool {
    v.0 < n
}

pub open spec fn term_in_table(t: LengthTerm, n: nat) -> bool {
    match t {
        LengthTerm::Segment { x1, y1, x2, y2 } => in_table(x1, n) && in_table(y1, n) && in_table(x2, n)
            && in_table(y2, n),
        LengthTerm::Scalar { value } => in_table(value, n),
    }
}

/// Every variable the residual reads is one of a table of `n`.
pub open spec fn residual_in_table(e: ConstraintResidual, n: nat) -> bool {
    match e {
        ConstraintResidual::ArcEndpointX { px, cx, radius, .. } => in_table(px, n) && in_table(cx, n)
            && in_table(radius, n),
        ConstraintResidual::ArcEndpointY { py, cy, radius, .. } => in_table(py, n) && in_table(cy, n)
            && in_table(radius, n),
        ConstraintResidual::CoincidentX { a, b } => in_table(a, n) && in_table(b, n),
        ConstraintResidual::CoincidentY { a, b } => in_table(a, n) && in_table(b, n),
        ConstraintResidual::Horizontal { x1, y1, x2, y2 } => in_table(x1, n) && in_table(y1, n)
            && in_table(x2, n) && in_table(y2, n),
        ConstraintResidual::Vertical { x1, y1, x2, y2 } => in_table(x1, n) && in_table(y1, n)
            && in_table(x2, n) && in_table(y2, n),
        ConstraintResidual::Parallel { ax1, ay1, ax2, ay2, bx1, by1, bx2, by2 } => in_table(ax1, n)
            && in_table(ay1, n) && in_table(ax2, n) && in_table(ay2, n) && in_table(bx1, n)
            && in_table(by1, n) && in_table(bx2, n) && in_table(by2, n),
        ConstraintResidual::Perpendicular { ax1, ay1, ax2, ay2, bx1, by1, bx2, by2 } => in_table(
            ax1,
            n,
        ) && in_table(ay1, n) && in_table(ax2, n) && in_table(ay2, n) && in_table(bx1, n)
            && in_table(by1, n) && in_table(bx2, n) && in_table(by2, n),
        ConstraintResidual::Distance { x1, y1, x2, y2, .. } => in_table(x1, n) && in_table(y1, n)
            && in_table(x2, n) && in_table(y2, n),
        ConstraintResidual::Radius { radius, .. } => in_table(radius, n),
        ConstraintResidual::EqualLength { a, b } => term_in_table(a, n) && term_in_table(b, n),
        ConstraintResidual::FixedX { x, .. } => in_table(x, n),
        ConstraintResidual::FixedY { y, .. } => in_table(y, n),
        ConstraintResidual::Angle { ax1, ay1, ax2, ay2, bx1, by1, bx2, by2, .. } => in_table(ax1, n)
            && in_table(ay1, n) && in_table(ax2, n) && in_table(ay2, n) && in_table(bx1, n)
            && in_table(by1, n) && in_table(bx2, n) && in_table(by2, n),
        ConstraintResidual::Midpoint { point, a, b } => in_table(point, n) && in_table(a, n)
            && in_table(b, n),
        ConstraintResidual::SymmetricMidpointOnLine { px, py, qx, qy, lx1, ly1, lx2, ly2 } =>
            in_table(px, n) && in_table(py, n) && in_table(qx, n) && in_table(qy, n) && in_table(
            lx1,
            n,
        ) && in_table(ly1, n) && in_table(lx2, n) && in_table(ly2, n),
        ConstraintResidual::SymmetricPerpendicular { px, py, qx, qy, lx1, ly1, lx2, ly2 } =>
            in_table(px, n) && in_table(py, n) && in_table(qx, n) && in_table(qy, n) && in_table(
            lx1,
            n,
        ) && in_table(ly1, n) && in_table(lx2, n) && in_table(ly2, n),
        ConstraintResidual::TangentLineCircle { cx, cy, radius, lx1, ly1, lx2, ly2 } => in_table(
            cx,
            n,
        ) && in_table(cy, n) && in_table(radius, n) && in_table(lx1, n) && in_table(ly1, n)
            && in_table(lx2, n) && in_table(ly2, n),
    }
}

pub open spec fn found_in_table(v: Option<VarId>, n: nat) -> bool {
    v matches Some(x) ==> in_table(x, n)
}

pub open spec fn pair_in_table(r: Result<(VarId, VarId), Fault>, n: nat) -> bool {
    r matches Ok((x, y)) ==> in_table(x, n) && in_table(y, n)
}

pub open spec fn quad_in_table(r: Result<(VarId, VarId, VarId, VarId), Fault>, n: nat) -> bool {
    r matches Ok((x1, y1, x2, y2)) ==> in_table(x1, n) && in_table(y1, n) && in_table(x2, n)
        && in_table(y2, n)
}

proof fn lemma_lookups_in_table(vars: Seq<Seq<char>>, shapes: Seq<ShapeView>)
    requires
        vars.len() <= u32::MAX,
    ensures
        forall|name: Seq<char>| found_in_table(#[trigger] var_of(vars, name), vars.len()),
        forall|p: Seq<char>| pair_in_table(#[trigger] point_vars(vars, p), vars.len()),
        forall|l: Seq<char>| quad_in_table(#[trigger] line_vars(vars, shapes, l), vars.len()),
        forall|r: EntityRef| pair_in_table(#[trigger] ref_vars(vars, shapes, r), vars.len()),
        forall|t: EqualTarget|
            (#[trigger] equal_term(vars, shapes, t)) matches Ok(term) ==> term_in_table(term, vars.len()),
{
    assert forall|name: Seq<char>| found_in_table(#[trigger] var_of(vars, name), vars.len()) by {
        lemma_var_of_contains(vars, name);
    }
}

/// The equations of a constraint, if it is not refused, each read only
/// variables of a table of `n`.
pub open spec fn equations_in_table(r: Result<Seq<ConstraintResidual>, Fault>, n: nat) -> bool {
    r matches Ok(eqs) ==> forall|k: int| 0 <= k < eqs.len() ==> residual_in_table(#[trigger] eqs[k], n)
}
proof fn lemma_coincident_in_table(
    c: Constraint,
    vars: Seq<Seq<char>>,
    shapes: Seq<ShapeView>,
    target: Result<u64, CadError>,
    dirs: Seq<(String, CadError)>,
)
    requires
        vars.len() <= u32::MAX,
        c is Coincident,
    ensures
        equations_in_table(constraint_equations(c, vars, shapes, target, dirs), vars.len()),
{
    lemma_lookups_in_table(vars, shapes);
    reveal(constraint_equations);
}
proof fn lemma_horizontal_in_table(
    c: Constraint,
    vars: Seq<Seq<char>>,
    shapes: Seq<ShapeView>,
    target: Result<u64, CadError>,
    dirs: Seq<(String, CadError)>,
)
    requires
        vars.len() <= u32::MAX,
        c is Horizontal,
    ensures
        equations_in_table(constraint_equations(c, vars, shapes, target, dirs), vars.len()),
{
    lemma_lookups_in_table(vars, shapes);
    reveal(constraint_equations);
}
proof fn lemma_vertical_in_table(
    c: Constraint,
    vars: Seq<Seq<char>>,
    shapes: Seq<ShapeView>,
    target: Result<u64, CadError>,
    dirs: Seq<(String, CadError)>,
)
    requires
        vars.len() <= u32::MAX,
        c is Vertical,
    ensures
        equations_in_table(constraint_equations(c, vars, shapes, target, dirs), vars.len()),
{
    lemma_lookups_in_table(vars, shapes);
    reveal(constraint_equations);
}
proof fn lemma_distance_in_table(
    c: Constraint,
    vars: Seq<Seq<char>>,
    shapes: Seq<ShapeView>,
    target: Result<u64, CadError>,
    dirs: Seq<(String, CadError)>,
)
    requires
        vars.len() <= u32::MAX,
        c is Distance,
    ensures
        equations_in_table(constraint_equations(c, vars, shapes, target, dirs), vars.len()),
{
    lemma_lookups_in_table(vars, shapes);
    reveal(constraint_equations);
}
proof fn lemma_radius_in_table(
    c: Constraint,
    vars: Seq<Seq<char>>,
    shapes: Seq<ShapeView>,
    target: Result<u64, CadError>,
    dirs: Seq<(String, CadError)>,
)
    requires
        vars.len() <= u32::MAX,
        c is Radius,
    ensures
        equations_in_table(constraint_equations(c, vars, shapes, target, dirs), vars.len()),
{
    lemma_lookups_in_table(vars, shapes);
    reveal(constraint_equations);
}
proof fn lemma_diameter_in_table(
    c: Constraint,
    vars: Seq<Seq<char>>,
    shapes: Seq<ShapeView>,
    target: Result<u64, CadError>,
    dirs: Seq<(String, CadError)>,
)
    requires
        vars.len() <= u32::MAX,
        c is Diameter,
    ensures
        equations_in_table(constraint_equations(c, vars, shapes, target, dirs), vars.len()),
{
    lemma_lookups_in_table(vars, shapes);
    reveal(constraint_equations);
}
proof fn lemma_equal_in_table(
    c: Constraint,
    vars: Seq<Seq<char>>,
    shapes: Seq<ShapeView>,
    target: Result<u64, CadError>,
    dirs: Seq<(String, CadError)>,
)
    requires
        vars.len() <= u32::MAX,
        c is Equal,
    ensures
        equations_in_table(constraint_equations(c, vars, shapes, target, dirs), vars.len()),
{
    lemma_lookups_in_table(vars, shapes);
    reveal(constraint_equations);
}
proof fn lemma_parallel_in_table(
    c: Constraint,
    vars: Seq<Seq<char>>,
    shapes: Seq<ShapeView>,
    target: Result<u64, CadError>,
    dirs: Seq<(String, CadError)>,
)
    requires
        vars.len() <= u32::MAX,
        c is Parallel,
    ensures
        equations_in_table(constraint_equations(c, vars, shapes, target, dirs), vars.len()),
{
    lemma_lookups_in_table(vars, shapes);
    reveal(constraint_equations);
}
proof fn lemma_perpendicular_in_table(
    c: Constraint,
    vars: Seq<Seq<char>>,
    shapes: Seq<ShapeView>,
    target: Result<u64, CadError>,
    dirs: Seq<(String, CadError)>,
)
    requires
        vars.len() <= u32::MAX,
        c is Perpendicular,
    ensures
        equations_in_table(constraint_equations(c, vars, shapes, target, dirs), vars.len()),
{
    lemma_lookups_in_table(vars, shapes);
    reveal(constraint_equations);
}
proof fn lemma_angle_in_table(
    c: Constraint,
    vars: Seq<Seq<char>>,
    shapes: Seq<ShapeView>,
    target: Result<u64, CadError>,
    dirs: Seq<(String, CadError)>,
)
    requires
        vars.len() <= u32::MAX,
        c is Angle,
    ensures
        equations_in_table(constraint_equations(c, vars, shapes, target, dirs), vars.len()),
{
    lemma_lookups_in_table(vars, shapes);
    reveal(constraint_equations);
}
proof fn lemma_midpoint_in_table(
    c: Constraint,
    vars: Seq<Seq<char>>,
    shapes: Seq<ShapeView>,
    target: Result<u64, CadError>,
    dirs: Seq<(String, CadError)>,
)
    requires
        vars.len() <= u32::MAX,
        c is Midpoint,
    ensures
        equations_in_table(constraint_equations(c, vars, shapes, target, dirs), vars.len()),
{
    lemma_lookups_in_table(vars, shapes);
    reveal(constraint_equations);
}
proof fn lemma_symmetric_in_table(
    c: Constraint,
    vars: Seq<Seq<char>>,
    shapes: Seq<ShapeView>,
    target: Result<u64, CadError>,
    dirs: Seq<(String, CadError)>,
)
    requires
        vars.len() <= u32::MAX,
        c is Symmetric,
    ensures
        equations_in_table(constraint_equations(c, vars, shapes, target, dirs), vars.len()),
{
    lemma_lookups_in_table(vars, shapes);
    reveal(constraint_equations);
}
proof fn lemma_tangent_in_table(
    c: Constraint,
    vars: Seq<Seq<char>>,
    shapes: Seq<ShapeView>,
    target: Result<u64, CadError>,
    dirs: Seq<(String, CadError)>,
)
    requires
        vars.len() <= u32::MAX,
        c is Tangent,
    ensures
        equations_in_table(constraint_equations(c, vars, shapes, target, dirs), vars.len()),
{
    lemma_lookups_in_table(vars, shapes);
    reveal(constraint_equations);
}
/// A constraint's equations read only variables of the table they were
/// built from.
pub proof fn law_equations_read_only_table_variables(
    c: Constraint,
    vars: Seq<Seq<char>>,
    shapes: Seq<ShapeView>,
    target: Result<u64, CadError>,
    dirs: Seq<(String, CadError)>,
)
    requires
        vars.len() <= u32::MAX,
    ensures
        equations_in_table(constraint_equations(c, vars, shapes, target, dirs), vars.len()),
{
    match c {
        Constraint::Coincident { .. } => lemma_coincident_in_table(c, vars, shapes, target, dirs),
        Constraint::Horizontal { .. } => lemma_horizontal_in_table(c, vars, shapes, target, dirs),
        Constraint::Vertical { .. } => lemma_vertical_in_table(c, vars, shapes, target, dirs),
        Constraint::Distance { .. } => lemma_distance_in_table(c, vars, shapes, target, dirs),
        Constraint::Radius { .. } => lemma_radius_in_table(c, vars, shapes, target, dirs),
        Constraint::Diameter { .. } => lemma_diameter_in_table(c, vars, shapes, target, dirs),
        Constraint::Equal { .. } => lemma_equal_in_table(c, vars, shapes, target, dirs),
        Constraint::Parallel { .. } => lemma_parallel_in_table(c, vars, shapes, target, dirs),
        Constraint::Perpendicular { .. } => lemma_perpendicular_in_table(c, vars, shapes, target, dirs),
        Constraint::Angle { .. } => lemma_angle_in_table(c, vars, shapes, target, dirs),
        Constraint::Midpoint { .. } => lemma_midpoint_in_table(c, vars, shapes, target, dirs),
        Constraint::Symmetric { .. } => lemma_symmetric_in_table(c, vars, shapes, target, dirs),
        Constraint::Tangent { .. } => lemma_tangent_in_table(c, vars, shapes, target, dirs),
    }
}

/// The equations of a sketch's constraints read only variables of the table
/// they were built from.
pub proof fn law_sketch_equations_read_only_table_variables(
    cs: Seq<Constraint>,
    vars: Seq<Seq<char>>,
    shapes: Seq<ShapeView>,
    targets: Seq<Result<u64, CadError>>,
    dirs: Seq<(String, CadError)>,
    n: int,
)
    requires
        vars.len() <= u32::MAX,
        0 <= n <= cs.len(),
    ensures
        equations_in_table(equations_below(cs, vars, shapes, targets, dirs, n), vars.len()),
    decreases n,
{
    if n > 0 {
        law_sketch_equations_read_only_table_variables(cs, vars, shapes, targets, dirs, n - 1);
        law_equations_read_only_table_variables(cs[n - 1], vars, shapes, targets[n - 1], dirs);
        if let Ok(eqs) = equations_below(cs, vars, shapes, targets, dirs, n) {
            let before = equations_below(cs, vars, shapes, targets, dirs, n - 1)->Ok_0;
            let more = constraint_equations(cs[n - 1], vars, shapes, targets[n - 1], dirs)->Ok_0;
            assert(eqs == before + more);
            assert forall|k: int| 0 <= k < eqs.len() implies residual_in_table(#[trigger] eqs[k], vars.len()) by {
                if k < before.len() {
                    assert(eqs[k] == before[k]);
                } else {
                    assert(eqs[k] == more[k - before.len()]);
                }
            }
        }
    }
}

/// The residuals a constraint kind yields, and how many: coincidence, a
/// midpoint and symmetry two each; a rectangle dimension on another kind of
/// entity none; every other constraint one, of its own kind.
pub open spec fn residuals_of_kind(c: Constraint, eqs: Seq<ConstraintResidual>) -> bool {
    match c {
        Constraint::Coincident { .. } => eqs.len() == 2 && eqs[0] is CoincidentX && eqs[1] is CoincidentY,
        Constraint::Horizontal { .. } => eqs.len() == 1 && eqs[0] is Horizontal,
        Constraint::Vertical { .. } => eqs.len() == 1 && eqs[0] is Vertical,
        Constraint::Distance { .. } => eqs.len() <= 1 && forall|k: int| 0 <= k < eqs.len() ==> #[trigger] eqs[k] is Distance,
        Constraint::Radius { .. } => eqs.len() == 1 && eqs[0] is Radius,
        Constraint::Diameter { .. } => eqs.len() == 1 && eqs[0] is Radius,
        Constraint::Equal { .. } => eqs.len() == 1 && eqs[0] is EqualLength,
        Constraint::Parallel { .. } => eqs.len() == 1 && eqs[0] is Parallel,
        Constraint::Perpendicular { .. } => eqs.len() == 1 && eqs[0] is Perpendicular,
        Constraint::Angle { .. } => eqs.len() == 1 && eqs[0] is Angle,
        Constraint::Midpoint { .. } => eqs.len() == 2 && eqs[0] is Midpoint && eqs[1] is Midpoint,
        Constraint::Symmetric { .. } => eqs.len() == 2 && eqs[0] is SymmetricMidpointOnLine && eqs[1] is SymmetricPerpendicular,
        Constraint::Tangent { .. } => eqs.len() == 1 && eqs[0] is TangentLineCircle,
    }
}

/// The line `l` runs from a point with variables `x1`, `y1` to one with
/// variables `x2`, `y2`.
pub open spec fn line_has_vars(
    vars: Seq<Seq<char>>,
    shapes: Seq<ShapeView>,
    l: Seq<char>,
    x1: VarId,
    y1: VarId,
    x2: VarId,
    y2: VarId,
) -> bool {
    exists|s: Seq<char>, e: Seq<char>|
        #[trigger] line_of(shapes, l) == Some((s, e)) && var_of(vars, s + ".x"@) == Some(x1) && var_of(
            vars,
            s + ".y"@,
        ) == Some(y1) && var_of(vars, e + ".x"@) == Some(x2) && var_of(vars, e + ".y"@) == Some(y2)
}

/// No direction fault is recorded for the line `l`.
pub open spec fn no_fault_for(dirs: Seq<(String, CadError)>, l: Seq<char>) -> bool {
    forall|i: int| 0 <= i < dirs.len() ==> (#[trigger] dirs[i]).0@ != l
}

proof fn lemma_coincident_kinds(
    c: Constraint,
    vars: Seq<Seq<char>>,
    shapes: Seq<ShapeView>,
    target: Result<u64, CadError>,
    dirs: Seq<(String, CadError)>,
)
    requires
        c is Coincident,
    ensures
        constraint_equations(c, vars, shapes, target, dirs) matches Ok(eqs) ==> residuals_of_kind(c, eqs),
{
    reveal(constraint_equations);
}

proof fn lemma_horizontal_kinds(
    c: Constraint,
    vars: Seq<Seq<char>>,
    shapes: Seq<ShapeView>,
    target: Result<u64, CadError>,
    dirs: Seq<(String, CadError)>,
)
    requires
        c is Horizontal,
    ensures
        constraint_equations(c, vars, shapes, target, dirs) matches Ok(eqs) ==> residuals_of_kind(c, eqs),
{
    reveal(constraint_equations);
}

proof fn lemma_vertical_kinds(
    c: Constraint,
    vars: Seq<Seq<char>>,
    shapes: Seq<ShapeView>,
    target: Result<u64, CadError>,
    dirs: Seq<(String, CadError)>,
)
    requires
        c is Vertical,
    ensures
        constraint_equations(c, vars, shapes, target, dirs) matches Ok(eqs) ==> residuals_of_kind(c, eqs),
{
    reveal(constraint_equations);
}

proof fn lemma_distance_kinds(
    c: Constraint,
    vars: Seq<Seq<char>>,
    shapes: Seq<ShapeView>,
    target: Result<u64, CadError>,
    dirs: Seq<(String, CadError)>,
)
    requires
        c is Distance,
    ensures
        constraint_equations(c, vars, shapes, target, dirs) matches Ok(eqs) ==> residuals_of_kind(c, eqs),
{
    reveal(constraint_equations);
}

proof fn lemma_radius_kinds(
    c: Constraint,
    vars: Seq<Seq<char>>,
    shapes: Seq<ShapeView>,
    target: Result<u64, CadError>,
    dirs: Seq<(String, CadError)>,
)
    requires
        c is Radius,
    ensures
        constraint_equations(c, vars, shapes, target, dirs) matches Ok(eqs) ==> residuals_of_kind(c, eqs),
{
    reveal(constraint_equations);
}

proof fn lemma_diameter_kinds(
    c: Constraint,
    vars: Seq<Seq<char>>,
    shapes: Seq<ShapeView>,
    target: Result<u64, CadError>,
    dirs: Seq<(String, CadError)>,
)
    requires
        c is Diameter,
    ensures
        constraint_equations(c, vars, shapes, target, dirs) matches Ok(eqs) ==> residuals_of_kind(c, eqs),
{
    reveal(constraint_equations);
}

proof fn lemma_equal_kinds(
    c: Constraint,
    vars: Seq<Seq<char>>,
    shapes: Seq<ShapeView>,
    target: Result<u64, CadError>,
    dirs: Seq<(String, CadError)>,
)
    requires
        c is Equal,
    ensures
        constraint_equations(c, vars, shapes, target, dirs) matches Ok(eqs) ==> residuals_of_kind(c, eqs),
{
    reveal(constraint_equations);
}

proof fn lemma_parallel_kinds(
    c: Constraint,
    vars: Seq<Seq<char>>,
    shapes: Seq<ShapeView>,
    target: Result<u64, CadError>,
    dirs: Seq<(String, CadError)>,
)
    requires
        c is Parallel,
    ensures
        constraint_equations(c, vars, shapes, target, dirs) matches Ok(eqs) ==> residuals_of_kind(c, eqs),
{
    reveal(constraint_equations);
}

proof fn lemma_perpendicular_kinds(
    c: Constraint,
    vars: Seq<Seq<char>>,
    shapes: Seq<ShapeView>,
    target: Result<u64, CadError>,
    dirs: Seq<(String, CadError)>,
)
    requires
        c is Perpendicular,
    ensures
        constraint_equations(c, vars, shapes, target, dirs) matches Ok(eqs) ==> residuals_of_kind(c, eqs),
{
    reveal(constraint_equations);
}

proof fn lemma_angle_kinds(
    c: Constraint,
    vars: Seq<Seq<char>>,
    shapes: Seq<ShapeView>,
    target: Result<u64, CadError>,
    dirs: Seq<(String, CadError)>,
)
    requires
        c is Angle,
    ensures
        constraint_equations(c, vars, shapes, target, dirs) matches Ok(eqs) ==> residuals_of_kind(c, eqs),
{
    reveal(constraint_equations);
}

proof fn lemma_midpoint_kinds(
    c: Constraint,
    vars: Seq<Seq<char>>,
    shapes: Seq<ShapeView>,
    target: Result<u64, CadError>,
    dirs: Seq<(String, CadError)>,
)
    requires
        c is Midpoint,
    ensures
        constraint_equations(c, vars, shapes, target, dirs) matches Ok(eqs) ==> residuals_of_kind(c, eqs),
{
    reveal(constraint_equations);
}

proof fn lemma_symmetric_kinds(
    c: Constraint,
    vars: Seq<Seq<char>>,
    shapes: Seq<ShapeView>,
    target: Result<u64, CadError>,
    dirs: Seq<(String, CadError)>,
)
    requires
        c is Symmetric,
    ensures
        constraint_equations(c, vars, shapes, target, dirs) matches Ok(eqs) ==> residuals_of_kind(c, eqs),
{
    reveal(constraint_equations);
}

proof fn lemma_tangent_kinds(
    c: Constraint,
    vars: Seq<Seq<char>>,
    shapes: Seq<ShapeView>,
    target: Result<u64, CadError>,
    dirs: Seq<(String, CadError)>,
)
    requires
        c is Tangent,
    ensures
        constraint_equations(c, vars, shapes, target, dirs) matches Ok(eqs) ==> residuals_of_kind(c, eqs),
{
    reveal(constraint_equations);
}

/// Each constraint yields residuals of its own kind, as many as its kind
/// calls for.
pub proof fn law_constraints_yield_residuals_of_their_kind(
    c: Constraint,
    vars: Seq<Seq<char>>,
    shapes: Seq<ShapeView>,
    target: Result<u64, CadError>,
    dirs: Seq<(String, CadError)>,
)
    ensures
        constraint_equations(c, vars, shapes, target, dirs) matches Ok(eqs) ==> residuals_of_kind(c, eqs),
{
    match c {
        Constraint::Coincident { .. } => lemma_coincident_kinds(c, vars, shapes, target, dirs),
        Constraint::Horizontal { .. } => lemma_horizontal_kinds(c, vars, shapes, target, dirs),
        Constraint::Vertical { .. } => lemma_vertical_kinds(c, vars, shapes, target, dirs),
        Constraint::Distance { .. } => lemma_distance_kinds(c, vars, shapes, target, dirs),
        Constraint::Radius { .. } => lemma_radius_kinds(c, vars, shapes, target, dirs),
        Constraint::Diameter { .. } => lemma_diameter_kinds(c, vars, shapes, target, dirs),
        Constraint::Equal { .. } => lemma_equal_kinds(c, vars, shapes, target, dirs),
        Constraint::Parallel { .. } => lemma_parallel_kinds(c, vars, shapes, target, dirs),
        Constraint::Perpendicular { .. } => lemma_perpendicular_kinds(c, vars, shapes, target, dirs),
        Constraint::Angle { .. } => lemma_angle_kinds(c, vars, shapes, target, dirs),
        Constraint::Midpoint { .. } => lemma_midpoint_kinds(c, vars, shapes, target, dirs),
        Constraint::Symmetric { .. } => lemma_symmetric_kinds(c, vars, shapes, target, dirs),
        Constraint::Tangent { .. } => lemma_tangent_kinds(c, vars, shapes, target, dirs),
    }
}

proof fn lemma_line_vars_exact(vars: Seq<Seq<char>>, shapes: Seq<ShapeView>, l: Seq<char>, x1: VarId, y1: VarId, x2: VarId, y2: VarId)
    requires
        line_has_vars(vars, shapes, l, x1, y1, x2, y2),
    ensures
        line_vars(vars, shapes, l) == Ok::<(VarId, VarId, VarId, VarId), Fault>((x1, y1, x2, y2)),
{
    let (s, e) = choose|s: Seq<char>, e: Seq<char>|
        #[trigger] line_of(shapes, l) == Some((s, e)) && var_of(vars, s + ".x"@) == Some(x1) && var_of(
            vars,
            s + ".y"@,
        ) == Some(y1) && var_of(vars, e + ".x"@) == Some(x2) && var_of(vars, e + ".y"@) == Some(y2);
    assert(x_name(s) == s + ".x"@);
}

/// A horizontal or vertical constraint on a line whose end points have
/// variables yields exactly one residual of its own kind, over the start
/// point's then the end point's variables.
pub proof fn law_horizontal_and_vertical_read_their_line(
    id: String,
    line: String,
    vars: Seq<Seq<char>>,
    shapes: Seq<ShapeView>,
    target: Result<u64, CadError>,
    dirs: Seq<(String, CadError)>,
    x1: VarId,
    y1: VarId,
    x2: VarId,
    y2: VarId,
)
    requires
        line_has_vars(vars, shapes, line@, x1, y1, x2, y2),
    ensures
        constraint_equations(Constraint::Horizontal { id, line }, vars, shapes, target, dirs) == Ok::<
            Seq<ConstraintResidual>,
            Fault,
        >(seq![ConstraintResidual::Horizontal { x1, y1, x2, y2 }]),
        constraint_equations(Constraint::Vertical { id, line }, vars, shapes, target, dirs) == Ok::<
            Seq<ConstraintResidual>,
            Fault,
        >(seq![ConstraintResidual::Vertical { x1, y1, x2, y2 }]),
{
    reveal(constraint_equations);
    lemma_line_vars_exact(vars, shapes, line@, x1, y1, x2, y2);
}

proof fn lemma_no_fault(dirs: Seq<(String, CadError)>, l: Seq<char>, n: int)
    requires
        no_fault_for(dirs, l),
        0 <= n <= dirs.len(),
    ensures
        direction_below(dirs, l, n) is None,
    decreases n,
{
    if n > 0 {
        lemma_no_fault(dirs, l, n - 1);
        assert(dirs[n - 1].0@ != l);
    }
}

/// A parallel or perpendicular constraint on two lines whose end points
/// have variables and whose directions are usable yields exactly one
/// residual of its own kind, over the first line's variables, then the
/// second's.
pub proof fn law_parallel_and_perpendicular_read_their_lines(
    id: String,
    line_a: String,
    line_b: String,
    vars: Seq<Seq<char>>,
    shapes: Seq<ShapeView>,
    target: Result<u64, CadError>,
    dirs: Seq<(String, CadError)>,
    a: (VarId, VarId, VarId, VarId),
    b: (VarId, VarId, VarId, VarId),
)
    requires
        line_has_vars(vars, shapes, line_a@, a.0, a.1, a.2, a.3),
        line_has_vars(vars, shapes, line_b@, b.0, b.1, b.2, b.3),
        no_fault_for(dirs, line_a@),
        no_fault_for(dirs, line_b@),
    ensures
        constraint_equations(Constraint::Parallel { id, line_a, line_b }, vars, shapes, target, dirs)
            == Ok::<Seq<ConstraintResidual>, Fault>(
            seq![
                ConstraintResidual::Parallel {
                    ax1: a.0,
                    ay1: a.1,
                    ax2: a.2,
                    ay2: a.3,
                    bx1: b.0,
                    by1: b.1,
                    bx2: b.2,
                    by2: b.3,
                },
            ],
        ),
        constraint_equations(Constraint::Perpendicular { id, line_a, line_b }, vars, shapes, target, dirs)
            == Ok::<Seq<ConstraintResidual>, Fault>(
            seq![
                ConstraintResidual::Perpendicular {
                    ax1: a.0,
                    ay1: a.1,
                    ax2: a.2,
                    ay2: a.3,
                    bx1: b.0,
                    by1: b.1,
                    bx2: b.2,
                    by2: b.3,
                },
            ],
        ),
{
    reveal(constraint_equations);
    lemma_line_vars_exact(vars, shapes, line_a@, a.0, a.1, a.2, a.3);
    lemma_line_vars_exact(vars, shapes, line_b@, b.0, b.1, b.2, b.3);
    lemma_no_fault(dirs, line_a@, dirs.len() as int);
    lemma_no_fault(dirs, line_b@, dirs.len() as int);
}

/// The point `p` has the variables `x` and `y`.
pub open spec fn point_has_vars(vars: Seq<Seq<char>>, p: Seq<char>, x: VarId, y: VarId) -> bool {
    var_of(vars, p + ".x"@) == Some(x) && var_of(vars, p + ".y"@) == Some(y)
}

/// The reference names the point `p`: a point entity by its id, or the
/// start or end of a line.
pub open spec fn ref_names_point(shapes: Seq<ShapeView>, r: EntityRef, p: Seq<char>) -> bool {
    match r {
        EntityRef::Entity(id) => p == id@,
        EntityRef::PointOnLine { line, end } => exists|s: Seq<char>, e: Seq<char>|
            #[trigger] line_of(shapes, line@) == Some((s, e)) && p == match end {
                LineEnd::Start => s,
                LineEnd::End => e,
            },
    }
}

proof fn lemma_point_vars_exact(vars: Seq<Seq<char>>, p: Seq<char>, x: VarId, y: VarId)
    requires
        point_has_vars(vars, p, x, y),
    ensures
        point_vars(vars, p) == Ok::<(VarId, VarId), Fault>((x, y)),
{
}

proof fn lemma_ref_vars_exact(vars: Seq<Seq<char>>, shapes: Seq<ShapeView>, r: EntityRef, p: Seq<char>, x: VarId, y: VarId)
    requires
        ref_names_point(shapes, r, p),
        point_has_vars(vars, p, x, y),
    ensures
        ref_vars(vars, shapes, r) == Ok::<(VarId, VarId), Fault>((x, y)),
{
    match r {
        EntityRef::Entity(id) => {},
        EntityRef::PointOnLine { line, end } => {
            let (s, e) = choose|s: Seq<char>, e: Seq<char>|
                #[trigger] line_of(shapes, line@) == Some((s, e)) && p == match end {
                    LineEnd::Start => s,
                    LineEnd::End => e,
                };
        },
    }
}

/// A coincidence of two named points yields their x equation, then their
/// y equation.
pub proof fn law_coincidence_reads_both_points(
    id: String,
    a: EntityRef,
    b: EntityRef,
    vars: Seq<Seq<char>>,
    shapes: Seq<ShapeView>,
    target: Result<u64, CadError>,
    dirs: Seq<(String, CadError)>,
    p: Seq<char>,
    q: Seq<char>,
    px: VarId,
    py: VarId,
    qx: VarId,
    qy: VarId,
)
    requires
        ref_names_point(shapes, a, p),
        ref_names_point(shapes, b, q),
        point_has_vars(vars, p, px, py),
        point_has_vars(vars, q, qx, qy),
    ensures
        constraint_equations(Constraint::Coincident { id, a, b }, vars, shapes, target, dirs) == Ok::<
            Seq<ConstraintResidual>,
            Fault,
        >(
            seq![
                ConstraintResidual::CoincidentX { a: px, b: qx },
                ConstraintResidual::CoincidentY { a: py, b: qy },
            ],
        ),
{
    reveal(constraint_equations);
    lemma_ref_vars_exact(vars, shapes, a, p, px, py);
    lemma_ref_vars_exact(vars, shapes, b, q, qx, qy);
}

/// A point-to-point distance with a readable target yields one distance
/// equation from the first point to the second with that target; an
/// unreadable target is the error.
pub proof fn law_point_distance_reads_both_points_and_target(
    id: String,
    a: String,
    b: String,
    expr: String,
    vars: Seq<Seq<char>>,
    shapes: Seq<ShapeView>,
    target: Result<u64, CadError>,
    dirs: Seq<(String, CadError)>,
    x1: VarId,
    y1: VarId,
    x2: VarId,
    y2: VarId,
)
    requires
        point_has_vars(vars, a@, x1, y1),
        point_has_vars(vars, b@, x2, y2),
    ensures
        ({
            let c = Constraint::Distance { id, target: DistanceTarget::PointToPoint { a, b }, expr };
            match target {
                Ok(bits) => constraint_equations(c, vars, shapes, target, dirs) == Ok::<
                    Seq<ConstraintResidual>,
                    Fault,
                >(seq![ConstraintResidual::Distance { x1, y1, x2, y2, target_bits: bits }]),
                Err(e) => constraint_equations(c, vars, shapes, target, dirs) == Err::<
                    Seq<ConstraintResidual>,
                    Fault,
                >(fault_of(e)),
            }
        }),
{
    reveal(constraint_equations);
}

/// A radius or diameter of a curve with a radius variable and a readable
/// target yields one radius equation on that variable with that target.
pub proof fn law_radius_and_diameter_read_the_radius(
    id: String,
    t: String,
    expr: String,
    vars: Seq<Seq<char>>,
    shapes: Seq<ShapeView>,
    bits: u64,
    dirs: Seq<(String, CadError)>,
    radius: VarId,
)
    requires
        var_of(vars, t@ + ".radius"@) == Some(radius),
    ensures
        constraint_equations(Constraint::Radius { id, target: t, expr }, vars, shapes, Ok(bits), dirs)
            == Ok::<Seq<ConstraintResidual>, Fault>(seq![ConstraintResidual::Radius { radius, target_bits: bits }]),
        constraint_equations(Constraint::Diameter { id, target: t, expr }, vars, shapes, Ok(bits), dirs)
            == Ok::<Seq<ConstraintResidual>, Fault>(seq![ConstraintResidual::Radius { radius, target_bits: bits }]),
{
    reveal(constraint_equations);
}

/// A midpoint constraint yields the point's x between the line's end x's,
/// then its y between their y's.
pub proof fn law_midpoint_reads_point_and_line(
    id: String,
    point: String,
    line: String,
    vars: Seq<Seq<char>>,
    shapes: Seq<ShapeView>,
    target: Result<u64, CadError>,
    dirs: Seq<(String, CadError)>,
    px: VarId,
    py: VarId,
    x1: VarId,
    y1: VarId,
    x2: VarId,
    y2: VarId,
)
    requires
        point_has_vars(vars, point@, px, py),
        line_has_vars(vars, shapes, line@, x1, y1, x2, y2),
    ensures
        constraint_equations(Constraint::Midpoint { id, point, line }, vars, shapes, target, dirs) == Ok::<
            Seq<ConstraintResidual>,
            Fault,
        >(
            seq![
                ConstraintResidual::Midpoint { point: px, a: x1, b: x2 },
                ConstraintResidual::Midpoint { point: py, a: y1, b: y2 },
            ],
        ),
{
    reveal(constraint_equations);
    lemma_line_vars_exact(vars, shapes, line@, x1, y1, x2, y2);
}

/// A symmetry of two points about a usable line yields the midpoint-on-line
/// equation, then the perpendicularity equation, over the first point, the
/// second, and the line.
pub proof fn law_symmetry_reads_points_and_line(
    id: String,
    a: String,
    b: String,
    line: String,
    vars: Seq<Seq<char>>,
    shapes: Seq<ShapeView>,
    target: Result<u64, CadError>,
    dirs: Seq<(String, CadError)>,
    p: (VarId, VarId),
    q: (VarId, VarId),
    l: (VarId, VarId, VarId, VarId),
)
    requires
        point_has_vars(vars, a@, p.0, p.1),
        point_has_vars(vars, b@, q.0, q.1),
        line_has_vars(vars, shapes, line@, l.0, l.1, l.2, l.3),
        no_fault_for(dirs, line@),
    ensures
        constraint_equations(Constraint::Symmetric { id, a, b, line }, vars, shapes, target, dirs) == Ok::<
            Seq<ConstraintResidual>,
            Fault,
        >(
            seq![
                ConstraintResidual::SymmetricMidpointOnLine {
                    px: p.0,
                    py: p.1,
                    qx: q.0,
                    qy: q.1,
                    lx1: l.0,
                    ly1: l.1,
                    lx2: l.2,
                    ly2: l.3,
                },
                ConstraintResidual::SymmetricPerpendicular {
                    px: p.0,
                    py: p.1,
                    qx: q.0,
                    qy: q.1,
                    lx1: l.0,
                    ly1: l.1,
                    lx2: l.2,
                    ly2: l.3,
                },
            ],
        ),
{
    reveal(constraint_equations);
    lemma_line_vars_exact(vars, shapes, line@, l.0, l.1, l.2, l.3);
    lemma_no_fault(dirs, line@, dirs.len() as int);
}

/// A tangency of a usable line to a circle or arc yields one equation over
/// the curve's center, its radius and the line.
pub proof fn law_tangency_reads_center_radius_and_line(
    id: String,
    line: String,
    curve: String,
    vars: Seq<Seq<char>>,
    shapes: Seq<ShapeView>,
    target: Result<u64, CadError>,
    dirs: Seq<(String, CadError)>,
    center: Seq<char>,
    c: (VarId, VarId),
    radius: VarId,
    l: (VarId, VarId, VarId, VarId),
)
    requires
        curve_of(shapes, curve@) == Some(center),
        point_has_vars(vars, center, c.0, c.1),
        var_of(vars, curve@ + ".radius"@) == Some(radius),
        line_has_vars(vars, shapes, line@, l.0, l.1, l.2, l.3),
        no_fault_for(dirs, line@),
    ensures
        constraint_equations(Constraint::Tangent { id, line, curve }, vars, shapes, target, dirs) == Ok::<
            Seq<ConstraintResidual>,
            Fault,
        >(
            seq![
                ConstraintResidual::TangentLineCircle {
                    cx: c.0,
                    cy: c.1,
                    radius,
                    lx1: l.0,
                    ly1: l.1,
                    lx2: l.2,
                    ly2: l.3,
                },
            ],
        ),
{
    reveal(constraint_equations);
    lemma_line_vars_exact(vars, shapes, line@, l.0, l.1, l.2, l.3);
    lemma_no_fault(dirs, line@, dirs.len() as int);
}

/// An angle between two usable lines with a readable target yields one
/// angle equation from the first line to the second with that target.
pub proof fn law_angle_reads_both_lines_and_target(
    id: String,
    line_a: String,
    line_b: String,
    expr: String,
    vars: Seq<Seq<char>>,
    shapes: Seq<ShapeView>,
    bits: u64,
    dirs: Seq<(String, CadError)>,
    a: (VarId, VarId, VarId, VarId),
    b: (VarId, VarId, VarId, VarId),
)
    requires
        line_has_vars(vars, shapes, line_a@, a.0, a.1, a.2, a.3),
        line_has_vars(vars, shapes, line_b@, b.0, b.1, b.2, b.3),
        no_fault_for(dirs, line_a@),
        no_fault_for(dirs, line_b@),
    ensures
        constraint_equations(Constraint::Angle { id, line_a, line_b, expr }, vars, shapes, Ok(bits), dirs)
            == Ok::<Seq<ConstraintResidual>, Fault>(
            seq![
                ConstraintResidual::Angle {
                    ax1: a.0,
                    ay1: a.1,
                    ax2: a.2,
                    ay2: a.3,
                    bx1: b.0,
                    by1: b.1,
                    bx2: b.2,
                    by2: b.3,
                    target_rad_bits: bits,
                },
            ],
        ),
{
    reveal(constraint_equations);
    lemma_line_vars_exact(vars, shapes, line_a@, a.0, a.1, a.2, a.3);
    lemma_line_vars_exact(vars, shapes, line_b@, b.0, b.1, b.2, b.3);
    lemma_no_fault(dirs, line_a@, dirs.len() as int);
    lemma_no_fault(dirs, line_b@, dirs.len() as int);
}

/// Building the equations of more constraints only appends equations: the
/// equations of the first `n` constraints, when they build, begin the
/// equations of the first `m`, and each constraint's residuals come after
/// those of the constraints before it.
pub proof fn law_constraint_equations_come_in_constraint_order(
    cs: Seq<Constraint>,
    vars: Seq<Seq<char>>,
    shapes: Seq<ShapeView>,
    targets: Seq<Result<u64, CadError>>,
    dirs: Seq<(String, CadError)>,
    n: int,
    m: int,
)
    requires
        0 <= n <= m,
    ensures
        equations_below(cs, vars, shapes, targets, dirs, m) matches Ok(all) ==> {
            &&& equations_below(cs, vars, shapes, targets, dirs, n) matches Ok(first)
            &&& first.len() <= all.len()
            &&& all.take(first.len() as int) == first
        },
    decreases m - n,
{
    if n < m {
        law_constraint_equations_come_in_constraint_order(cs, vars, shapes, targets, dirs, n, m - 1);
        if let Ok(all) = equations_below(cs, vars, shapes, targets, dirs, m) {
            let before = equations_below(cs, vars, shapes, targets, dirs, m - 1)->Ok_0;
            let first = equations_below(cs, vars, shapes, targets, dirs, n)->Ok_0;
            assert(all.take(before.len() as int) =~= before);
            assert(all.take(first.len() as int) =~= before.take(first.len() as int));
        }
    }
}

} // verus!

//! Semantic diffs: parameter changes between two graphs, topology-reference
//! changes between two reference lists, and their one-line summary.
use vstd::prelude::*;
use indexmap::IndexMap;
use std::collections::hash_map::RandomState;
use crate::index_map::{key_set_insert, key_set_keys, key_set_new, ordered_keys};
use crate::order::{
    insert_sorted, lemma_sorted_insert_all, sorted_insert, sorted_insert_all, strictly_sorted,
};
use crate::param_graph::{ids_of, ParamGraph, ParamGraphView};
use crate::refs::{opt_view, refs_view, stored_face_id, strings_view, TopoRef, TopoRefView};
use crate::text::{decimal, decimal_string, str_eq};

verus! {

/// High-level semantic change categories.
#[derive(Debug, Clone, PartialEq, Eq)]
pub enum SemanticChange {
    ParameterChanged { id: String, before: String, after: String },
    FeatureAdded { id: String, feature_type: String },
    FeatureRemoved { id: String },
    FeatureModified { id: String, field: String, before: String, after: String },
    ConstraintModified { id: String, before: String, after: String },
    MassChanged { before: String, after: String },
    BboxChanged { before: String, after: String },
    TopoRefAdded { ref_id: String, created_by: String, role: Option<String> },
    TopoRefRemoved { ref_id: String },
    TopoRefModified { ref_id: String, field: String, before: String, after: String },
    AssemblyInstanceAdded { id: String },
    AssemblyInstanceRemoved { id: String },
    AssemblyInstanceChanged { id: String, field: String, before: String, after: String },
    AssemblyMateAdded { id: String },
    AssemblyMateRemoved { id: String },
    AssemblyMateChanged { id: String, before: String, after: String },
    AssemblyConnectorAdded { id: String },
    AssemblyConnectorRemoved { id: String },
    AssemblyConnectorChanged { id: String, before: String, after: String },
    DrawingSheetAdded { id: String },
    DrawingSheetRemoved { id: String },
    DrawingSheetChanged { id: String, before: String, after: String },
    DrawingViewAdded { id: String },
    DrawingViewRemoved { id: String },
    DrawingViewChanged { id: String, before: String, after: String },
}

/// Kind of a design diff.
#[derive(Debug, Clone, Copy, PartialEq, Eq, Structural)]
pub enum DiffType {
    Text,
    Semantic,
    Geometric,
}

// ---------------------------------------------------------------------------
// Parameter diffs
// ---------------------------------------------------------------------------

/// Each text once, in the order of its first appearance.
pub open spec fn first_appearances(s: Seq<Seq<char>>) -> Seq<Seq<char>>
    decreases s.len(),
{
    if s.len() == 0 {
        s
    } else {
        let r = first_appearances(s.drop_last());
        if r.contains(s.last()) {
            r
        } else {
            r.push(s.last())
        }
    }
}

/// The expression of the parameter `id` in `g`, if `g` has it.
pub open spec fn expr_of(g: ParamGraphView, id: Seq<char>) -> Option<Seq<char>> {
    if ids_of(g.entries).contains(id) {
        Some(g.entries[ids_of(g.entries).index_of(id)].2)
    } else {
        None
    }
}

/// A parameter change as `(id, before, after)`; a missing side is empty.
pub type ParamChangeView = (Seq<char>, Seq<char>, Seq<char>);

/// The change of parameter `id` from `b` to `a`, if its expression changed,
/// appeared or disappeared.
pub open spec fn param_change(b: ParamGraphView, a: ParamGraphView, id: Seq<char>) -> Option<
    ParamChangeView,
> {
    match (expr_of(b, id), expr_of(a, id)) {
        (Some(x), Some(y)) => if x != y {
            Some((id, x, y))
        } else {
            None
        },
        (Some(x), None) => Some((id, x, Seq::empty())),
        (None, Some(y)) => Some((id, Seq::empty(), y)),
        (None, None) => None,
    }
}

/// The parameter changes for the ids `ids`, in that order.
pub open spec fn param_changes(b: ParamGraphView, a: ParamGraphView, ids: Seq<Seq<char>>) -> Seq<
    ParamChangeView,
>
    decreases ids.len(),
{
    if ids.len() == 0 {
        Seq::empty()
    } else {
        let rest = param_changes(b, a, ids.drop_last());
        match param_change(b, a, ids.last()) {
            Some(c) => rest.push(c),
            None => rest,
        }
    }
}

/// `c` is the parameter change `v`.
pub open spec fn is_parameter_change(c: SemanticChange, v: ParamChangeView) -> bool {
    match c {
        SemanticChange::ParameterChanged { id, before, after } => id@ == v.0 && before@ == v.1
            && after@ == v.2,
        _ => false,
    }
}

/// Every parameter id of either graph, before's first, each once.
pub open spec fn diff_ids(b: ParamGraphView, a: ParamGraphView) -> Seq<Seq<char>> {
    first_appearances(ids_of(b.entries) + ids_of(a.entries))
}

proof fn lemma_first_appearances_push(s: Seq<Seq<char>>, x: Seq<char>)
    ensures
        first_appearances(s.push(x)) == (if first_appearances(s).contains(x) {
            first_appearances(s)
        } else {
            first_appearances(s).push(x)
        }),
{
    assert(s.push(x).drop_last() =~= s);
}

fn insert_all_keys(m: &mut IndexMap<String, (), RandomState>, ids: Vec<String>, Ghost(
    prefix,
): Ghost<Seq<Seq<char>>>)
    requires
        ordered_keys(*old(m)) == first_appearances(prefix),
    ensures
        ordered_keys(*final(m)) == first_appearances(prefix + strings_view(ids@)),
{
    let mut i: usize = 0;
    while i < ids.len()
        invariant
            i <= ids.len(),
            ordered_keys(*m) == first_appearances(prefix + strings_view(ids@).subrange(0, i as int)),
        decreases ids.len() - i,
    {
        let ghost done = prefix + strings_view(ids@).subrange(0, i as int);
        proof {
            lemma_first_appearances_push(done, ids@[i as int]@);
            assert(prefix + strings_view(ids@).subrange(0, i + 1) =~= done.push(ids@[i as int]@));
        }
        key_set_insert(m, ids[i].clone());
        i = i + 1;
    }
    assert(strings_view(ids@).subrange(0, i as int) =~= strings_view(ids@));
}

proof fn lemma_param_changes_push(b: ParamGraphView, a: ParamGraphView, ids: Seq<Seq<char>>, x: Seq<
    char,
>)
    ensures
        param_changes(b, a, ids.push(x)) == (match param_change(b, a, x) {
            Some(c) => param_changes(b, a, ids).push(c),
            None => param_changes(b, a, ids),
        }),
{
    assert(ids.push(x).drop_last() =~= ids);
}

/// Compare parameter expressions between two graphs: for each id of either
/// graph (before's first, each once), a change when its expression differs,
/// with an empty text for a missing side.
pub fn diff_param_graphs(before: &ParamGraph, after: &ParamGraph) -> (changes: Vec<SemanticChange>)
    requires
        before.wf(),
        after.wf(),
    ensures
        changes.len() == param_changes(before@, after@, diff_ids(before@, after@)).len(),
        forall|k: int|
            0 <= k < changes.len() ==> is_parameter_change(
                #[trigger] changes@[k],
                param_changes(before@, after@, diff_ids(before@, after@))[k],
            ),
{
    let mut ids = key_set_new();
    insert_all_keys(&mut ids, before.parameter_ids(), Ghost(Seq::empty()));
    assert(Seq::<Seq<char>>::empty() + ids_of(before@.entries) =~= ids_of(before@.entries));
    insert_all_keys(&mut ids, after.parameter_ids(), Ghost(ids_of(before@.entries)));
    let keys = key_set_keys(&ids);
    let ghost all = diff_ids(before@, after@);
    assert(strings_view(keys@) == all);

    let mut changes: Vec<SemanticChange> = Vec::new();
    let mut i: usize = 0;
    while i < keys.len()
        invariant
            i <= keys.len(),
            before.wf(),
            after.wf(),
            strings_view(keys@) == all,
            changes.len() == param_changes(before@, after@, all.subrange(0, i as int)).len(),
            forall|k: int|
                0 <= k < changes.len() ==> is_parameter_change(
                    #[trigger] changes@[k],
                    param_changes(before@, after@, all.subrange(0, i as int))[k],
                ),
        decreases keys.len() - i,
    {
        let id = &keys[i];
        proof {
            assert(all[i as int] == id@);
            assert(all.subrange(0, i + 1) =~= all.subrange(0, i as int).push(id@));
            lemma_param_changes_push(before@, after@, all.subrange(0, i as int), id@);
        }
        let b = before.get(id.as_str());
        let a = after.get(id.as_str());
        match (b, a) {
            (Some(be), Some(ae)) => {
                if !str_eq(be.expr.as_str(), ae.expr.as_str()) {
                    changes.push(
                        SemanticChange::ParameterChanged {
                            id: id.clone(),
                            before: be.expr.clone(),
                            after: ae.expr.clone(),
                        },
                    );
                }
            },
            (Some(be), None) => {
                changes.push(
                    SemanticChange::ParameterChanged {
                        id: id.clone(),
                        before: be.expr.clone(),
                        after: String::new(),
                    },
                );
            },
            (None, Some(ae)) => {
                changes.push(
                    SemanticChange::ParameterChanged {
                        id: id.clone(),
                        before: String::new(),
                        after: ae.expr.clone(),
                    },
                );
            },
            (None, None) => {},
        }
        i = i + 1;
    }
    assert(all.subrange(0, i as int) =~= all);
    changes
}

// ---------------------------------------------------------------------------
// Topology-reference diffs
// ---------------------------------------------------------------------------

/// A topology-reference change, as texts.
pub enum TopoChangeView {
    Added { ref_id: Seq<char>, created_by: Seq<char>, role: Option<Seq<char>> },
    Removed { ref_id: Seq<char> },
    Modified { ref_id: Seq<char>, field: Seq<char>, before: Seq<char>, after: Seq<char> },
}

/// `c` is the topology-reference change `v`.
pub open spec fn is_topo_change(c: SemanticChange, v: TopoChangeView) -> bool {
    match v {
        TopoChangeView::Added { ref_id, created_by, role } => match c {
            SemanticChange::TopoRefAdded { ref_id: r, created_by: cb, role: ro } => r@ == ref_id
                && cb@ == created_by && opt_view(ro) == role,
            _ => false,
        },
        TopoChangeView::Removed { ref_id } => match c {
            SemanticChange::TopoRefRemoved { ref_id: r } => r@ == ref_id,
            _ => false,
        },
        TopoChangeView::Modified { ref_id, field, before, after } => match c {
            SemanticChange::TopoRefModified { ref_id: r, field: f, before: x, after: y } => r@
                == ref_id && f@ == field && x@ == before && y@ == after,
            _ => false,
        },
    }
}

/// The last reference of `refs` with the id `id`: later entries win.
pub open spec fn last_ref(refs: Seq<TopoRefView>, id: Seq<char>) -> Option<TopoRefView>
    decreases refs.len(),
{
    if refs.len() == 0 {
        None
    } else if refs.last().ref_id == id {
        Some(refs.last())
    } else {
        last_ref(refs.drop_last(), id)
    }
}

pub open spec fn ref_ids(refs: Seq<TopoRefView>) -> Seq<Seq<char>> {
    refs.map_values(|r: TopoRefView| r.ref_id)
}

/// Every reference id of either list, in increasing order, each once.
pub open spec fn diff_ref_ids(b: Seq<TopoRefView>, a: Seq<TopoRefView>) -> Seq<Seq<char>> {
    sorted_insert_all(Seq::empty(), ref_ids(b) + ref_ids(a))
}

/// The text of an optional text; empty when there is none.
pub open spec fn text_or_empty(o: Option<Seq<char>>) -> Seq<char> {
    match o {
        Some(t) => t,
        None => Seq::empty(),
    }
}

/// The stored kernel face id in decimal; empty when there is none.
pub open spec fn face_id_text(r: TopoRefView) -> Seq<char> {
    match stored_face_id(r) {
        Some(n) => decimal(n as nat),
        None => Seq::empty(),
    }
}

/// The fields that differ between two versions of one reference: creator,
/// role and stored kernel face id, in that order.
pub open spec fn field_changes(id: Seq<char>, x: TopoRefView, y: TopoRefView) -> Seq<TopoChangeView> {
    (if x.created_by != y.created_by {
        seq![TopoChangeView::Modified { ref_id: id, field: "created_by"@, before: x.created_by, after: y.created_by }]
    } else {
        Seq::empty()
    }) + (if x.role != y.role {
        seq![TopoChangeView::Modified { ref_id: id, field: "role"@, before: text_or_empty(x.role), after: text_or_empty(y.role) }]
    } else {
        Seq::empty()
    }) + (if stored_face_id(x) != stored_face_id(y) {
        seq![TopoChangeView::Modified { ref_id: id, field: "kernel_face_id"@, before: face_id_text(x), after: face_id_text(y) }]
    } else {
        Seq::empty()
    })
}

/// The changes of reference `id` from `b` to `a`.
pub open spec fn ref_changes(b: Seq<TopoRefView>, a: Seq<TopoRefView>, id: Seq<char>) -> Seq<
    TopoChangeView,
> {
    match (last_ref(b, id), last_ref(a, id)) {
        (Some(_), None) => seq![TopoChangeView::Removed { ref_id: id }],
        (None, Some(y)) => seq![TopoChangeView::Added { ref_id: id, created_by: y.created_by, role: y.role }],
        (Some(x), Some(y)) => field_changes(id, x, y),
        (None, None) => Seq::empty(),
    }
}

/// The changes of the references `ids`, in that order.
pub open spec fn topo_changes(b: Seq<TopoRefView>, a: Seq<TopoRefView>, ids: Seq<Seq<char>>) -> Seq<
    TopoChangeView,
>
    decreases ids.len(),
{
    if ids.len() == 0 {
        Seq::empty()
    } else {
        topo_changes(b, a, ids.drop_last()) + ref_changes(b, a, ids.last())
    }
}

fn last_ref_index(refs: &[TopoRef], id: &str) -> (r: Option<usize>)
    ensures
        match r {
            Some(i) => i < refs.len() && last_ref(refs_view(refs@), id@) == Some(
                refs_view(refs@)[i as int],
            ),
            None => last_ref(refs_view(refs@), id@) is None,
        },
{
    let ghost all = refs_view(refs@);
    let mut i: usize = refs.len();
    assert(all.subrange(0, i as int) =~= all);
    while i > 0
        invariant
            i <= refs.len(),
            all == refs_view(refs@),
            last_ref(all, id@) == last_ref(all.subrange(0, i as int), id@),
        decreases i,
    {
        let ghost sub = all.subrange(0, i as int);
        assert(sub.last() == refs@[i - 1]@);
        if str_eq(refs[i - 1].ref_id.as_str(), id) {
            return Some(i - 1);
        }
        assert(sub.drop_last() =~= all.subrange(0, i - 1));
        i = i - 1;
    }
    None
}

proof fn lemma_sorted_insert_all_push(s: Seq<Seq<char>>, xs: Seq<Seq<char>>, x: Seq<char>)
    ensures
        sorted_insert_all(s, xs.push(x)) == sorted_insert(sorted_insert_all(s, xs), x),
{
    assert(xs.push(x).drop_last() =~= xs);
}

fn insert_ref_ids(ids: &mut Vec<String>, refs: &[TopoRef], Ghost(prefix): Ghost<Seq<Seq<char>>>)
    requires
        strictly_sorted(strings_view(old(ids)@)),
        strings_view(old(ids)@) == sorted_insert_all(Seq::empty(), prefix),
    ensures
        strictly_sorted(strings_view(final(ids)@)),
        strings_view(final(ids)@) == sorted_insert_all(
            Seq::empty(),
            prefix + ref_ids(refs_view(refs@)),
        ),
{
    let ghost all = ref_ids(refs_view(refs@));
    let mut i: usize = 0;
    while i < refs.len()
        invariant
            i <= refs.len(),
            all == ref_ids(refs_view(refs@)),
            strictly_sorted(strings_view(ids@)),
            strings_view(ids@) == sorted_insert_all(Seq::empty(), prefix + all.subrange(0, i as int)),
        decreases refs.len() - i,
    {
        proof {
            assert(prefix + all.subrange(0, i + 1) =~= (prefix + all.subrange(0, i as int)).push(
                refs@[i as int].ref_id@,
            ));
            lemma_sorted_insert_all_push(
                Seq::empty(),
                prefix + all.subrange(0, i as int),
                refs@[i as int].ref_id@,
            );
        }
        insert_sorted(ids, refs[i].ref_id.as_str());
        i = i + 1;
    }
    assert(all.subrange(0, i as int) =~= all);
}

proof fn lemma_topo_changes_push(
    b: Seq<TopoRefView>,
    a: Seq<TopoRefView>,
    ids: Seq<Seq<char>>,
    x: Seq<char>,
)
    ensures
        topo_changes(b, a, ids.push(x)) == topo_changes(b, a, ids) + ref_changes(b, a, x),
{
    assert(ids.push(x).drop_last() =~= ids);
}

fn push_modified(
    changes: &mut Vec<SemanticChange>,
    ref_id: &String,
    field: &str,
    before: String,
    after: String,
)
    ensures
        final(changes).len() == old(changes).len() + 1,
        final(changes)@.subrange(0, old(changes).len() as int) == old(changes)@,
        is_topo_change(
            final(changes)@.last(),
            TopoChangeView::Modified { ref_id: ref_id@, field: field@, before: before@, after: after@ },
        ),
{
    changes.push(
        SemanticChange::TopoRefModified { ref_id: ref_id.clone(), field: field.to_owned(), before, after },
    );
    assert(changes@.subrange(0, changes.len() - 1) =~= old(changes)@);
}

/// `changes` are, one for one, the changes `expected`.
pub open spec fn are_topo_changes(changes: Seq<SemanticChange>, expected: Seq<TopoChangeView>) -> bool {
    &&& changes.len() == expected.len()
    &&& forall|k: int| 0 <= k < changes.len() ==> is_topo_change(#[trigger] changes[k], expected[k])
}

proof fn lemma_are_topo_changes_push(
    c: Seq<SemanticChange>,
    e: Seq<TopoChangeView>,
    c2: Seq<SemanticChange>,
    v: TopoChangeView,
)
    requires
        are_topo_changes(c, e),
        c2.len() == c.len() + 1,
        c2.subrange(0, c.len() as int) == c,
        is_topo_change(c2.last(), v),
    ensures
        are_topo_changes(c2, e.push(v)),
{
    assert forall|k: int| 0 <= k < c2.len() implies is_topo_change(#[trigger] c2[k], e.push(v)[k]) by {
        if k < c.len() {
            assert(c2[k] == c2.subrange(0, c.len() as int)[k]);
        }
    }
}

fn clone_opt_string(o: &Option<String>) -> (r: Option<String>)
    ensures
        opt_view(r) == opt_view(*o),
{
    match o {
        Some(s) => Some(s.clone()),
        None => None,
    }
}

fn text_or_empty_of(o: &Option<String>) -> (r: String)
    ensures
        r@ == text_or_empty(opt_view(*o)),
{
    match o {
        Some(s) => s.clone(),
        None => String::new(),
    }
}

fn face_id_string(r: &TopoRef) -> (s: String)
    ensures
        s@ == face_id_text(r@),
{
    match r.kernel_face_id() {
        Some(n) => decimal_string(n),
        None => String::new(),
    }
}

/// Append the changes between two versions of one reference.
fn push_field_changes(changes: &mut Vec<SemanticChange>, id: &String, x: &TopoRef, y: &TopoRef, Ghost(
    expected,
): Ghost<Seq<TopoChangeView>>)
    requires
        are_topo_changes(old(changes)@, expected),
    ensures
        are_topo_changes(final(changes)@, expected + field_changes(id@, x@, y@)),
{
    let ghost mut exp = expected;
    let ghost m1 = if x@.created_by != y@.created_by {
        seq![TopoChangeView::Modified { ref_id: id@, field: "created_by"@, before: x@.created_by, after: y@.created_by }]
    } else {
        Seq::empty()
    };
    let ghost m2 = if x@.role != y@.role {
        seq![TopoChangeView::Modified { ref_id: id@, field: "role"@, before: text_or_empty(x@.role), after: text_or_empty(y@.role) }]
    } else {
        Seq::empty()
    };
    let ghost m3 = if stored_face_id(x@) != stored_face_id(y@) {
        seq![TopoChangeView::Modified { ref_id: id@, field: "kernel_face_id"@, before: face_id_text(x@), after: face_id_text(y@) }]
    } else {
        Seq::empty()
    };
    if !str_eq(x.semantic.created_by.as_str(), y.semantic.created_by.as_str()) {
        let ghost before_push = changes@;
        push_modified(
            changes,
            id,
            "created_by",
            x.semantic.created_by.clone(),
            y.semantic.created_by.clone(),
        );
        proof {
            lemma_are_topo_changes_push(before_push, exp, changes@, m1[0]);
            exp = exp.push(m1[0]);
        }
    }
    assert(exp =~= expected + m1);
    if !crate::refs::opt_str_eq(&x.semantic.role, &y.semantic.role) {
        let ghost before_push = changes@;
        push_modified(
            changes,
            id,
            "role",
            text_or_empty_of(&x.semantic.role),
            text_or_empty_of(&y.semantic.role),
        );
        proof {
            lemma_are_topo_changes_push(before_push, exp, changes@, m2[0]);
            exp = exp.push(m2[0]);
        }
    }
    assert(exp =~= expected + m1 + m2);
    if x.kernel_face_id() != y.kernel_face_id() {
        let ghost before_push = changes@;
        push_modified(changes, id, "kernel_face_id", face_id_string(x), face_id_string(y));
        proof {
            lemma_are_topo_changes_push(before_push, exp, changes@, m3[0]);
            exp = exp.push(m3[0]);
        }
    }
    assert(exp =~= expected + field_changes(id@, x@, y@));
}

/// Compare persisted semantic topology references: for each reference id of
/// either list, in increasing order, a removal, an addition, or the fields
/// that changed; a later reference with the same id replaces an earlier one.
pub fn diff_semantic_refs(before: &[TopoRef], after: &[TopoRef]) -> (changes: Vec<SemanticChange>)
    ensures
        are_topo_changes(
            changes@,
            topo_changes(
                refs_view(before@),
                refs_view(after@),
                diff_ref_ids(refs_view(before@), refs_view(after@)),
            ),
        ),
{
    let ghost b = refs_view(before@);
    let ghost a = refs_view(after@);
    let mut ids: Vec<String> = Vec::new();
    assert(strings_view(ids@) =~= Seq::<Seq<char>>::empty());
    insert_ref_ids(&mut ids, before, Ghost(Seq::empty()));
    assert(Seq::<Seq<char>>::empty() + ref_ids(b) =~= ref_ids(b));
    insert_ref_ids(&mut ids, after, Ghost(ref_ids(b)));
    let ghost all = diff_ref_ids(b, a);
    assert(strings_view(ids@) == all);

    let mut changes: Vec<SemanticChange> = Vec::new();
    let mut i: usize = 0;
    while i < ids.len()
        invariant
            i <= ids.len(),
            b == refs_view(before@),
            a == refs_view(after@),
            strings_view(ids@) == all,
            are_topo_changes(changes@, topo_changes(b, a, all.subrange(0, i as int))),
        decreases ids.len() - i,
    {
        let id = &ids[i];
        let ghost done = topo_changes(b, a, all.subrange(0, i as int));
        proof {
            assert(all[i as int] == id@);
            assert(all.subrange(0, i + 1) =~= all.subrange(0, i as int).push(id@));
            lemma_topo_changes_push(b, a, all.subrange(0, i as int), id@);
        }
        let bi = last_ref_index(before, id.as_str());
        let ai = last_ref_index(after, id.as_str());
        match (bi, ai) {
            (Some(_), None) => {
                let ghost before_push = changes@;
                changes.push(SemanticChange::TopoRefRemoved { ref_id: id.clone() });
                proof {
                    assert(changes@.subrange(0, before_push.len() as int) =~= before_push);
                    lemma_are_topo_changes_push(
                        before_push,
                        done,
                        changes@,
                        TopoChangeView::Removed { ref_id: id@ },
                    );
                    assert(done.push(TopoChangeView::Removed { ref_id: id@ }) =~= done + ref_changes(
                        b,
                        a,
                        id@,
                    ));
                }
            },
            (None, Some(j)) => {
                let ghost before_push = changes@;
                let ghost v = TopoChangeView::Added {
                    ref_id: id@,
                    created_by: a[j as int].created_by,
                    role: a[j as int].role,
                };
                changes.push(
                    SemanticChange::TopoRefAdded {
                        ref_id: id.clone(),
                        created_by: after[j].semantic.created_by.clone(),
                        role: clone_opt_string(&after[j].semantic.role),
                    },
                );
                proof {
                    assert(changes@.subrange(0, before_push.len() as int) =~= before_push);
                    lemma_are_topo_changes_push(before_push, done, changes@, v);
                    assert(done.push(v) =~= done + ref_changes(b, a, id@));
                }
            },
            (Some(x), Some(y)) => {
                if !crate::refs::topo_ref_eq(&before[x], &after[y]) {
                    push_field_changes(&mut changes, id, &before[x], &after[y], Ghost(done));
                } else {
                    assert(field_changes(id@, before@[x as int]@, after@[y as int]@)
                        =~= Seq::<TopoChangeView>::empty());
                    assert(done =~= done + ref_changes(b, a, id@));
                }
            },
            (None, None) => {
                assert(done =~= done + ref_changes(b, a, id@));
            },
        }
        i = i + 1;
    }
    assert(all.subrange(0, i as int) =~= all);
    changes
}

// ---------------------------------------------------------------------------
// Summary
// ---------------------------------------------------------------------------

/// `parts` joined with `sep` between consecutive parts.
pub open spec fn join(parts: Seq<Seq<char>>, sep: Seq<char>) -> Seq<char>
    decreases parts.len(),
{
    if parts.len() == 0 {
        Seq::empty()
    } else if parts.len() == 1 {
        parts[0]
    } else {
        join(parts.drop_last(), sep) + sep + parts.last()
    }
}

/// `{id}: {before} -> {after}` for a parameter change.
pub open spec fn param_text(c: SemanticChange) -> Option<Seq<char>> {
    match c {
        SemanticChange::ParameterChanged { id, before, after } => Some(
            id@ + ": "@ + before@ + " -> "@ + after@,
        ),
        _ => None,
    }
}

/// `, {role}` when a role is given.
pub open spec fn role_suffix(role: Option<Seq<char>>) -> Seq<char> {
    match role {
        Some(r) => ", "@ + r,
        None => Seq::empty(),
    }
}

/// The line for a topology-reference change.
pub open spec fn topo_text(c: SemanticChange) -> Option<Seq<char>> {
    match c {
        SemanticChange::TopoRefAdded { ref_id, created_by, role } => Some(
            "topo ref "@ + ref_id@ + " added ("@ + created_by@ + role_suffix(opt_view(role)) + ")"@,
        ),
        SemanticChange::TopoRefRemoved { ref_id } => Some("topo ref "@ + ref_id@ + " removed"@),
        SemanticChange::TopoRefModified { ref_id, field, before, after } => Some(
            "topo ref "@ + ref_id@ + "."@ + field@ + ": "@ + before@ + " -> "@ + after@,
        ),
        _ => None,
    }
}

/// The parameter line (`topo == false`) or topology line (`topo == true`)
/// of a change.
pub open spec fn line_of(c: SemanticChange, topo: bool) -> Option<Seq<char>> {
    if topo {
        topo_text(c)
    } else {
        param_text(c)
    }
}

/// Every change has a line of the kind.
pub open spec fn all_have_lines(changes: Seq<SemanticChange>, topo: bool) -> bool {
    forall|k: int| 0 <= k < changes.len() ==> (#[trigger] line_of(changes[k], topo)) is Some
}

pub open spec fn lines_of(changes: Seq<SemanticChange>, topo: bool) -> Seq<Seq<char>> {
    changes.map_values(|c: SemanticChange| line_of(c, topo)->0)
}

/// The summary: "No changes"; the parameter lines when every change is a
/// parameter change; the topology lines when every change is a
/// topology-reference change; otherwise the count of changes.
pub open spec fn summary(changes: Seq<SemanticChange>) -> Seq<char> {
    if changes.len() == 0 {
        "No changes"@
    } else if all_have_lines(changes, false) {
        join(lines_of(changes, false), ", "@)
    } else if all_have_lines(changes, true) {
        join(lines_of(changes, true), ", "@)
    } else {
        decimal(changes.len()) + " change(s)"@
    }
}

fn line_for(c: &SemanticChange, topo: bool) -> (r: Option<String>)
    ensures
        opt_view(r) == line_of(*c, topo),
{
    if topo {
        match c {
            SemanticChange::TopoRefAdded { ref_id, created_by, role } => {
                let mut t = "topo ref ".to_owned();
                t.append(ref_id.as_str());
                t.append(" added (");
                t.append(created_by.as_str());
                match role {
                    Some(r) => {
                        t.append(", ");
                        t.append(r.as_str());
                    },
                    None => {},
                }
                t.append(")");
                proof {
                    assert(t@ =~= "topo ref "@ + ref_id@ + " added ("@ + created_by@ + role_suffix(
                        opt_view(*role),
                    ) + ")"@);
                }
                Some(t)
            },
            SemanticChange::TopoRefRemoved { ref_id } => {
                let mut t = "topo ref ".to_owned();
                t.append(ref_id.as_str());
                t.append(" removed");
                Some(t)
            },
            SemanticChange::TopoRefModified { ref_id, field, before, after } => {
                let mut t = "topo ref ".to_owned();
                t.append(ref_id.as_str());
                t.append(".");
                t.append(field.as_str());
                t.append(": ");
                t.append(before.as_str());
                t.append(" -> ");
                t.append(after.as_str());
                Some(t)
            },
            _ => None,
        }
    } else {
        match c {
            SemanticChange::ParameterChanged { id, before, after } => {
                let mut t = id.clone();
                t.append(": ");
                t.append(before.as_str());
                t.append(" -> ");
                t.append(after.as_str());
                Some(t)
            },
            _ => None,
        }
    }
}

/// The lines of every change, or `None` when some change has no line of
/// the kind.
fn lines_for(changes: &[SemanticChange], topo: bool) -> (r: Option<Vec<String>>)
    ensures
        match r {
            Some(v) => all_have_lines(changes@, topo) && strings_view(v@) == lines_of(
                changes@,
                topo,
            ),
            None => !all_have_lines(changes@, topo),
        },
{
    let mut out: Vec<String> = Vec::new();
    let mut i: usize = 0;
    while i < changes.len()
        invariant
            i <= changes.len(),
            all_have_lines(changes@.subrange(0, i as int), topo),
            strings_view(out@) == lines_of(changes@.subrange(0, i as int), topo),
        decreases changes.len() - i,
    {
        let line = line_for(&changes[i], topo);
        match line {
            Some(t) => {
                let ghost old_out = out@;
                out.push(t);
                proof {
                    let sub = changes@.subrange(0, i + 1);
                    assert(sub =~= changes@.subrange(0, i as int).push(changes@[i as int]));
                    assert(strings_view(out@) =~= strings_view(old_out).push(t@));
                    assert(lines_of(sub, topo) =~= lines_of(changes@.subrange(0, i as int), topo).push(
                        t@,
                    ));
                    assert forall|k: int| 0 <= k < sub.len() implies (#[trigger] line_of(
                        sub[k],
                        topo,
                    )) is Some by {
                        if k < i {
                            assert(sub[k] == changes@.subrange(0, i as int)[k]);
                        }
                    }
                }
            },
            None => {
                assert(line_of(changes@[i as int], topo) is None);
                return None;
            },
        }
        i = i + 1;
    }
    assert(changes@.subrange(0, i as int) =~= changes@);
    Some(out)
}

proof fn lemma_join_push(parts: Seq<Seq<char>>, sep: Seq<char>, x: Seq<char>)
    ensures
        join(parts.push(x), sep) == (if parts.len() == 0 {
            x
        } else {
            join(parts, sep) + sep + x
        }),
{
    assert(parts.push(x).drop_last() =~= parts);
}

/// `parts` joined with `sep`.
fn join_strings(parts: &Vec<String>, sep: &str) -> (s: String)
    ensures
        s@ == join(strings_view(parts@), sep@),
{
    let mut s = String::new();
    let mut i: usize = 0;
    while i < parts.len()
        invariant
            i <= parts.len(),
            s@ == join(strings_view(parts@).subrange(0, i as int), sep@),
        decreases parts.len() - i,
    {
        let ghost sub = strings_view(parts@).subrange(0, i as int);
        proof {
            assert(strings_view(parts@).subrange(0, i + 1) =~= sub.push(parts@[i as int]@));
            lemma_join_push(sub, sep@, parts@[i as int]@);
        }
        if i > 0 {
            s.append(sep);
        }
        s.append(parts[i].as_str());
        i = i + 1;
    }
    assert(strings_view(parts@).subrange(0, i as int) =~= strings_view(parts@));
    s
}

/// Build a short human-readable summary from semantic changes.
pub fn build_summary(changes: &[SemanticChange]) -> (s: String)
    ensures
        s@ == summary(changes@),
{
    if changes.len() == 0 {
        return "No changes".to_owned();
    }
    match lines_for(changes, false) {
        Some(lines) => {
            return join_strings(&lines, ", ");
        },
        None => {},
    }
    match lines_for(changes, true) {
        Some(lines) => {
            return join_strings(&lines, ", ");
        },
        None => {},
    }
    let mut s = decimal_string(changes.len() as u64);
    s.append(" change(s)");
    s
}

// ---------------------------------------------------------------------------
// Laws
// ---------------------------------------------------------------------------

/// A graph compared with itself has no parameter changes, whatever ids are
/// looked at.
pub proof fn law_param_diff_with_itself_is_empty(g: ParamGraphView, ids: Seq<Seq<char>>)
    ensures
        param_changes(g, g, ids).len() == 0,
    decreases ids.len(),
{
    if ids.len() > 0 {
        law_param_diff_with_itself_is_empty(g, ids.drop_last());
    }
}

/// A reference list compared with itself has no changes, whatever ids are
/// looked at.
pub proof fn law_topo_diff_with_itself_is_empty(refs: Seq<TopoRefView>, ids: Seq<Seq<char>>)
    ensures
        topo_changes(refs, refs, ids).len() == 0,
    decreases ids.len(),
{
    if ids.len() > 0 {
        law_topo_diff_with_itself_is_empty(refs, ids.drop_last());
        let id = ids.last();
        match last_ref(refs, id) {
            Some(x) => {
                assert(field_changes(id, x, x) =~= Seq::<TopoChangeView>::empty());
            },
            None => {},
        }
    }
}

proof fn lemma_last_ref(refs: Seq<TopoRefView>, id: Seq<char>)
    ensures
        last_ref(refs, id) is None <==> !ref_ids(refs).contains(id),
        last_ref(refs, id) matches Some(r) ==> r.ref_id == id,
    decreases refs.len(),
{
    if refs.len() > 0 {
        let prev = refs.drop_last();
        lemma_last_ref(prev, id);
        assert(ref_ids(refs) =~= ref_ids(prev).push(refs.last().ref_id));
        assert(ref_ids(refs)[refs.len() - 1] == refs.last().ref_id);
        if ref_ids(prev).contains(id) {
            let k = ref_ids(prev).index_of(id);
            assert(ref_ids(refs)[k] == id);
        }
        if ref_ids(refs).contains(id) && refs.last().ref_id != id {
            let k = ref_ids(refs).index_of(id);
            assert(k < refs.len() - 1);
            assert(ref_ids(prev)[k] == id);
        }
    } else {
        assert(ref_ids(refs) =~= Seq::<Seq<char>>::empty());
    }
}

/// Comparing two reference lists goes through every id of either list once,
/// in increasing order; an id only the first list has is reported removed,
/// an id only the second has is reported added with the creator and role of
/// its (last) reference there, and every change listed for an id is about
/// that id.
pub proof fn law_topo_diff_reports_each_id(b: Seq<TopoRefView>, a: Seq<TopoRefView>)
    ensures
        strictly_sorted(diff_ref_ids(b, a)),
        forall|x: Seq<char>| #[trigger] diff_ref_ids(b, a).contains(x) <==> (ref_ids(b).contains(x)
            || ref_ids(a).contains(x)),
        forall|x: Seq<char>|
            ref_ids(b).contains(x) && !ref_ids(a).contains(x) ==> #[trigger] ref_changes(b, a, x)
                == seq![TopoChangeView::Removed { ref_id: x }],
        forall|x: Seq<char>|
            !ref_ids(b).contains(x) && ref_ids(a).contains(x) ==> #[trigger] ref_changes(b, a, x)
                == seq![
                TopoChangeView::Added {
                    ref_id: x,
                    created_by: last_ref(a, x)->0.created_by,
                    role: last_ref(a, x)->0.role,
                },
            ],
        forall|x: Seq<char>, k: int|
            0 <= k < ref_changes(b, a, x).len() ==> match #[trigger] ref_changes(b, a, x)[k] {
                TopoChangeView::Added { ref_id, .. } => ref_id == x,
                TopoChangeView::Removed { ref_id } => ref_id == x,
                TopoChangeView::Modified { ref_id, .. } => ref_id == x,
            },
{
    lemma_sorted_insert_all(ref_ids(b) + ref_ids(a));
    assert forall|x: Seq<char>| #[trigger] diff_ref_ids(b, a).contains(x) <==> (ref_ids(b).contains(
        x,
    ) || ref_ids(a).contains(x)) by {
        let all = ref_ids(b) + ref_ids(a);
        if all.contains(x) {
            let k = all.index_of(x);
            if k < ref_ids(b).len() {
                assert(ref_ids(b)[k] == x);
            } else {
                assert(ref_ids(a)[k - ref_ids(b).len()] == x);
            }
        }
        if ref_ids(b).contains(x) {
            assert(all[ref_ids(b).index_of(x)] == x);
        }
        if ref_ids(a).contains(x) {
            assert(all[ref_ids(b).len() + ref_ids(a).index_of(x)] == x);
        }
    }
    assert forall|x: Seq<char>|
        ref_ids(b).contains(x) && !ref_ids(a).contains(x) implies #[trigger] ref_changes(b, a, x)
        == seq![TopoChangeView::Removed { ref_id: x }] by {
        lemma_last_ref(b, x);
        lemma_last_ref(a, x);
    }
    assert forall|x: Seq<char>|
        !ref_ids(b).contains(x) && ref_ids(a).contains(x) implies #[trigger] ref_changes(b, a, x)
        == seq![
        TopoChangeView::Added {
            ref_id: x,
            created_by: last_ref(a, x)->0.created_by,
            role: last_ref(a, x)->0.role,
        },
    ] by {
        lemma_last_ref(b, x);
        lemma_last_ref(a, x);
    }
}

} // verus!

//! Keeping persisted semantic references in step with the faces a kernel
//! reports: rebinding through derivation history, merging discovered faces,
//! naming faces, and the order references are kept in.
use vstd::prelude::*;
use crate::error::CadError;
use crate::order::{lex_lt, str_lt};
use crate::refs::{
    opt_view, refs_view, stored_face_id, strings_view, FingerprintView, GeometricFingerprint,
    TopoRef, TopoRefKind, TopoRefView,
};
use crate::text::str_eq;
use crate::topo_sync::{
    build_src_to_post_map, first_named, first_with_face, kernel_ref_name, kernel_topo_ref_id,
    lemma_first_named, lemma_first_with_face, src_to_post_spec, FaceDerivation,
};

verus! {

broadcast use vstd::std_specs::hash::group_hash_axioms;

/// A B-Rep face discovered from tessellation and feature inference. The
/// normal and centroid are the bits of their `f64` values (widened from the
/// kernel's `f32`).
#[derive(Debug, Clone, PartialEq, Eq)]
pub struct FaceRefDiscovery {
    pub kernel_face_id: u64,
    pub role: String,
    pub normal_bits: [u64; 3],
    pub centroid_bits: [u64; 3],
    pub feature_id: Option<String>,
}

// ---------------------------------------------------------------------------
// Order of references
// ---------------------------------------------------------------------------

/// Where a reference named `key` goes among `s`: after every reference
/// whose id is not above it.
pub open spec fn insert_pos(s: Seq<TopoRefView>, key: Seq<char>, from: int) -> int
    decreases s.len() - from,
{
    if from < 0 || from >= s.len() {
        s.len() as int
    } else if lex_lt(key, s[from].ref_id) {
        from
    } else {
        insert_pos(s, key, from + 1)
    }
}

/// References in increasing order of id; references with equal ids keep
/// their order (a stable sort).
pub open spec fn sorted_by_id(s: Seq<TopoRefView>) -> Seq<TopoRefView>
    decreases s.len(),
{
    if s.len() == 0 {
        s
    } else {
        let t = sorted_by_id(s.drop_last());
        t.insert(insert_pos(t, s.last().ref_id, 0), s.last())
    }
}

proof fn lemma_insert_pos_bounds(s: Seq<TopoRefView>, key: Seq<char>, from: int)
    requires
        0 <= from <= s.len(),
    ensures
        from <= insert_pos(s, key, from) <= s.len(),
    decreases s.len() - from,
{
    if from < s.len() && !lex_lt(key, s[from].ref_id) {
        lemma_insert_pos_bounds(s, key, from + 1);
    }
}

/// Sort references by id, keeping the order of equal ids.
pub fn sort_refs_by_id(refs: &mut Vec<TopoRef>)
    ensures
        refs_view(final(refs)@) == sorted_by_id(refs_view(old(refs)@)),
{
    let mut rest: Vec<TopoRef> = Vec::new();
    std::mem::swap(refs, &mut rest);
    let ghost input = refs_view(rest@);
    let mut taken: usize = 0;
    assert(input.len() == rest.len());
    assert(refs_view(refs@) =~= sorted_by_id(input.subrange(0, 0)));
    while rest.len() > 0
        invariant
            taken + rest.len() == input.len(),
            input.len() <= usize::MAX,
            refs_view(rest@) == input.subrange(taken as int, input.len() as int),
            refs_view(refs@) == sorted_by_id(input.subrange(0, taken as int)),
        decreases rest.len(),
    {
        let ghost old_rest = rest@;
        let x = rest.remove(0);
        let ghost t = refs_view(refs@);
        proof {
            assert(refs_view(old_rest)[0] == old_rest[0]@);
            assert(input.subrange(taken as int, input.len() as int)[0] == input[taken as int]);
            assert(x@ == input[taken as int]);
            assert(rest@ =~= old_rest.subrange(1, old_rest.len() as int));
            assert(input.subrange(0, taken + 1).drop_last() =~= input.subrange(0, taken as int));
            assert forall|k: int| 0 <= k < rest@.len() implies #[trigger] refs_view(rest@)[k]
                == input[taken + 1 + k] by {
                assert(rest@[k] == old_rest[k + 1]);
                assert(refs_view(old_rest)[k + 1] == old_rest[k + 1]@);
                assert(input.subrange(taken as int, input.len() as int)[k + 1] == input[taken + 1 + k]);
            }
            assert(refs_view(rest@) =~= input.subrange(taken + 1, input.len() as int));
            lemma_insert_pos_bounds(t, x@.ref_id, 0);
        }
        let mut p: usize = 0;
        while p < refs.len() && !str_lt(x.ref_id.as_str(), refs[p].ref_id.as_str())
            invariant
                t == refs_view(refs@),
                p <= refs.len(),
                insert_pos(t, x@.ref_id, 0) == insert_pos(t, x@.ref_id, p as int),
            decreases refs.len() - p,
        {
            p = p + 1;
        }
        refs.insert(p, x);
        assert(refs_view(refs@) =~= t.insert(p as int, x@));
        taken = taken + 1;
    }
    assert(input.subrange(0, taken as int) =~= input);
}

/// Reference ids never decrease along a sorted list.
pub open spec fn ids_in_order(s: Seq<TopoRefView>) -> bool {
    forall|i: int, j: int| 0 <= i < j < s.len() ==> !lex_lt(#[trigger] s[j].ref_id, #[trigger] s[i].ref_id)
}

proof fn lemma_insert_pos_splits(s: Seq<TopoRefView>, key: Seq<char>, from: int)
    requires
        0 <= from <= s.len(),
        ids_in_order(s),
        forall|k: int| 0 <= k < from ==> !lex_lt(key, #[trigger] s[k].ref_id),
    ensures
        forall|k: int| 0 <= k < insert_pos(s, key, from) ==> !lex_lt(key, #[trigger] s[k].ref_id),
        forall|k: int| insert_pos(s, key, from) <= k < s.len() ==> lex_lt(key, #[trigger] s[k].ref_id),
    decreases s.len() - from,
{
    if from < s.len() {
        if lex_lt(key, s[from].ref_id) {
            assert forall|k: int| from <= k < s.len() implies lex_lt(key, #[trigger] s[k].ref_id) by {
                if k > from {
                    crate::order::lemma_lex_total(s[from].ref_id, s[k].ref_id);
                    if s[from].ref_id != s[k].ref_id {
                        crate::order::lemma_lex_transitive(key, s[from].ref_id, s[k].ref_id);
                    }
                }
            }
        } else {
            lemma_insert_pos_splits(s, key, from + 1);
        }
    }
}

/// Sorting by id puts the ids in order.
pub proof fn law_sorted_refs_are_in_id_order(s: Seq<TopoRefView>)
    ensures
        ids_in_order(sorted_by_id(s)),
        sorted_by_id(s).len() == s.len(),
    decreases s.len(),
{
    if s.len() > 0 {
        let t = sorted_by_id(s.drop_last());
        law_sorted_refs_are_in_id_order(s.drop_last());
        let key = s.last().ref_id;
        let p = insert_pos(t, key, 0);
        lemma_insert_pos_bounds(t, key, 0);
        lemma_insert_pos_splits(t, key, 0);
        let u = t.insert(p, s.last());
        assert forall|i: int, j: int| 0 <= i < j < u.len() implies !lex_lt(
            #[trigger] u[j].ref_id,
            #[trigger] u[i].ref_id,
        ) by {
            if i < p && j == p {
            } else if i == p && j > p {
                crate::order::lemma_lex_asymmetric(key, t[j - 1].ref_id);
            } else if i < p && j > p {
                assert(u[i] == t[i]);
                assert(u[j] == t[j - 1]);
            } else if j < p {
                assert(u[i] == t[i]);
                assert(u[j] == t[j]);
            } else {
                assert(u[i] == t[i - 1]);
                assert(u[j] == t[j - 1]);
            }
        }
    }
}

// ---------------------------------------------------------------------------
// Rebinding through derivation history
// ---------------------------------------------------------------------------

/// The reference with its stored kernel face id moved along the history,
/// when the history maps it to another face.
pub open spec fn rebound(r: TopoRefView, remap: Map<u64, u64>) -> TopoRefView {
    match stored_face_id(r) {
        Some(id) => if remap.contains_key(id) && remap[id] != id {
            TopoRefView {
                fingerprint: Some(FingerprintView { kernel_face_id: Some(remap[id]), ..r.fingerprint->0 }),
                ..r
            }
        } else {
            r
        },
        None => r,
    }
}

/// Every reference rebound through the history.
pub open spec fn rebound_all(refs: Seq<TopoRefView>, history: Seq<FaceDerivation>) -> Seq<TopoRefView> {
    refs.map_values(|r: TopoRefView| rebound(r, src_to_post_spec(history)))
}

/// Update persisted `kernel_face_id` values using `[post_id, src_id]`
/// history pairs: each stored face id moves to the end of its derivation
/// chain.
pub fn rebind_kernel_face_ids(semantic_refs: &mut Vec<TopoRef>, history: &[FaceDerivation])
    ensures
        refs_view(final(semantic_refs)@) == rebound_all(refs_view(old(semantic_refs)@), history@),
{
    let ghost before = refs_view(semantic_refs@);
    if history.len() == 0 {
        proof {
            assert(src_to_post_spec(history@) =~= Map::empty()) by {
                assert(crate::topo_sync::last_post_map(history@) =~= Map::empty());
            }
            assert(refs_view(semantic_refs@) =~= before.map_values(
                |r: TopoRefView| rebound(r, src_to_post_spec(history@)),
            ));
        }
        return;
    }
    let remap = build_src_to_post_map(history);
    let ghost m = src_to_post_spec(history@);
    let mut i: usize = 0;
    while i < semantic_refs.len()
        invariant
            remap@ == m,
            m == src_to_post_spec(history@),
            i <= semantic_refs.len(),
            semantic_refs.len() == before.len(),
            before == refs_view(old(semantic_refs)@),
            forall|k: int| 0 <= k < i ==> #[trigger] refs_view(semantic_refs@)[k] == rebound(before[k], m),
            forall|k: int| i <= k < semantic_refs.len() ==> #[trigger] refs_view(semantic_refs@)[k] == before[k],
        decreases semantic_refs.len() - i,
    {
        let stored = semantic_refs[i].kernel_face_id();
        assert(refs_view(semantic_refs@)[i as int] == before[i as int]);
        assert(stored == stored_face_id(before[i as int]));
        match stored {
            Some(stored_id) => {
                match remap.get(&stored_id) {
                    Some(new_id) => {
                        let new_id = *new_id;
                        if new_id != stored_id {
                            let ghost pre = semantic_refs@;
                            let mut r = semantic_refs.remove(i);
                            let ghost old_r = r@;
                            match r.geometric_fingerprint {
                                Some(ref mut fingerprint) => {
                                    fingerprint.kernel_face_id = Some(new_id);
                                },
                                None => {},
                            }
                            assert(r@ == rebound(old_r, m));
                            semantic_refs.insert(i, r);
                            assert(semantic_refs@ =~= pre.update(i as int, r));
                            assert(refs_view(semantic_refs@) =~= refs_view(pre).update(i as int, r@));
                        }
                        assert(refs_view(semantic_refs@)[i as int] == rebound(before[i as int], m));
                    },
                    None => {
                        assert(refs_view(semantic_refs@)[i as int] == rebound(before[i as int], m));
                    },
                }
            },
            None => {
                assert(refs_view(semantic_refs@)[i as int] == rebound(before[i as int], m));
            },
        }
        proof {
            assert forall|k: int| 0 <= k < i + 1 implies #[trigger] refs_view(semantic_refs@)[k]
                == rebound(before[k], m) by {}
        }
        i = i + 1;
    }
    assert(refs_view(semantic_refs@) =~= before.map_values(|r: TopoRefView| rebound(r, m)));
}

// ---------------------------------------------------------------------------
// Merging discovered faces
// ---------------------------------------------------------------------------

/// The fingerprint recorded for a discovered face.
pub open spec fn discovery_fingerprint(d: FaceRefDiscovery) -> FingerprintView {
    FingerprintView {
        surface_type: "brep_face"@,
        kernel_face_id: Some(d.kernel_face_id),
        kernel_edge_id: None,
        area_range: None,
        bbox_hint: Some([d.centroid_bits, d.centroid_bits]),
        adjacent_feature_ids: match d.feature_id {
            Some(f) => seq![f@],
            None => Seq::empty(),
        },
    }
}

/// A reference created by `feature` with the role `role`.
pub open spec fn is_role_candidate(r: TopoRefView, feature: Seq<char>, role: Seq<char>) -> bool {
    r.created_by == feature && r.role == Some(role)
}

/// The first role candidate at `from` or later that stores no kernel face.
pub open spec fn first_free_candidate(
    refs: Seq<TopoRefView>,
    feature: Seq<char>,
    role: Seq<char>,
    from: int,
) -> Option<int>
    decreases refs.len() - from,
{
    if from < 0 || from >= refs.len() {
        None
    } else if is_role_candidate(refs[from], feature, role) && stored_face_id(refs[from]) is None {
        Some(from)
    } else {
        first_free_candidate(refs, feature, role, from + 1)
    }
}

pub open spec fn has_candidate(refs: Seq<TopoRefView>, feature: Seq<char>, role: Seq<char>) -> bool {
    exists|k: int| 0 <= k < refs.len() && is_role_candidate(#[trigger] refs[k], feature, role)
}

/// The indexes below `n` of the references created by `feature` with `role`,
/// in order.
pub open spec fn candidates_below(refs: Seq<TopoRefView>, feature: Seq<char>, role: Seq<char>, n: int) -> Seq<usize>
    decreases n,
{
    if n <= 0 {
        Seq::empty()
    } else if is_role_candidate(refs[n - 1], feature, role) {
        candidates_below(refs, feature, role, n - 1).push((n - 1) as usize)
    } else {
        candidates_below(refs, feature, role, n - 1)
    }
}

/// The indexes of the role candidates of a discovery, in order; none when
/// the discovery names no feature.
pub open spec fn candidate_indices(refs: Seq<TopoRefView>, d: FaceRefDiscovery) -> Seq<usize> {
    match d.feature_id {
        Some(f) => candidates_below(refs, f@, d.role@, refs.len() as int),
        None => Seq::empty(),
    }
}

/// The discovery matches no stored face and no free role candidate, but
/// some role candidate: the best-scoring candidate takes it.
pub open spec fn needs_best(refs: Seq<TopoRefView>, d: FaceRefDiscovery) -> bool {
    &&& first_with_face(refs, d.kernel_face_id, 0) is None
    &&& d.feature_id is Some
    &&& first_free_candidate(refs, d.feature_id->0@, d.role@, 0) is None
    &&& has_candidate(refs, d.feature_id->0@, d.role@)
}

/// `best`, when given, is a role candidate; it is given when needed.
pub open spec fn best_ok(refs: Seq<TopoRefView>, d: FaceRefDiscovery, best: Option<usize>) -> bool {
    &&& needs_best(refs, d) ==> best is Some
    &&& best matches Some(i) ==> i < refs.len() && d.feature_id is Some && is_role_candidate(
        refs[i as int],
        d.feature_id->0@,
        d.role@,
    )
}

/// A role candidate taking the discovered face: fingerprint and normal.
pub open spec fn claimed(r: TopoRefView, d: FaceRefDiscovery) -> TopoRefView {
    TopoRefView {
        fingerprint: Some(discovery_fingerprint(d)),
        normal_hint: Some(d.normal_bits),
        ..r
    }
}

/// The reference created for a face no reference claims.
pub open spec fn discovered_ref(d: FaceRefDiscovery) -> TopoRefView {
    TopoRefView {
        ref_id: kernel_ref_name(d.kernel_face_id),
        kind: TopoRefKind::Face,
        created_by: match d.feature_id {
            Some(f) => f@,
            None => "feature:active_body"@,
        },
        role: Some(d.role@),
        normal_hint: Some(d.normal_bits),
        intent: None,
        fingerprint: Some(
            FingerprintView {
                surface_type: "brep_face"@,
                kernel_face_id: Some(d.kernel_face_id),
                kernel_edge_id: None,
                area_range: None,
                bbox_hint: None,
                adjacent_feature_ids: Seq::empty(),
            },
        ),
        fallback_query: None,
    }
}

/// One discovered face merged into the references: the reference storing
/// its face id is refreshed; else the first role candidate without a face
/// id claims it; else the best-scoring role candidate does; else a new
/// reference is added.
pub open spec fn merged(refs: Seq<TopoRefView>, d: FaceRefDiscovery, best: Option<usize>) -> Seq<
    TopoRefView,
> {
    match first_with_face(refs, d.kernel_face_id, 0) {
        Some(i) => refs.update(
            i,
            TopoRefView {
                fingerprint: Some(discovery_fingerprint(d)),
                created_by: match d.feature_id {
                    Some(f) => f@,
                    None => refs[i].created_by,
                },
                role: if d.role@.len() > 0 {
                    Some(d.role@)
                } else {
                    refs[i].role
                },
                ..refs[i]
            },
        ),
        None => match d.feature_id {
            Some(f) => match first_free_candidate(refs, f@, d.role@, 0) {
                Some(i) => refs.update(i, claimed(refs[i], d)),
                None => if has_candidate(refs, f@, d.role@) {
                    refs.update(best->0 as int, claimed(refs[best->0 as int], d))
                } else {
                    refs.push(discovered_ref(d))
                },
            },
            None => refs.push(discovered_ref(d)),
        },
    }
}

proof fn lemma_first_free_candidate(refs: Seq<TopoRefView>, feature: Seq<char>, role: Seq<char>, from: int)
    ensures
        first_free_candidate(refs, feature, role, from) matches Some(i) ==> from <= i < refs.len()
            && is_role_candidate(refs[i], feature, role) && stored_face_id(refs[i]) is None,
    decreases refs.len() - from,
{
    if !(from < 0 || from >= refs.len()) && !(is_role_candidate(refs[from], feature, role)
        && stored_face_id(refs[from]) is None) {
        lemma_first_free_candidate(refs, feature, role, from + 1);
    }
}

fn is_candidate(r: &TopoRef, feature: &String, role: &String) -> (b: bool)
    ensures
        b == is_role_candidate(r@, feature@, role@),
{
    str_eq(r.semantic.created_by.as_str(), feature.as_str()) && match &r.semantic.role {
        Some(x) => str_eq(x.as_str(), role.as_str()),
        None => false,
    }
}

/// Indexes of the references created by the discovery's feature with its
/// role, in order; none when the discovery names no feature.
pub fn role_candidates(refs: &[TopoRef], discovery: &FaceRefDiscovery) -> (idx: Vec<usize>)
    ensures
        idx@ == candidate_indices(refs_view(refs@), *discovery),
        forall|a: int, b: int| 0 <= a < b < idx.len() ==> idx[a] < idx[b],
        forall|a: int| 0 <= a < idx.len() ==> #[trigger] idx[a] < refs.len(),
        forall|k: int|
            0 <= k < refs.len() ==> (idx@.contains(k as usize) <==> discovery.feature_id is Some
                && is_role_candidate(
                #[trigger] refs@[k]@,
                discovery.feature_id->0@,
                discovery.role@,
            )),
{
    let mut idx: Vec<usize> = Vec::new();
    match &discovery.feature_id {
        None => {
            assert(idx@ =~= Seq::<usize>::empty());
            return idx;
        },
        Some(feature) => {
            let mut i: usize = 0;
            while i < refs.len()
                invariant
                    i <= refs.len(),
                    discovery.feature_id == Some(*feature),
                    idx@ == candidates_below(refs_view(refs@), feature@, discovery.role@, i as int),
                    forall|a: int, b: int| 0 <= a < b < idx.len() ==> idx[a] < idx[b],
                    forall|a: int| 0 <= a < idx.len() ==> #[trigger] idx[a] < i,
                    forall|k: int|
                        0 <= k < i ==> (idx@.contains(k as usize) <==> is_role_candidate(
                            #[trigger] refs@[k]@,
                            feature@,
                            discovery.role@,
                        )),
                decreases refs.len() - i,
            {
                let ghost old_idx = idx@;
                assert(refs_view(refs@)[i as int] == refs@[i as int]@);
                if is_candidate(&refs[i], feature, &discovery.role) {
                    idx.push(i);
                    assert(idx@[idx.len() - 1] == i);
                }
                proof {
                    assert forall|k: int| 0 <= k < i + 1 implies (idx@.contains(k as usize)
                        <==> is_role_candidate(#[trigger] refs@[k]@, feature@, discovery.role@)) by {
                        if idx@.contains(k as usize) {
                            let a = idx@.index_of(k as usize);
                            assert(idx[a] == k);
                        }
                        if k == i && is_role_candidate(refs@[k]@, feature@, discovery.role@) {
                            assert(idx@[idx.len() - 1] == k);
                        }
                        if k < i && is_role_candidate(refs@[k]@, feature@, discovery.role@) {
                            assert(old_idx.contains(k as usize));
                            let a = old_idx.index_of(k as usize);
                            assert(idx@[a] == k);
                        }
                    }
                }
                i = i + 1;
            }
            idx
        },
    }
}

fn first_free(refs: &Vec<TopoRef>, feature: &String, role: &String) -> (r: Option<usize>)
    ensures
        match r {
            Some(i) => first_free_candidate(refs_view(refs@), feature@, role@, 0) == Some(i as int),
            None => first_free_candidate(refs_view(refs@), feature@, role@, 0) is None,
        },
{
    let ghost v = refs_view(refs@);
    let mut i: usize = 0;
    while i < refs.len()
        invariant
            i <= refs.len(),
            v == refs_view(refs@),
            first_free_candidate(v, feature@, role@, 0) == first_free_candidate(
                v,
                feature@,
                role@,
                i as int,
            ),
        decreases refs.len() - i,
    {
        if is_candidate(&refs[i], feature, role) && refs[i].kernel_face_id().is_none() {
            return Some(i);
        }
        i = i + 1;
    }
    None
}

fn any_candidate(refs: &Vec<TopoRef>, feature: &String, role: &String) -> (b: bool)
    ensures
        b == has_candidate(refs_view(refs@), feature@, role@),
{
    let ghost v = refs_view(refs@);
    let mut i: usize = 0;
    while i < refs.len()
        invariant
            i <= refs.len(),
            v == refs_view(refs@),
            forall|k: int| 0 <= k < i ==> !is_role_candidate(#[trigger] v[k], feature@, role@),
        decreases refs.len() - i,
    {
        if is_candidate(&refs[i], feature, role) {
            assert(is_role_candidate(v[i as int], feature@, role@));
            return true;
        }
        i = i + 1;
    }
    false
}

fn fingerprint_of(d: &FaceRefDiscovery) -> (f: GeometricFingerprint)
    ensures
        f@ == discovery_fingerprint(*d),
{
    let mut adjacent: Vec<String> = Vec::new();
    match &d.feature_id {
        Some(feature) => {
            adjacent.push(feature.clone());
        },
        None => {},
    }
    assert(strings_view(adjacent@) =~= discovery_fingerprint(*d).adjacent_feature_ids);
    GeometricFingerprint {
        surface_type: "brep_face".to_owned(),
        kernel_face_id: Some(d.kernel_face_id),
        kernel_edge_id: None,
        area_range: None,
        bbox_hint: Some([d.centroid_bits, d.centroid_bits]),
        adjacent_feature_ids: adjacent,
    }
}

/// Replace the reference at `i` by `f(reference)`, in place.
fn claim_at(refs: &mut Vec<TopoRef>, i: usize, d: &FaceRefDiscovery)
    requires
        i < old(refs).len(),
    ensures
        refs_view(final(refs)@) == refs_view(old(refs)@).update(
            i as int,
            claimed(refs_view(old(refs)@)[i as int], *d),
        ),
{
    let ghost pre = refs@;
    let mut r = refs.remove(i);
    assert(r == pre[i as int]);
    r.geometric_fingerprint = Some(fingerprint_of(d));
    r.semantic.normal_hint = Some(d.normal_bits);
    refs.insert(i, r);
    assert(refs@ =~= pre.update(i as int, r));
    assert(refs_view(refs@) =~= refs_view(pre).update(i as int, claimed(pre[i as int]@, *d)));
}

fn discovered(d: &FaceRefDiscovery) -> (r: TopoRef)
    ensures
        r@ == discovered_ref(*d),
{
    let created_by = match &d.feature_id {
        Some(f) => f.clone(),
        None => "feature:active_body".to_owned(),
    };
    TopoRef::kernel_face(
        kernel_topo_ref_id(d.kernel_face_id),
        created_by,
        d.role.clone(),
        d.kernel_face_id,
        d.normal_bits,
    )
}

/// Merge one discovered kernel face into persisted semantic references.
/// `best` is the role candidate that the geometric fingerprint score
/// prefers, for the case where only scoring can decide.
pub fn merge_discovery(refs: &mut Vec<TopoRef>, discovery: &FaceRefDiscovery, best: Option<usize>)
    requires
        best_ok(refs_view(old(refs)@), *discovery, best),
    ensures
        refs_view(final(refs)@) == merged(refs_view(old(refs)@), *discovery, best),
{
    let ghost v = refs_view(refs@);
    match crate::topo_sync::find_face(refs.as_slice(), discovery.kernel_face_id) {
        Some(i) => {
            proof {
                lemma_first_with_face(v, discovery.kernel_face_id, 0);
            }
            let ghost pre = refs@;
            let mut r = refs.remove(i);
            assert(r == pre[i as int]);
            r.geometric_fingerprint = Some(fingerprint_of(discovery));
            match &discovery.feature_id {
                Some(f) => {
                    r.semantic.created_by = f.clone();
                },
                None => {},
            }
            if discovery.role.as_str().unicode_len() > 0 {
                r.semantic.role = Some(discovery.role.clone());
            }
            refs.insert(i, r);
            assert(refs@ =~= pre.update(i as int, r));
            assert(refs_view(refs@) =~= merged(v, *discovery, best));
            return;
        },
        None => {},
    }
    match &discovery.feature_id {
        Some(feature) => {
            match first_free(refs, feature, &discovery.role) {
                Some(i) => {
                    proof {
                        lemma_first_free_candidate(v, feature@, discovery.role@, 0);
                    }
                    claim_at(refs, i, discovery);
                    return;
                },
                None => {},
            }
            if any_candidate(refs, feature, &discovery.role) {
                match best {
                    Some(i) => {
                        claim_at(refs, i, discovery);
                    },
                    None => {},
                }
                return;
            }
        },
        None => {},
    }
    let r = discovered(discovery);
    refs.push(r);
    assert(refs_view(refs@) =~= v.push(r@));
}

// ---------------------------------------------------------------------------
// Naming faces
// ---------------------------------------------------------------------------

/// The fingerprint of a reference pinned to a kernel face.
pub open spec fn face_fingerprint(kernel_face_id: u64) -> FingerprintView {
    FingerprintView {
        surface_type: "brep_face"@,
        kernel_face_id: Some(kernel_face_id),
        kernel_edge_id: None,
        area_range: None,
        bbox_hint: None,
        adjacent_feature_ids: Seq::empty(),
    }
}

/// The references after naming kernel face `face`: the reference storing
/// it is renamed and refreshed in place; otherwise a new reference is added
/// and the list is sorted by id.
pub open spec fn assigned_face(
    refs: Seq<TopoRefView>,
    face: u64,
    ref_id: Seq<char>,
    created_by: Seq<char>,
    role: Seq<char>,
    normal: [u64; 3],
) -> Seq<TopoRefView> {
    match first_with_face(refs, face, 0) {
        Some(i) => refs.update(
            i,
            TopoRefView {
                ref_id,
                created_by,
                role: Some(role),
                fingerprint: Some(face_fingerprint(face)),
                normal_hint: Some(normal),
                ..refs[i]
            },
        ),
        None => sorted_by_id(
            refs.push(
                TopoRefView {
                    ref_id,
                    kind: TopoRefKind::Face,
                    created_by,
                    role: Some(role),
                    normal_hint: Some(normal),
                    intent: None,
                    fingerprint: Some(face_fingerprint(face)),
                    fallback_query: None,
                },
            ),
        ),
    }
}

/// Name kernel face `kernel_face_id` as `ref_id`.
pub fn assign_face_ref_to_refs(
    semantic_refs: &mut Vec<TopoRef>,
    kernel_face_id: u64,
    ref_id: String,
    created_by: String,
    role: String,
    normal_bits: [u64; 3],
) -> (r: Result<(), CadError>)
    ensures
        r is Ok,
        refs_view(final(semantic_refs)@) == assigned_face(
            refs_view(old(semantic_refs)@),
            kernel_face_id,
            ref_id@,
            created_by@,
            role@,
            normal_bits,
        ),
{
    let ghost v = refs_view(semantic_refs@);
    let ghost (rid, cb, ro) = (ref_id@, created_by@, role@);
    match crate::topo_sync::find_face(semantic_refs.as_slice(), kernel_face_id) {
        Some(i) => {
            proof {
                lemma_first_with_face(v, kernel_face_id, 0);
            }
            let ghost pre = semantic_refs@;
            let mut r = semantic_refs.remove(i);
            assert(r == pre[i as int]);
            r.ref_id = ref_id;
            r.semantic.created_by = created_by;
            r.semantic.role = Some(role);
            let adjacent: Vec<String> = Vec::new();
            assert(strings_view(adjacent@) =~= Seq::<Seq<char>>::empty());
            r.geometric_fingerprint = Some(
                GeometricFingerprint {
                    surface_type: "brep_face".to_owned(),
                    kernel_face_id: Some(kernel_face_id),
                    kernel_edge_id: None,
                    area_range: None,
                    bbox_hint: None,
                    adjacent_feature_ids: adjacent,
                },
            );
            r.semantic.normal_hint = Some(normal_bits);
            semantic_refs.insert(i, r);
            assert(semantic_refs@ =~= pre.update(i as int, r));
            assert(refs_view(semantic_refs@) =~= assigned_face(
                v,
                kernel_face_id,
                rid,
                cb,
                ro,
                normal_bits,
            ));
            Ok(())
        },
        None => {
            let r = TopoRef::kernel_face(ref_id, created_by, role, kernel_face_id, normal_bits);
            semantic_refs.push(r);
            assert(refs_view(semantic_refs@) =~= v.push(r@));
            sort_refs_by_id(semantic_refs);
            Ok(())
        },
    }
}

/// The references after naming `ref_id`: with a kernel face id other than
/// zero, as for [`assign_face_ref_to_refs`]; otherwise the reference of that
/// name is updated in place, or a new face reference is added and the list
/// is sorted by id.
pub open spec fn assigned_named(
    refs: Seq<TopoRefView>,
    ref_id: Seq<char>,
    created_by: Seq<char>,
    role: Seq<char>,
    kernel_face_id: Option<u64>,
    normal: [u64; 3],
) -> Seq<TopoRefView> {
    match kernel_face_id {
        Some(face) if face != 0 => assigned_face(refs, face, ref_id, created_by, role, normal),
        _ => match first_named(refs, ref_id, 0) {
            Some(i) => refs.update(
                i,
                TopoRefView { created_by, role: Some(role), normal_hint: Some(normal), ..refs[i] },
            ),
            None => sorted_by_id(
                refs.push(
                    TopoRefView {
                        ref_id,
                        kind: TopoRefKind::Face,
                        created_by,
                        role: Some(role),
                        normal_hint: Some(normal),
                        intent: None,
                        fingerprint: None,
                        fallback_query: None,
                    },
                ),
            ),
        },
    }
}

/// Assign or update a named face ref, with optional kernel face id.
pub fn assign_named_face_ref(
    semantic_refs: &mut Vec<TopoRef>,
    ref_id: String,
    created_by: String,
    role: String,
    kernel_face_id: Option<u64>,
    normal_bits: [u64; 3],
) -> (r: Result<(), CadError>)
    ensures
        r is Ok,
        refs_view(final(semantic_refs)@) == assigned_named(
            refs_view(old(semantic_refs)@),
            ref_id@,
            created_by@,
            role@,
            kernel_face_id,
            normal_bits,
        ),
{
    match kernel_face_id {
        Some(face) => {
            if face != 0 {
                return assign_face_ref_to_refs(
                    semantic_refs,
                    face,
                    ref_id,
                    created_by,
                    role,
                    normal_bits,
                );
            }
        },
        None => {},
    }
    let ghost v = refs_view(semantic_refs@);
    let ghost (cb, ro) = (created_by@, role@);
    match crate::topo_sync::find_named(semantic_refs.as_slice(), ref_id.as_str()) {
        Some(i) => {
            proof {
                lemma_first_named(v, ref_id@, 0);
            }
            let ghost pre = semantic_refs@;
            let mut r = semantic_refs.remove(i);
            assert(r == pre[i as int]);
            r.semantic.created_by = created_by;
            r.semantic.role = Some(role);
            r.semantic.normal_hint = Some(normal_bits);
            semantic_refs.insert(i, r);
            assert(semantic_refs@ =~= pre.update(i as int, r));
            assert(refs_view(semantic_refs@) =~= v.update(
                i as int,
                TopoRefView { created_by: cb, role: Some(ro), normal_hint: Some(normal_bits), ..v[i as int] },
            ));
            Ok(())
        },
        None => {
            let mut r = TopoRef::face(ref_id, created_by, role);
            r.semantic.normal_hint = Some(normal_bits);
            semantic_refs.push(r);
            assert(refs_view(semantic_refs@) =~= v.push(r@));
            sort_refs_by_id(semantic_refs);
            Ok(())
        },
    }
}

// ---------------------------------------------------------------------------
// Resolution with a fingerprint fallback
// ---------------------------------------------------------------------------

/// A B-Rep edge discovered from kernel topology inspection; the midpoint,
/// tangent and length are the bits of their `f32` values.
#[derive(Debug, Clone, PartialEq, Eq)]
pub struct EdgeRefDiscovery {
    pub kernel_edge_id: u64,
    pub role: String,
    pub midpoint_bits: [u32; 3],
    pub tangent_bits: [u32; 3],
    pub length_bits: u32,
    pub feature_id: Option<String>,
}

/// The role the reference asks for, if any, is the discovery's role.
pub open spec fn role_allows(r: TopoRefView, role: Seq<char>) -> bool {
    match r.role {
        Some(x) => x == role,
        None => true,
    }
}

/// A discovered face may stand for the reference: the role agrees, and the
/// face comes from the reference's feature or from a feature its
/// fingerprint lists as adjacent.
pub open spec fn face_may_match(r: TopoRefView, d: FaceRefDiscovery) -> bool {
    role_allows(r, d.role@) && match d.feature_id {
        Some(f) => f@ == r.created_by || match r.fingerprint {
            Some(fp) => fp.adjacent_feature_ids.contains(f@),
            None => false,
        },
        None => false,
    }
}

/// A discovered edge may stand for the reference: the role agrees, and the
/// edge comes from the reference's feature, or the reference has no
/// fingerprint, or its fingerprint has a position hint.
pub open spec fn edge_may_match(r: TopoRefView, d: EdgeRefDiscovery) -> bool {
    role_allows(r, d.role@) && ((d.feature_id matches Some(f) && f@ == r.created_by) || match r.fingerprint {
        None => true,
        Some(fp) => fp.bbox_hint is Some,
    })
}

pub(crate) fn role_allows_exec(r: &TopoRef, role: &String) -> (b: bool)
    ensures
        b == role_allows(r@, role@),
{
    match &r.semantic.role {
        Some(x) => str_eq(x.as_str(), role.as_str()),
        None => true,
    }
}

/// Whether a discovered face may stand for the reference (before it is
/// scored).
pub fn discovery_matches_topo_ref(topo_ref: &TopoRef, discovery: &FaceRefDiscovery) -> (b: bool)
    ensures
        b == face_may_match(topo_ref@, *discovery),
{
    if !role_allows_exec(topo_ref, &discovery.role) {
        return false;
    }
    match &discovery.feature_id {
        Some(f) => {
            if str_eq(f.as_str(), topo_ref.semantic.created_by.as_str()) {
                return true;
            }
            match &topo_ref.geometric_fingerprint {
                Some(fp) => crate::param_graph::contains_str(&fp.adjacent_feature_ids, f.as_str()),
                None => false,
            }
        },
        None => false,
    }
}

/// Whether a discovered edge may stand for the reference (before it is
/// scored).
pub fn edge_discovery_matches_topo_ref(topo_ref: &TopoRef, discovery: &EdgeRefDiscovery) -> (b: bool)
    ensures
        b == edge_may_match(topo_ref@, *discovery),
{
    if !role_allows_exec(topo_ref, &discovery.role) {
        return false;
    }
    match &discovery.feature_id {
        Some(f) => {
            if str_eq(f.as_str(), topo_ref.semantic.created_by.as_str()) {
                return true;
            }
        },
        None => {},
    }
    match &topo_ref.geometric_fingerprint {
        None => true,
        Some(fp) => fp.bbox_hint.is_some(),
    }
}

/// The current kernel face of a persisted reference, falling back on the
/// fingerprint match: `matched` is `None` when no discoveries were given,
/// else the discovered face that scored best for the reference, if any.
pub fn resolve_kernel_face_id_for_topo_ref_with_match(
    semantic_refs: &[TopoRef],
    face_history: &[FaceDerivation],
    ref_id: &str,
    matched: Option<Option<u64>>,
) -> (r: Result<u64, CadError>)
    ensures
        first_named(refs_view(semantic_refs@), ref_id@, 0) is None ==> r matches Err(
            CadError::NotFound(_),
        ),
        first_named(refs_view(semantic_refs@), ref_id@, 0) matches Some(i) ==> match stored_face_id(
            refs_view(semantic_refs@)[i],
        ) {
            Some(stored) => r == Ok::<u64, CadError>(
                if src_to_post_spec(face_history@).contains_key(stored) {
                    src_to_post_spec(face_history@)[stored]
                } else {
                    stored
                },
            ),
            None => match matched {
                Some(Some(id)) => r == Ok::<u64, CadError>(id),
                _ => r matches Err(CadError::Validation(_)),
            },
        },
{
    let ghost v = refs_view(semantic_refs@);
    let index = match crate::topo_sync::find_named(semantic_refs, ref_id) {
        Some(index) => index,
        None => {
            let mut message = "topo ref '".to_owned();
            message.append(ref_id);
            message.append("'");
            return Err(CadError::NotFound(message));
        },
    };
    proof {
        lemma_first_named(v, ref_id@, 0);
    }
    match semantic_refs[index].kernel_face_id() {
        Some(stored_id) => {
            let remap = build_src_to_post_map(face_history);
            return match remap.get(&stored_id) {
                Some(post) => Ok(*post),
                None => Ok(stored_id),
            };
        },
        None => {},
    }
    let mut message = "topo ref '".to_owned();
    message.append(ref_id);
    match matched {
        Some(Some(id)) => {
            return Ok(id);
        },
        Some(None) => {
            message.append("' has no kernel_face_id and fingerprint fallback did not match a face");
        },
        None => {
            message.append(
                "' has no kernel_face_id; run sync_topo_refs first or provide tessellated face discoveries",
            );
        },
    }
    Err(CadError::Validation(message))
}

/// The current kernel edge of a persisted reference: its stored edge id, or
/// the fingerprint match (`matched` as for faces).
pub fn resolve_kernel_edge_id_for_topo_ref(
    semantic_refs: &[TopoRef],
    ref_id: &str,
    matched: Option<Option<u64>>,
) -> (r: Result<u64, CadError>)
    ensures
        first_named(refs_view(semantic_refs@), ref_id@, 0) is None ==> r matches Err(
            CadError::NotFound(_),
        ),
        first_named(refs_view(semantic_refs@), ref_id@, 0) matches Some(i) ==> match crate::refs::stored_edge_id(
            refs_view(semantic_refs@)[i],
        ) {
            Some(stored) => r == Ok::<u64, CadError>(stored),
            None => match matched {
                Some(Some(id)) => r == Ok::<u64, CadError>(id),
                _ => r matches Err(CadError::Validation(_)),
            },
        },
{
    let ghost v = refs_view(semantic_refs@);
    let index = match crate::topo_sync::find_named(semantic_refs, ref_id) {
        Some(index) => index,
        None => {
            let mut message = "topo ref '".to_owned();
            message.append(ref_id);
            message.append("'");
            return Err(CadError::NotFound(message));
        },
    };
    proof {
        lemma_first_named(v, ref_id@, 0);
    }
    match semantic_refs[index].kernel_edge_id() {
        Some(stored_id) => {
            return Ok(stored_id);
        },
        None => {},
    }
    let mut message = "topo ref '".to_owned();
    message.append(ref_id);
    match matched {
        Some(Some(id)) => {
            return Ok(id);
        },
        Some(None) => {
            message.append("' has no kernel_edge_id and fingerprint fallback did not match an edge");
        },
        None => {
            message.append("' has no kernel_edge_id; provide edge discoveries during regeneration");
        },
    }
    Err(CadError::Validation(message))
}

// ---------------------------------------------------------------------------
// Syncing references with discovered faces
// ---------------------------------------------------------------------------

/// What the chooser's answer makes of the pick for one discovery: none
/// without candidates; else the candidate the chooser named, or the last
/// candidate where it named none.
pub open spec fn chooser_pick<F: Fn(&Vec<TopoRef>, &Vec<usize>, &FaceRefDiscovery) -> usize>(
    chooser: F,
    refs: Vec<TopoRef>,
    cands: Vec<usize>,
    d: FaceRefDiscovery,
    pick: Option<usize>,
) -> bool {
    if cands.len() == 0 {
        pick is None
    } else {
        exists|p: usize|
            #[trigger] chooser.ensures((&refs, &cands, &d), p) && pick == Some(
                if cands@.contains(p) {
                    p
                } else {
                    cands@.last()
                },
            )
    }
}

/// `picks` are the chooser's: before discovery `k` the references are
/// `seen[k].0`, whose role candidates are `seen[k].1`, and the chooser, asked
/// with both, gave `picks[k]`.
pub open spec fn chosen_by<F: Fn(&Vec<TopoRef>, &Vec<usize>, &FaceRefDiscovery) -> usize>(
    chooser: F,
    start: Seq<TopoRefView>,
    ds: Seq<FaceRefDiscovery>,
    picks: Seq<Option<usize>>,
    seen: Seq<(Vec<TopoRef>, Vec<usize>)>,
) -> bool {
    &&& seen.len() == ds.len()
    &&& forall|k: int|
        0 <= k < ds.len() ==> {
            &&& merge_all(start, ds.take(k), picks.take(k)) == Some(refs_view((#[trigger] seen[k]).0@))
            &&& seen[k].1@ == candidate_indices(refs_view(seen[k].0@), ds[k])
            &&& chooser_pick(chooser, seen[k].0, seen[k].1, ds[k], picks[k])
        }
}

/// Each discovery merged in turn, `picks[k]` deciding for discovery `k`
/// where only a score can; every pick that is given is a role candidate,
/// and one is given wherever it is needed.
pub open spec fn merge_all(
    refs: Seq<TopoRefView>,
    discoveries: Seq<FaceRefDiscovery>,
    picks: Seq<Option<usize>>,
) -> Option<Seq<TopoRefView>>
    decreases discoveries.len(),
{
    if discoveries.len() == 0 {
        Some(refs)
    } else if picks.len() != discoveries.len() {
        None
    } else {
        match merge_all(refs, discoveries.drop_last(), picks.drop_last()) {
            Some(before) => if best_ok(before, discoveries.last(), picks.last()) {
                Some(merged(before, discoveries.last(), picks.last()))
            } else {
                None
            },
            None => None,
        }
    }
}

pub(crate) fn copy_opt(o: &Option<String>) -> (x: Option<String>)
    ensures
        opt_view(x) == opt_view(*o),
{
    match o {
        Some(s) => Some(s.clone()),
        None => None,
    }
}

/// A copy of a reference.
pub fn copy_ref(r: &TopoRef) -> (c: TopoRef)
    ensures
        c@ == r@,
{
    let fingerprint = match &r.geometric_fingerprint {
        Some(fp) => {
            let mut adjacent: Vec<String> = Vec::new();
            let mut i: usize = 0;
            while i < fp.adjacent_feature_ids.len()
                invariant
                    i <= fp.adjacent_feature_ids.len(),
                    strings_view(adjacent@) == strings_view(fp.adjacent_feature_ids@).subrange(0, i as int),
                decreases fp.adjacent_feature_ids.len() - i,
            {
                let ghost before = adjacent@;
                let item = fp.adjacent_feature_ids[i].clone();
                adjacent.push(item);
                assert(strings_view(adjacent@) =~= strings_view(before).push(item@));
                assert(strings_view(adjacent@) =~= strings_view(fp.adjacent_feature_ids@).subrange(
                    0,
                    i + 1,
                ));
                i = i + 1;
            }
            assert(strings_view(fp.adjacent_feature_ids@).subrange(0, i as int) =~= strings_view(
                fp.adjacent_feature_ids@,
            ));
            Some(
                GeometricFingerprint {
                    surface_type: fp.surface_type.clone(),
                    kernel_face_id: fp.kernel_face_id,
                    kernel_edge_id: fp.kernel_edge_id,
                    area_range: fp.area_range,
                    bbox_hint: fp.bbox_hint,
                    adjacent_feature_ids: adjacent,
                },
            )
        },
        None => None,
    };
    TopoRef {
        ref_id: r.ref_id.clone(),
        kind: r.kind,
        semantic: crate::refs::TopoRefSemantic {
            created_by: r.semantic.created_by.clone(),
            role: copy_opt(&r.semantic.role),
            normal_hint: r.semantic.normal_hint,
            intent: copy_opt(&r.semantic.intent),
        },
        geometric_fingerprint: fingerprint,
        fallback_query: copy_opt(&r.fallback_query),
    }
}

pub(crate) fn copy_refs(refs: &[TopoRef]) -> (c: Vec<TopoRef>)
    ensures
        refs_view(c@) == refs_view(refs@),
{
    let mut c: Vec<TopoRef> = Vec::new();
    let mut i: usize = 0;
    while i < refs.len()
        invariant
            i <= refs.len(),
            refs_view(c@) == refs_view(refs@).subrange(0, i as int),
        decreases refs.len() - i,
    {
        let ghost before = c@;
        let item = copy_ref(&refs[i]);
        c.push(item);
        assert(refs_view(c@) =~= refs_view(before).push(item@));
        assert(refs_view(c@) =~= refs_view(refs@).subrange(0, i + 1));
        i = i + 1;
    }
    assert(refs_view(refs@).subrange(0, i as int) =~= refs_view(refs@));
    c
}

proof fn lemma_merge_all_push(
    refs: Seq<TopoRefView>,
    ds: Seq<FaceRefDiscovery>,
    picks: Seq<Option<usize>>,
    d: FaceRefDiscovery,
    pick: Option<usize>,
)
    requires
        merge_all(refs, ds, picks) is Some,
        picks.len() == ds.len(),
        best_ok(merge_all(refs, ds, picks)->0, d, pick),
    ensures
        merge_all(refs, ds.push(d), picks.push(pick)) == Some(
            merged(merge_all(refs, ds, picks)->0, d, pick),
        ),
{
    assert(ds.push(d).drop_last() =~= ds);
    assert(picks.push(pick).drop_last() =~= picks);
}

/// Merge discovered kernel faces into persisted semantic references, one
/// after another, then sort the references by id. Where a discovery has role
/// candidates, `chooser` is asked which of them takes it (an answer that is
/// no candidate counts as the last candidate); its answer decides where only
/// a fingerprint score can.
pub fn sync_semantic_refs<F: Fn(&Vec<TopoRef>, &Vec<usize>, &FaceRefDiscovery) -> usize>(
    existing: &[TopoRef],
    discoveries: &[FaceRefDiscovery],
    chooser: F,
) -> (refs: Vec<TopoRef>)
    requires
        forall|r: &Vec<TopoRef>, c: &Vec<usize>, d: &FaceRefDiscovery| #[trigger] chooser.requires((r, c, d)),
    ensures
        exists|picks: Seq<Option<usize>>, seen: Seq<(Vec<TopoRef>, Vec<usize>)>|
            {
                &&& #[trigger] chosen_by(chooser, refs_view(existing@), discoveries@, picks, seen)
                &&& merge_all(refs_view(existing@), discoveries@, picks) matches Some(m)
                &&& refs_view(refs@) == sorted_by_id(m)
            },
{
    let mut refs = copy_refs(existing);
    let ghost mut picks: Seq<Option<usize>> = Seq::empty();
    let ghost mut seen: Seq<(Vec<TopoRef>, Vec<usize>)> = Seq::empty();
    let mut k: usize = 0;
    assert(discoveries@.subrange(0, 0) =~= Seq::<FaceRefDiscovery>::empty());
    while k < discoveries.len()
        invariant
            k <= discoveries.len(),
            picks.len() == k,
            forall|r: &Vec<TopoRef>, c: &Vec<usize>, d: &FaceRefDiscovery| #[trigger] chooser.requires((r, c, d)),
            merge_all(refs_view(existing@), discoveries@.subrange(0, k as int), picks) == Some(
                refs_view(refs@),
            ),
            chosen_by(chooser, refs_view(existing@), discoveries@.subrange(0, k as int), picks, seen),
        decreases discoveries.len() - k,
    {
        let d = &discoveries[k];
        let ghost v = refs_view(refs@);
        let cands = role_candidates(refs.as_slice(), d);
        let ghost asked = (refs, cands);
        let best: Option<usize> = if cands.len() == 0 {
            None
        } else {
            let choice = chooser(&refs, &cands, d);
            let mut ok = false;
            let mut j: usize = 0;
            while j < cands.len()
                invariant
                    j <= cands.len(),
                    ok ==> cands@.contains(choice),
                    !ok ==> forall|a: int| 0 <= a < j ==> cands@[a] != choice,
                decreases cands.len() - j,
            {
                if cands[j] == choice {
                    ok = true;
                }
                j = j + 1;
            }
            proof {
                if !ok {
                    assert(!cands@.contains(choice));
                }
                assert(chooser.ensures((&asked.0, &asked.1, d), choice));
            }
            if ok {
                Some(choice)
            } else {
                Some(cands[cands.len() - 1])
            }
        };
        proof {
            if needs_best(v, *d) {
                let w = choose|w: int| 0 <= w < v.len() && is_role_candidate(#[trigger] v[w], d.feature_id->0@, d.role@);
                assert(refs@[w]@ == v[w]);
                assert(cands@.contains(w as usize));
            }
            if let Some(i) = best {
                assert(cands@.contains(i));
                let a = cands@.index_of(i);
                assert(cands[a] < refs.len());
                assert(refs@[i as int]@ == v[i as int]);
            }
            assert(best_ok(v, *d, best));
            assert(chooser_pick(chooser, asked.0, asked.1, *d, best));
            let ds_k = discoveries@.subrange(0, k as int);
            let ds_next = discoveries@.subrange(0, k + 1);
            assert(ds_next =~= ds_k.push(*d));
            lemma_merge_all_push(refs_view(existing@), ds_k, picks, *d, best);
            let picks_next = picks.push(best);
            let seen_next = seen.push(asked);
            assert forall|i: int| 0 <= i < ds_next.len() implies {
                &&& merge_all(refs_view(existing@), ds_next.take(i), picks_next.take(i)) == Some(refs_view((#[trigger] seen_next[i]).0@))
                &&& seen_next[i].1@ == candidate_indices(refs_view(seen_next[i].0@), ds_next[i])
                &&& chooser_pick(chooser, seen_next[i].0, seen_next[i].1, ds_next[i], picks_next[i])
            } by {
                if i < k {
                    assert(ds_next.take(i) =~= ds_k.take(i));
                    assert(picks_next.take(i) =~= picks.take(i));
                    assert(seen_next[i] == seen[i]);
                    assert(ds_next[i] == ds_k[i]);
                    assert(picks_next[i] == picks[i]);
                } else {
                    assert(ds_next.take(i) =~= ds_k);
                    assert(picks_next.take(i) =~= picks);
                }
            }
            picks = picks_next;
            seen = seen_next;
        }
        merge_discovery(&mut refs, d, best);
        k = k + 1;
    }
    assert(discoveries@.subrange(0, k as int) =~= discoveries@);
    let ghost m = refs_view(refs@);
    sort_refs_by_id(&mut refs);
    assert(chosen_by(chooser, refs_view(existing@), discoveries@, picks, seen));
    assert(merge_all(refs_view(existing@), discoveries@, picks) matches Some(x) && refs_view(refs@)
        == sorted_by_id(x));
    refs
}

/// Rebind stored face ids through the history, then merge discovered faces
/// into the references.
pub fn sync_semantic_refs_with_history<F: Fn(&Vec<TopoRef>, &Vec<usize>, &FaceRefDiscovery) -> usize>(
    existing: &[TopoRef],
    history: &[FaceDerivation],
    discoveries: &[FaceRefDiscovery],
    chooser: F,
) -> (refs: Vec<TopoRef>)
    requires
        forall|r: &Vec<TopoRef>, c: &Vec<usize>, d: &FaceRefDiscovery| #[trigger] chooser.requires((r, c, d)),
    ensures
        exists|picks: Seq<Option<usize>>, seen: Seq<(Vec<TopoRef>, Vec<usize>)>|
            {
                &&& #[trigger] chosen_by(chooser, rebound_all(refs_view(existing@), history@), discoveries@, picks, seen)
                &&& merge_all(rebound_all(refs_view(existing@), history@), discoveries@, picks) matches Some(m)
                &&& refs_view(refs@) == sorted_by_id(m)
            },
{
    let mut rebound_refs = copy_refs(existing);
    rebind_kernel_face_ids(&mut rebound_refs, history);
    let refs = sync_semantic_refs(rebound_refs.as_slice(), discoveries, chooser);
    refs
}

// ---------------------------------------------------------------------------
// Laws
// ---------------------------------------------------------------------------

proof fn lemma_merged_keeps_ids(refs: Seq<TopoRefView>, d: FaceRefDiscovery, best: Option<usize>)
    requires
        best_ok(refs, d, best),
    ensures
        merged(refs, d, best).len() >= refs.len(),
        forall|i: int| 0 <= i < refs.len() ==> #[trigger] merged(refs, d, best)[i].ref_id == refs[i].ref_id,
{
    lemma_first_with_face(refs, d.kernel_face_id, 0);
    if let Some(f) = d.feature_id {
        lemma_first_free_candidate(refs, f@, d.role@, 0);
    }
}

proof fn lemma_merge_all_keeps_ids(
    refs: Seq<TopoRefView>,
    discoveries: Seq<FaceRefDiscovery>,
    picks: Seq<Option<usize>>,
)
    requires
        merge_all(refs, discoveries, picks) is Some,
    ensures
        merge_all(refs, discoveries, picks)->0.len() >= refs.len(),
        forall|i: int|
            0 <= i < refs.len() ==> #[trigger] merge_all(refs, discoveries, picks)->0[i].ref_id
                == refs[i].ref_id,
    decreases discoveries.len(),
{
    if discoveries.len() > 0 {
        lemma_merge_all_keeps_ids(refs, discoveries.drop_last(), picks.drop_last());
        let before = merge_all(refs, discoveries.drop_last(), picks.drop_last())->0;
        lemma_merged_keeps_ids(before, discoveries.last(), picks.last());
        assert forall|i: int| 0 <= i < refs.len() implies #[trigger] merge_all(
            refs,
            discoveries,
            picks,
        )->0[i].ref_id == refs[i].ref_id by {
            assert(merged(before, discoveries.last(), picks.last())[i].ref_id == before[i].ref_id);
        }
    }
}

proof fn lemma_sorted_keeps_elements(s: Seq<TopoRefView>)
    ensures
        forall|x: TopoRefView| #[trigger] sorted_by_id(s).contains(x) <==> s.contains(x),
    decreases s.len(),
{
    if s.len() > 0 {
        let rest = s.drop_last();
        lemma_sorted_keeps_elements(rest);
        let t = sorted_by_id(rest);
        let p = insert_pos(t, s.last().ref_id, 0);
        lemma_insert_pos_bounds(t, s.last().ref_id, 0);
        let u = t.insert(p, s.last());
        assert forall|x: TopoRefView| #[trigger] u.contains(x) <==> s.contains(x) by {
            if u.contains(x) {
                let k = u.index_of(x);
                if k < p {
                    assert(t[k] == x);
                    assert(t.contains(x));
                    let j = rest.index_of(x);
                    assert(s[j] == x);
                } else if k > p {
                    assert(t[k - 1] == x);
                    assert(t.contains(x));
                    let j = rest.index_of(x);
                    assert(s[j] == x);
                } else {
                    assert(s[s.len() - 1] == x);
                }
            }
            if s.contains(x) {
                let j = s.index_of(x);
                if j == s.len() - 1 {
                    assert(u[p] == x);
                } else {
                    assert(rest[j] == x);
                    assert(rest.contains(x));
                    assert(t.contains(x));
                    let k = t.index_of(x);
                    if k < p {
                        assert(u[k] == x);
                    } else {
                        assert(u[k + 1] == x);
                    }
                }
            }
        }
    }
}

/// Syncing never drops or renames a persisted reference: every reference id
/// that existed is still there after the merge and sort, whatever the
/// scores decided.
pub proof fn law_sync_keeps_reference_names(
    existing: Seq<TopoRefView>,
    discoveries: Seq<FaceRefDiscovery>,
    picks: Seq<Option<usize>>,
    i: int,
)
    requires
        merge_all(existing, discoveries, picks) is Some,
        0 <= i < existing.len(),
    ensures
        exists|k: int|
            0 <= k < sorted_by_id(merge_all(existing, discoveries, picks)->0).len()
                && #[trigger] sorted_by_id(merge_all(existing, discoveries, picks)->0)[k].ref_id
                == existing[i].ref_id,
{
    let m = merge_all(existing, discoveries, picks)->0;
    lemma_merge_all_keeps_ids(existing, discoveries, picks);
    lemma_sorted_keeps_elements(m);
    assert(m.contains(m[i]));
    let sorted = sorted_by_id(m);
    assert(sorted.contains(m[i]));
    let k = sorted.index_of(m[i]);
    assert(sorted[k].ref_id == existing[i].ref_id);
}

/// Rebinding keeps the list's length, moves each stored kernel face id to
/// where the history's source-to-post map sends it (an id the map does not
/// hold stays), and leaves every other part of a reference as it was.
pub proof fn law_rebinding_maps_each_stored_face_id(refs: Seq<TopoRefView>, history: Seq<FaceDerivation>)
    ensures
        rebound_all(refs, history).len() == refs.len(),
        forall|i: int|
            0 <= i < refs.len() ==> {
                let m = src_to_post_spec(history);
                let r = refs[i];
                let n = #[trigger] rebound_all(refs, history)[i];
                &&& stored_face_id(n) == match stored_face_id(r) {
                    Some(k) => Some(if m.contains_key(k) { m[k] } else { k }),
                    None => None,
                }
                &&& n.ref_id == r.ref_id
                &&& n.kind == r.kind
                &&& n.created_by == r.created_by
                &&& n.role == r.role
                &&& n.normal_hint == r.normal_hint
                &&& n.intent == r.intent
                &&& n.fallback_query == r.fallback_query
                &&& crate::refs::stored_edge_id(n) == crate::refs::stored_edge_id(r)
            },
{
}

/// The face a merged reference stores: some discovery's.
pub open spec fn stores_discovered_face(r: TopoRefView, ds: Seq<FaceRefDiscovery>) -> bool {
    exists|k: int| 0 <= k < ds.len() && stored_face_id(r) == Some((#[trigger] ds[k]).kernel_face_id)
}

proof fn lemma_merged_new_refs(
    refs: Seq<TopoRefView>,
    d: FaceRefDiscovery,
    best: Option<usize>,
)
    requires
        best_ok(refs, d, best),
    ensures
        merged(refs, d, best).len() <= refs.len() + 1,
        forall|i: int|
            0 <= i < merged(refs, d, best).len() ==> (i < refs.len() && #[trigger] merged(
                refs,
                d,
                best,
            )[i] == refs[i]) || stored_face_id(merged(refs, d, best)[i]) == Some(d.kernel_face_id),
{
    lemma_first_with_face(refs, d.kernel_face_id, 0);
    if let Some(f) = d.feature_id {
        lemma_first_free_candidate(refs, f@, d.role@, 0);
    }
}

proof fn lemma_merge_all_new_refs(
    refs: Seq<TopoRefView>,
    discoveries: Seq<FaceRefDiscovery>,
    picks: Seq<Option<usize>>,
)
    requires
        merge_all(refs, discoveries, picks) is Some,
    ensures
        merge_all(refs, discoveries, picks)->0.len() <= refs.len() + discoveries.len(),
        forall|i: int|
            refs.len() <= i < merge_all(refs, discoveries, picks)->0.len() ==> stores_discovered_face(
                #[trigger] merge_all(refs, discoveries, picks)->0[i],
                discoveries,
            ),
    decreases discoveries.len(),
{
    if discoveries.len() > 0 {
        let prev = discoveries.drop_last();
        lemma_merge_all_new_refs(refs, prev, picks.drop_last());
        lemma_merge_all_keeps_ids(refs, prev, picks.drop_last());
        let before = merge_all(refs, prev, picks.drop_last())->0;
        let d = discoveries.last();
        lemma_merged_new_refs(before, d, picks.last());
        let m = merged(before, d, picks.last());
        assert forall|i: int|
            refs.len() <= i < merge_all(refs, discoveries, picks)->0.len() implies stores_discovered_face(
            #[trigger] merge_all(refs, discoveries, picks)->0[i],
            discoveries,
        ) by {
            assert(merge_all(refs, discoveries, picks)->0 == m);
            if m[i] == before[i] && i < before.len() {
                assert(stores_discovered_face(before[i], prev));
                let k = choose|k: int|
                    0 <= k < prev.len() && stored_face_id(before[i]) == Some(
                        (#[trigger] prev[k]).kernel_face_id,
                    );
                assert(discoveries[k] == prev[k]);
            } else {
                assert(stored_face_id(m[i]) == Some(d.kernel_face_id));
                assert(discoveries[discoveries.len() - 1] == d);
            }
        }
    }
}

/// Syncing with discovered faces never drops a persisted reference and adds
/// at most one reference per discovery; every reference it adds stores the
/// kernel face of some discovery; and the result holds exactly the merged
/// references, in reference id order.
pub proof fn law_sync_adds_only_discovered_faces(
    existing: Seq<TopoRefView>,
    discoveries: Seq<FaceRefDiscovery>,
    picks: Seq<Option<usize>>,
)
    requires
        merge_all(existing, discoveries, picks) is Some,
    ensures
        ({
            let m = merge_all(existing, discoveries, picks)->0;
            let s = sorted_by_id(m);
            &&& existing.len() <= s.len() <= existing.len() + discoveries.len()
            &&& ids_in_order(s)
            &&& forall|x: TopoRefView| #[trigger] s.contains(x) <==> m.contains(x)
            &&& forall|i: int| 0 <= i < existing.len() ==> #[trigger] m[i].ref_id == existing[i].ref_id
            &&& forall|i: int|
                existing.len() <= i < m.len() ==> stores_discovered_face(#[trigger] m[i], discoveries)
        }),
{
    let m = merge_all(existing, discoveries, picks)->0;
    lemma_merge_all_keeps_ids(existing, discoveries, picks);
    lemma_merge_all_new_refs(existing, discoveries, picks);
    law_sorted_refs_are_in_id_order(m);
    lemma_sorted_keeps_elements(m);
}

} // verus!

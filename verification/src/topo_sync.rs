//! Face identity across kernel operations: derivation histories and the
//! semantic references that persist kernel face ids.
use vstd::prelude::*;
use std::collections::HashMap;
use crate::error::CadError;
use crate::refs::{refs_view, stored_face_id, TopoRef, TopoRefView};
use crate::text::{decimal, decimal_string, str_eq};

verus! {

broadcast use vstd::std_specs::hash::group_hash_axioms;

/// A face derivation pair from the kernel: `(post_id, src_id)`.
pub type FaceDerivation = (u64, u64);

/// Each source face id mapped to the post id of its last derivation pair.
pub open spec fn last_post_map(history: Seq<FaceDerivation>) -> Map<u64, u64>
    decreases history.len(),
{
    if history.len() == 0 {
        Map::empty()
    } else {
        last_post_map(history.drop_last()).insert(history.last().1, history.last().0)
    }
}

/// Follow `m` from `y` for at most `fuel` steps, stopping at an id that is
/// no source.
pub open spec fn chain_end(m: Map<u64, u64>, y: u64, fuel: nat) -> u64
    decreases fuel,
{
    if fuel == 0 || !m.contains_key(y) {
        y
    } else {
        chain_end(m, m[y], (fuel - 1) as nat)
    }
}

/// The chain from `y` reaches an id that is no source within `fuel` steps.
pub open spec fn chain_ends_within(m: Map<u64, u64>, y: u64, fuel: nat) -> bool
    decreases fuel,
{
    if !m.contains_key(y) {
        true
    } else if fuel == 0 {
        false
    } else {
        chain_ends_within(m, m[y], (fuel - 1) as nat)
    }
}

/// Every source face mapped to the latest face it became: the end of its
/// derivation chain.  The chain is followed for at most as many steps as
/// the history has pairs, which reaches the end of every chain that does
/// not run in a circle.
pub open spec fn src_to_post_spec(history: Seq<FaceDerivation>) -> Map<u64, u64> {
    let m = last_post_map(history);
    Map::new(|src: u64| m.contains_key(src), |src: u64| chain_end(m, m[src], history.len()))
}

/// The pairs of several chronological histories, one after another.
pub open spec fn concat_histories(segments: Seq<Seq<FaceDerivation>>) -> Seq<FaceDerivation>
    decreases segments.len(),
{
    if segments.len() == 0 {
        Seq::empty()
    } else {
        concat_histories(segments.drop_last()) + segments.last()
    }
}

/// Map source face ids to their latest post ids using kernel derivation history.
pub fn build_src_to_post_map(history: &[FaceDerivation]) -> (map: HashMap<u64, u64>)
    ensures
        map@ == src_to_post_spec(history@),
{
    // The pairs, read in order: the last pair naming a source wins.
    let mut base: HashMap<u64, u64> = HashMap::new();
    let mut sources: Vec<u64> = Vec::new();
    let mut i: usize = 0;
    while i < history.len()
        invariant
            i <= history.len(),
            base@ == last_post_map(history@.subrange(0, i as int)),
            forall|k: u64| base@.contains_key(k) <==> sources@.contains(k),
        decreases history.len() - i,
    {
        let (post, src) = history[i];
        proof {
            assert(history@.subrange(0, i + 1).drop_last() =~= history@.subrange(0, i as int));
        }
        let ghost old_sources = sources@;
        let ghost old_base = base@;
        if !base.contains_key(&src) {
            sources.push(src);
            assert(sources@[sources@.len() - 1] == src);
        }
        base.insert(src, post);
        i = i + 1;
        proof {
            assert(sources@.contains(src));
            assert forall|k: u64| base@.contains_key(k) <==> sources@.contains(k) by {
                if k != src {
                    if old_sources.contains(k) {
                        let t = old_sources.index_of(k);
                        assert(sources@[t] == k);
                    }
                    if sources@.contains(k) {
                        let t = sources@.index_of(k);
                        if t < old_sources.len() {
                            assert(old_sources[t] == k);
                        }
                    }
                }
            }
        }
    }
    assert(history@.subrange(0, i as int) =~= history@);
    let ghost m = base@;
    let fuel = history.len();
    let mut map: HashMap<u64, u64> = HashMap::new();
    let mut j: usize = 0;
    while j < sources.len()
        invariant
            base@ == m,
            m == last_post_map(history@),
            fuel == history@.len(),
            j <= sources.len(),
            forall|k: u64| m.contains_key(k) <==> sources@.contains(k),
            forall|k: u64| #[trigger] map@.contains_key(k) ==> m.contains_key(k) && map@[k] == chain_end(
                m,
                m[k],
                fuel as nat,
            ),
            forall|t: int| 0 <= t < j ==> #[trigger] map@.contains_key(sources@[t]),
        decreases sources.len() - j,
    {
        let src = sources[j];
        assert(sources@.contains(src));
        let mut y = *base.get(&src).unwrap();
        let mut steps: usize = 0;
        while steps < fuel
            invariant
                base@ == m,
                m.contains_key(src),
                steps <= fuel,
                chain_end(m, m[src], fuel as nat) == chain_end(m, y, (fuel - steps) as nat),
            decreases fuel - steps,
        {
            match base.get(&y) {
                Some(next) => {
                    y = *next;
                    steps = steps + 1;
                },
                None => {
                    steps = fuel;
                },
            }
        }
        map.insert(src, y);
        j = j + 1;
    }
    assert(map@ =~= src_to_post_spec(history@)) by {
        assert forall|k: u64| #[trigger] src_to_post_spec(history@).contains_key(k) implies map@.contains_key(k) by {
            let t = sources@.index_of(k);
            assert(sources@[t] == k);
        }
    }
    map
}

/// Concatenate per-step `(post_id, src_id)` pairs from chronological kernel ops.
pub fn compose_face_derivation_histories(segments: &[&[FaceDerivation]]) -> (composed: Vec<
    FaceDerivation,
>)
    ensures
        composed@ == concat_histories(segments@.map_values(|s: &[FaceDerivation]| s@)),
{
    let ghost segs = segments@.map_values(|s: &[FaceDerivation]| s@);
    let mut composed: Vec<FaceDerivation> = Vec::new();
    let mut i: usize = 0;
    while i < segments.len()
        invariant
            i <= segments.len(),
            segs == segments@.map_values(|s: &[FaceDerivation]| s@),
            composed@ == concat_histories(segs.subrange(0, i as int)),
        decreases segments.len() - i,
    {
        let segment = segments[i];
        let ghost before = composed@;
        let mut k: usize = 0;
        while k < segment.len()
            invariant
                k <= segment.len(),
                composed@ == before + segment@.subrange(0, k as int),
            decreases segment.len() - k,
        {
            composed.push(segment[k]);
            k = k + 1;
            assert(composed@ =~= before + segment@.subrange(0, k as int));
        }
        proof {
            assert(segs.subrange(0, i + 1).drop_last() =~= segs.subrange(0, i as int));
            assert(segment@.subrange(0, k as int) =~= segs[i as int]);
        }
        i = i + 1;
    }
    assert(segs.subrange(0, i as int) =~= segs);
    composed
}

/// Name of the reference generated for a discovered kernel face:
/// `ref:face:kernel_<id>`.
pub open spec fn kernel_ref_name(kernel_face_id: u64) -> Seq<char> {
    "ref:face:kernel_"@ + decimal(kernel_face_id as nat)
}

pub fn kernel_topo_ref_id(kernel_face_id: u64) -> (id: String)
    ensures
        id@ == kernel_ref_name(kernel_face_id),
{
    let mut id = "ref:face:kernel_".to_owned();
    let digits = decimal_string(kernel_face_id);
    id.append(digits.as_str());
    id
}

/// Index of the first reference at or after `from` whose stored kernel face
/// id is `id`.
pub open spec fn first_with_face(refs: Seq<TopoRefView>, id: u64, from: int) -> Option<int>
    decreases refs.len() - from,
{
    if from < 0 || from >= refs.len() {
        None
    } else if stored_face_id(refs[from]) == Some(id) {
        Some(from)
    } else {
        first_with_face(refs, id, from + 1)
    }
}

/// Index of the first reference at or after `from` named `ref_id`.
pub open spec fn first_named(refs: Seq<TopoRefView>, ref_id: Seq<char>, from: int) -> Option<int>
    decreases refs.len() - from,
{
    if from < 0 || from >= refs.len() {
        None
    } else if refs[from].ref_id == ref_id {
        Some(from)
    } else {
        first_named(refs, ref_id, from + 1)
    }
}

pub proof fn lemma_first_with_face(refs: Seq<TopoRefView>, id: u64, from: int)
    ensures
        first_with_face(refs, id, from) matches Some(i) ==> from <= i < refs.len() && stored_face_id(
            refs[i],
        ) == Some(id),
    decreases refs.len() - from,
{
    if !(from < 0 || from >= refs.len()) && stored_face_id(refs[from]) != Some(id) {
        lemma_first_with_face(refs, id, from + 1);
    }
}

pub proof fn lemma_first_named(refs: Seq<TopoRefView>, ref_id: Seq<char>, from: int)
    ensures
        first_named(refs, ref_id, from) matches Some(i) ==> from <= i < refs.len() && refs[i].ref_id
            == ref_id,
    decreases refs.len() - from,
{
    if !(from < 0 || from >= refs.len()) && refs[from].ref_id != ref_id {
        lemma_first_named(refs, ref_id, from + 1);
    }
}

/// The reference name a kernel face resolves to: the first reference that
/// stores the face; else, for each history pair `(face, src)` in order, the
/// first reference that stores `src`; else the generated kernel name.
pub open spec fn resolve_name_from(
    refs: Seq<TopoRefView>,
    face: u64,
    history: Seq<FaceDerivation>,
    h: int,
) -> Seq<char>
    decreases history.len() - h,
{
    if h < 0 || h >= history.len() {
        kernel_ref_name(face)
    } else if history[h].0 == face && first_with_face(refs, history[h].1, 0) is Some {
        refs[first_with_face(refs, history[h].1, 0)->0].ref_id
    } else {
        resolve_name_from(refs, face, history, h + 1)
    }
}

pub open spec fn resolve_name(refs: Seq<TopoRefView>, face: u64, history: Seq<FaceDerivation>) -> Seq<
    char,
> {
    match first_with_face(refs, face, 0) {
        Some(i) => refs[i].ref_id,
        None => resolve_name_from(refs, face, history, 0),
    }
}

pub(crate) fn find_face(refs: &[TopoRef], id: u64) -> (r: Option<usize>)
    ensures
        match r {
            Some(i) => first_with_face(refs_view(refs@), id, 0) == Some(i as int),
            None => first_with_face(refs_view(refs@), id, 0) is None,
        },
{
    let ghost v = refs_view(refs@);
    let mut i: usize = 0;
    while i < refs.len()
        invariant
            i <= refs.len(),
            v == refs_view(refs@),
            first_with_face(v, id, 0) == first_with_face(v, id, i as int),
        decreases refs.len() - i,
    {
        if refs[i].kernel_face_id() == Some(id) {
            return Some(i);
        }
        i = i + 1;
    }
    None
}

pub(crate) fn find_named(refs: &[TopoRef], ref_id: &str) -> (r: Option<usize>)
    ensures
        match r {
            Some(i) => first_named(refs_view(refs@), ref_id@, 0) == Some(i as int),
            None => first_named(refs_view(refs@), ref_id@, 0) is None,
        },
{
    let ghost v = refs_view(refs@);
    let mut i: usize = 0;
    while i < refs.len()
        invariant
            i <= refs.len(),
            v == refs_view(refs@),
            first_named(v, ref_id@, 0) == first_named(v, ref_id@, i as int),
        decreases refs.len() - i,
    {
        if str_eq(refs[i].ref_id.as_str(), ref_id) {
            return Some(i);
        }
        i = i + 1;
    }
    None
}

pub fn resolve_topo_ref_id(semantic_refs: &[TopoRef], kernel_face_id: u64) -> (name: Option<String>)
    ensures
        name matches Some(n) && n@ == resolve_name(refs_view(semantic_refs@), kernel_face_id, Seq::empty()),
{
    resolve_topo_ref_id_with_history(semantic_refs, kernel_face_id, &[])
}

/// The reference name of a kernel face, looking through the derivation
/// history when no reference stores the face itself.
pub fn resolve_topo_ref_id_with_history(
    semantic_refs: &[TopoRef],
    kernel_face_id: u64,
    history: &[FaceDerivation],
) -> (name: Option<String>)
    ensures
        name matches Some(n) && n@ == resolve_name(refs_view(semantic_refs@), kernel_face_id, history@),
{
    let ghost v = refs_view(semantic_refs@);
    if let Some(i) = find_face(semantic_refs, kernel_face_id) {
        proof {
            lemma_first_with_face(v, kernel_face_id, 0);
        }
        return Some(semantic_refs[i].ref_id.clone());
    }
    let mut h: usize = 0;
    while h < history.len()
        invariant
            h <= history.len(),
            v == refs_view(semantic_refs@),
            first_with_face(v, kernel_face_id, 0) is None,
            resolve_name_from(v, kernel_face_id, history@, 0) == resolve_name_from(
                v,
                kernel_face_id,
                history@,
                h as int,
            ),
        decreases history.len() - h,
    {
        let (post_id, src_id) = history[h];
        if post_id == kernel_face_id {
            if let Some(i) = find_face(semantic_refs, src_id) {
                proof {
                    lemma_first_with_face(v, src_id, 0);
                }
                return Some(semantic_refs[i].ref_id.clone());
            }
        }
        h = h + 1;
    }
    Some(kernel_topo_ref_id(kernel_face_id))
}

/// The current kernel face of a persisted reference: its stored face id,
/// remapped through the derivation history when that history rewrote it.
pub open spec fn resolve_face_spec(
    refs: Seq<TopoRefView>,
    history: Seq<FaceDerivation>,
    ref_id: Seq<char>,
) -> Result<u64, ()> {
    match first_named(refs, ref_id, 0) {
        None => Err(()),
        Some(i) => match stored_face_id(refs[i]) {
            None => Err(()),
            Some(stored) => if src_to_post_spec(history).contains_key(stored) {
                Ok(src_to_post_spec(history)[stored])
            } else {
                Ok(stored)
            },
        },
    }
}

/// Resolve a persisted `ref:face:...` id to the current kernel face id for
/// regeneration.  A name no reference carries is `NotFound`; a reference
/// without a stored kernel face id is a `Validation` error.
pub fn resolve_kernel_face_id_for_topo_ref(
    semantic_refs: &[TopoRef],
    face_history: &[FaceDerivation],
    ref_id: &str,
) -> (r: Result<u64, CadError>)
    ensures
        match resolve_face_spec(refs_view(semantic_refs@), face_history@, ref_id@) {
            Ok(id) => r == Ok::<u64, CadError>(id),
            Err(_) => r is Err,
        },
        r matches Err(e) ==> (first_named(refs_view(semantic_refs@), ref_id@, 0) is None
            <==> e is NotFound),
        r matches Err(e) ==> (e is NotFound || e is Validation),
{
    let ghost v = refs_view(semantic_refs@);
    let index = match find_named(semantic_refs, ref_id) {
        Some(index) => index,
        None => {
            let mut message = "topo ref '".to_owned();
            message.append(ref_id);
            message.append("'");
            return Err(CadError::NotFound(message));
        },
    };
    proof {
        lemma_first_named(v, ref_id@, 0);
    }
    match semantic_refs[index].kernel_face_id() {
        Some(stored_id) => {
            let remap = build_src_to_post_map(face_history);
            match remap.get(&stored_id) {
                Some(post) => Ok(*post),
                None => Ok(stored_id),
            }
        },
        None => {
            let mut message = "topo ref '".to_owned();
            message.append(ref_id);
            message.append(
                "' has no kernel_face_id; run sync_topo_refs first or provide tessellated face discoveries",
            );
            Err(CadError::Validation(message))
        },
    }
}

/// Once a chain has ended, more fuel changes nothing, and where it ends is
/// no source.
pub proof fn lemma_chain_end_stable(m: Map<u64, u64>, y: u64, k: nat, k2: nat)
    requires
        chain_ends_within(m, y, k),
        k <= k2,
    ensures
        chain_end(m, y, k2) == chain_end(m, y, k),
        !m.contains_key(chain_end(m, y, k)),
    decreases k,
{
    if m.contains_key(y) {
        lemma_chain_end_stable(m, m[y], (k - 1) as nat, (k2 - 1) as nat);
    }
}

/// Law of the source-to-post map: a source whose derivation chain ends
/// within the history's length maps to a face no pair derives further (its
/// latest face), and a source derived into another source maps where that
/// source maps -- chains compose.
pub proof fn law_src_to_post_follows_chains(history: Seq<FaceDerivation>, src: u64)
    requires
        last_post_map(history).contains_key(src),
        chain_ends_within(last_post_map(history), last_post_map(history)[src], (history.len() - 1) as nat),
    ensures
        src_to_post_spec(history).contains_key(src),
        !last_post_map(history).contains_key(src_to_post_spec(history)[src]),
        last_post_map(history).contains_key(last_post_map(history)[src]) ==> (
            src_to_post_spec(history).contains_key(last_post_map(history)[src])
            && src_to_post_spec(history)[src] == src_to_post_spec(history)[last_post_map(history)[src]]),
{
    let m = last_post_map(history);
    let n = history.len();
    assert(n > 0) by {
        if n == 0 {
            assert(m =~= Map::empty());
        }
    }
    lemma_chain_end_stable(m, m[src], (n - 1) as nat, n);
    let b = m[src];
    if m.contains_key(b) {
        // The chain from b is the chain from src less its first step.
        assert(n >= 2);
        lemma_chain_end_stable(m, m[b], (n - 2) as nat, n);
        lemma_chain_end_stable(m, m[b], (n - 2) as nat, (n - 1) as nat);
    }
}

/// The reference stores the kernel face `id`.
pub open spec fn stores_face(r: TopoRefView, id: u64) -> bool {
    stored_face_id(r) == Some(id)
}

/// History pair `h` derives `face` from a face that some reference stores.
pub open spec fn pair_derives_stored(
    refs: Seq<TopoRefView>,
    history: Seq<FaceDerivation>,
    face: u64,
    h: int,
) -> bool {
    0 <= h < history.len() && history[h].0 == face && exists|i: int|
        0 <= i < refs.len() && #[trigger] stores_face(refs[i], history[h].1)
}

/// `name` is that of the first reference storing the face `id`.
pub open spec fn named_by_first_storer(refs: Seq<TopoRefView>, id: u64, name: Seq<char>) -> bool {
    exists|i: int|
        0 <= i < refs.len() && #[trigger] stores_face(refs[i], id) && name == refs[i].ref_id && forall|j: int|
            0 <= j < i ==> !#[trigger] stores_face(refs[j], id)
}

proof fn lemma_first_with_face_least(refs: Seq<TopoRefView>, id: u64, from: int)
    requires
        0 <= from,
    ensures
        first_with_face(refs, id, from) is None ==> forall|j: int|
            from <= j < refs.len() ==> !#[trigger] stores_face(refs[j], id),
        first_with_face(refs, id, from) matches Some(i) ==> forall|j: int|
            from <= j < i ==> !#[trigger] stores_face(refs[j], id),
    decreases refs.len() - from,
{
    lemma_first_with_face(refs, id, from);
    if from < refs.len() && stored_face_id(refs[from]) != Some(id) {
        lemma_first_with_face_least(refs, id, from + 1);
    }
}

proof fn lemma_first_storer(refs: Seq<TopoRefView>, id: u64)
    ensures
        first_with_face(refs, id, 0) matches Some(i) ==> named_by_first_storer(refs, id, refs[i].ref_id),
        first_with_face(refs, id, 0) is None ==> forall|j: int|
            0 <= j < refs.len() ==> !#[trigger] stores_face(refs[j], id),
{
    lemma_first_with_face(refs, id, 0);
    lemma_first_with_face_least(refs, id, 0);
    if let Some(i) = first_with_face(refs, id, 0) {
        assert(stores_face(refs[i], id));
    }
}

proof fn lemma_name_from(refs: Seq<TopoRefView>, face: u64, history: Seq<FaceDerivation>, h0: int)
    requires
        0 <= h0 <= history.len(),
    ensures
        (exists|h: int| h0 <= h && #[trigger] pair_derives_stored(refs, history, face, h)) ==> exists|h: int|
            h0 <= h && #[trigger] pair_derives_stored(refs, history, face, h) && (forall|h2: int|
                h0 <= h2 < h ==> !#[trigger] pair_derives_stored(refs, history, face, h2))
                && named_by_first_storer(refs, history[h].1, resolve_name_from(refs, face, history, h0)),
        (forall|h: int| h0 <= h ==> !#[trigger] pair_derives_stored(refs, history, face, h))
            ==> resolve_name_from(refs, face, history, h0) == kernel_ref_name(face),
    decreases history.len() - h0,
{
    if h0 < history.len() {
        lemma_name_from(refs, face, history, h0 + 1);
        let src = history[h0].1;
        lemma_first_storer(refs, src);
        lemma_first_with_face(refs, src, 0);
        if history[h0].0 == face && first_with_face(refs, src, 0) is Some {
            let i = first_with_face(refs, src, 0)->0;
            assert(stores_face(refs[i], src));
            assert(pair_derives_stored(refs, history, face, h0));
        } else {
            assert(!pair_derives_stored(refs, history, face, h0));
            assert(resolve_name_from(refs, face, history, h0) == resolve_name_from(refs, face, history, h0 + 1));
            if exists|h: int| h0 <= h && #[trigger] pair_derives_stored(refs, history, face, h) {
                let h = choose|h: int| h0 <= h && #[trigger] pair_derives_stored(refs, history, face, h);
                assert(h0 + 1 <= h);
                let w = choose|w: int| h0 + 1 <= w && #[trigger] pair_derives_stored(refs, history, face, w)
                    && (forall|h2: int| h0 + 1 <= h2 < w ==> !#[trigger] pair_derives_stored(refs, history, face, h2))
                    && named_by_first_storer(refs, history[w].1, resolve_name_from(refs, face, history, h0 + 1));
                assert forall|h2: int| h0 <= h2 < w implies !#[trigger] pair_derives_stored(refs, history, face, h2) by {
                    if h2 == h0 {
                    }
                }
            }
        }
    }
}

/// The name of a kernel face: the first reference storing the face; when
/// none does, the first reference storing the source of the first history
/// pair (face, source), wherever in the history it sits, whose source some
/// reference stores; when there is no such pair, the generated kernel name.
pub proof fn law_face_names_follow_history(refs: Seq<TopoRefView>, face: u64, history: Seq<FaceDerivation>)
    ensures
        ({
            let name = resolve_name(refs, face, history);
            &&& (exists|i: int| 0 <= i < refs.len() && #[trigger] stores_face(refs[i], face))
                ==> named_by_first_storer(refs, face, name)
            &&& (forall|i: int| 0 <= i < refs.len() ==> !#[trigger] stores_face(refs[i], face)) ==> {
                &&& (exists|h: int| #[trigger] pair_derives_stored(refs, history, face, h)) ==> exists|h: int|
                    #[trigger] pair_derives_stored(refs, history, face, h) && (forall|h2: int|
                        0 <= h2 < h ==> !#[trigger] pair_derives_stored(refs, history, face, h2))
                        && named_by_first_storer(refs, history[h].1, name)
                &&& (forall|h: int| !#[trigger] pair_derives_stored(refs, history, face, h)) ==> name
                    == kernel_ref_name(face)
            }
        }),
{
    lemma_first_storer(refs, face);
    lemma_name_from(refs, face, history, 0);
    if first_with_face(refs, face, 0) is None {
        assert forall|h: int| #[trigger] pair_derives_stored(refs, history, face, h) implies 0 <= h by {}
    }
}

/// A face is a source of the history exactly when some pair derives from
/// it, and it maps to the post face of the last such pair.
pub proof fn law_last_pair_of_a_source_wins(history: Seq<FaceDerivation>)
    ensures
        forall|src: u64|
            #[trigger] last_post_map(history).contains_key(src) <==> exists|h: int|
                0 <= h < history.len() && (#[trigger] history[h]).1 == src,
        forall|src: u64|
            #[trigger] last_post_map(history).contains_key(src) ==> exists|h: int|
                0 <= h < history.len() && (#[trigger] history[h]).1 == src && last_post_map(history)[src]
                    == history[h].0 && forall|h2: int| h < h2 < history.len() ==> (#[trigger] history[h2]).1
                    != src,
    decreases history.len(),
{
    if history.len() > 0 {
        let rest = history.drop_last();
        law_last_pair_of_a_source_wins(rest);
        let n = history.len() - 1;
        let m = last_post_map(history);
        let mr = last_post_map(rest);
        assert forall|src: u64| #[trigger] m.contains_key(src) <==> exists|h: int|
            0 <= h < history.len() && (#[trigger] history[h]).1 == src by {
            if src == history[n].1 {
                assert(history[n].1 == src);
            } else {
                if mr.contains_key(src) {
                    let h = choose|h: int| 0 <= h < rest.len() && (#[trigger] rest[h]).1 == src;
                    assert(history[h] == rest[h]);
                }
                if exists|h: int| 0 <= h < history.len() && (#[trigger] history[h]).1 == src {
                    let h = choose|h: int| 0 <= h < history.len() && (#[trigger] history[h]).1 == src;
                    assert(h < n);
                    assert(rest[h] == history[h]);
                }
            }
        }
        assert forall|src: u64| #[trigger] m.contains_key(src) implies exists|h: int|
            0 <= h < history.len() && (#[trigger] history[h]).1 == src && m[src] == history[h].0
                && forall|h2: int| h < h2 < history.len() ==> (#[trigger] history[h2]).1 != src by {
            if src == history[n].1 {
                assert(history[n].1 == src && m[src] == history[n].0);
            } else {
                let h = choose|h: int|
                    0 <= h < rest.len() && (#[trigger] rest[h]).1 == src && mr[src] == rest[h].0
                        && forall|h2: int| h < h2 < rest.len() ==> (#[trigger] rest[h2]).1 != src;
                assert(history[h] == rest[h]);
                assert forall|h2: int| h < h2 < history.len() implies (#[trigger] history[h2]).1 != src by {
                    if h2 < n {
                        assert(history[h2] == rest[h2]);
                    }
                }
            }
        }
    }
}

} // verus!

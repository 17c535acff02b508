//! Bookkeeping of the kernel backend: handle allocation, and the face
//! derivation history recorded with an operation's result.
use vstd::prelude::*;
use std::collections::HashMap;

verus! {

broadcast use vstd::std_specs::hash::group_hash_axioms;

/// Storage of opaque kernel handles: ids are handed out in increasing
/// order.
#[derive(Debug, Default)]
pub struct KernelStore {
    next_id: u64,
    /// Member body ids of each compound handle.
    compound_members: HashMap<u64, Vec<u64>>,
    /// Per body, the reference id tagged on each kernel face.
    face_ref_tags: HashMap<u64, HashMap<u64, String>>,
}

impl KernelStore {
    pub closed spec fn next(&self) -> u64 {
        self.next_id
    }

    /// The member ids of each compound.
    pub closed spec fn compounds(&self) -> Map<u64, Seq<u64>> {
        self.compound_members@.map_values(|v: Vec<u64>| v@)
    }

    /// The tagged reference ids, per body and kernel face.
    pub closed spec fn tags(&self) -> Map<u64, Map<u64, Seq<char>>> {
        self.face_ref_tags@.map_values(
            |m: HashMap<u64, String>| m@.map_values(|r: String| r@),
        )
    }

    pub fn new() -> (s: KernelStore)
        ensures
            s.next() == 0,
            s.compounds() == Map::<u64, Seq<u64>>::empty(),
            s.tags() == Map::<u64, Map<u64, Seq<char>>>::empty(),
    {
        let s = KernelStore {
            next_id: 0,
            compound_members: HashMap::new(),
            face_ref_tags: HashMap::new(),
        };
        assert(s.compounds() =~= Map::<u64, Seq<u64>>::empty());
        assert(s.tags() =~= Map::<u64, Map<u64, Seq<char>>>::empty());
        s
    }

    /// A new compound handle grouping the member bodies.
    pub fn insert_compound(&mut self, member_ids: Vec<u64>) -> (id: u64)
        requires
            old(self).next() < u64::MAX,
        ensures
            id == old(self).next(),
            final(self).next() == old(self).next() + 1,
            final(self).compounds() == old(self).compounds().insert(id, member_ids@),
            final(self).tags() == old(self).tags(),
    {
        let ghost before = self.compounds();
        let id = self.alloc_id();
        self.compound_members.insert(id, member_ids);
        assert(self.compounds() =~= before.insert(id, member_ids@));
        id
    }

    /// The member ids of a compound handle, if it is one.
    pub fn compound_member_ids(&self, id: u64) -> (r: Option<&[u64]>)
        ensures
            match r {
                Some(ids) => self.compounds().contains_key(id) && ids@ == self.compounds()[id],
                None => !self.compounds().contains_key(id),
            },
    {
        match self.compound_members.get(&id) {
            Some(v) => Some(v.as_slice()),
            None => None,
        }
    }

    /// Tag a kernel face of a body with a reference id (a later tag of the
    /// same face replaces an earlier one).
    pub fn tag_face_ref(&mut self, body_id: u64, kernel_face_id: u64, ref_id: String)
        ensures
            final(self).next() == old(self).next(),
            final(self).compounds() == old(self).compounds(),
            final(self).tags() == old(self).tags().insert(
                body_id,
                if old(self).tags().contains_key(body_id) {
                    old(self).tags()[body_id]
                } else {
                    Map::empty()
                }.insert(kernel_face_id, ref_id@),
            ),
    {
        let ghost before = self.tags();
        let mut inner = match self.face_ref_tags.remove(&body_id) {
            Some(m) => m,
            None => HashMap::new(),
        };
        let ghost inner_before = inner@.map_values(|r: String| r@);
        assert(inner_before =~= if before.contains_key(body_id) {
            before[body_id]
        } else {
            Map::empty()
        });
        inner.insert(kernel_face_id, ref_id);
        assert(inner@.map_values(|r: String| r@) =~= inner_before.insert(kernel_face_id, ref_id@));
        self.face_ref_tags.insert(body_id, inner);
        assert(self.tags() =~= before.insert(body_id, inner_before.insert(kernel_face_id, ref_id@)));
    }

    /// The tags of a body's faces, if any face of it was tagged.
    pub fn face_ref_tags(&self, body_id: u64) -> (r: Option<&HashMap<u64, String>>)
        ensures
            match r {
                Some(m) => self.tags().contains_key(body_id) && m@.map_values(|x: String| x@)
                    == self.tags()[body_id],
                None => !self.tags().contains_key(body_id),
            },
    {
        self.face_ref_tags.get(&body_id)
    }

    /// A fresh handle id.
    pub fn alloc_id(&mut self) -> (id: u64)
        requires
            old(self).next() < u64::MAX,
        ensures
            id == old(self).next(),
            final(self).next() == old(self).next() + 1,
            final(self).compounds() == old(self).compounds(),
            final(self).tags() == old(self).tags(),
    {
        let id = self.next_id;
        self.next_id = self.next_id + 1;
        id
    }
}

/// `(a, b)` sorts before `(c, d)`: by first component, then second.
pub open spec fn pair_lt(x: (u64, u64), y: (u64, u64)) -> bool {
    x.0 < y.0 || (x.0 == y.0 && x.1 < y.1)
}

pub open spec fn pairs_sorted(s: Seq<(u64, u64)>) -> bool {
    forall|i: int, j: int| 0 <= i < j < s.len() ==> pair_lt(#[trigger] s[i], #[trigger] s[j])
}

/// `(post, src)` is recorded: some history pair `(post_face, src_face)` has
/// a source face the consumed solid enumerated as `src`, and `post` is the
/// one-based position of a result face at the address `post_face`.
pub open spec fn derived_pair(
    result_faces: Seq<u64>,
    history: Seq<(u64, u64)>,
    input_faces: Map<u64, u64>,
    p: (u64, u64),
) -> bool {
    exists|h: int|
        0 <= h < history.len() && input_faces.contains_key(#[trigger] history[h].1) && p.1
            == input_faces[history[h].1] && 1 <= p.0 <= result_faces.len() && result_faces[p.0
            - 1] == history[h].0
}

fn insert_pair(v: &mut Vec<(u64, u64)>, x: (u64, u64))
    requires
        pairs_sorted(old(v)@),
    ensures
        pairs_sorted(final(v)@),
        forall|p: (u64, u64)| #[trigger] final(v)@.contains(p) <==> (old(v)@.contains(p) || p == x),
{
    let ghost old_v = v@;
    let mut i: usize = 0;
    while i < v.len() && (v[i].0 < x.0 || (v[i].0 == x.0 && v[i].1 < x.1))
        invariant
            i <= v.len(),
            v@ == old_v,
            forall|k: int| 0 <= k < i ==> pair_lt(#[trigger] old_v[k], x),
        decreases v.len() - i,
    {
        i = i + 1;
    }
    if i < v.len() && v[i].0 == x.0 && v[i].1 == x.1 {
        assert(old_v[i as int] == x);
        return;
    }
    v.insert(i, x);
    assert(v@ =~= old_v.insert(i as int, x));
    assert forall|p: (u64, u64)| #[trigger] v@.contains(p) <==> (old_v.contains(p) || p == x) by {
        if old_v.contains(p) {
            let k = old_v.index_of(p);
            if k < i {
                assert(v@[k] == p);
            } else {
                assert(v@[k + 1] == p);
            }
        }
        if p == x {
            assert(v@[i as int] == p);
        }
        if v@.contains(p) {
            let k = v@.index_of(p);
            if k < i {
                assert(old_v[k] == p);
            } else if k > i {
                assert(old_v[k - 1] == p);
            }
        }
    }
}

/// The face derivation history of an operation's result, as
/// `(result face index, input face index)` pairs, one-based, sorted and
/// without repeats.  `result_faces` holds the face address of each result
/// face in enumeration order, `history` the kernel's `(post address, source
/// address)` pairs, and `input_faces` the index of each face of the solid
/// the operation consumed; pairs whose source is not there (for example a
/// boolean tool body) are dropped.
pub fn derived_face_history(
    result_faces: &[u64],
    history: &[(u64, u64)],
    input_faces: &HashMap<u64, u64>,
) -> (pairs: Vec<(u64, u64)>)
    ensures
        pairs_sorted(pairs@),
        forall|p: (u64, u64)|
            #[trigger] pairs@.contains(p) <==> derived_pair(result_faces@, history@, input_faces@, p),
{
    let mut pairs: Vec<(u64, u64)> = Vec::new();
    let mut h: usize = 0;
    while h < history.len()
        invariant
            h <= history.len(),
            pairs_sorted(pairs@),
            forall|p: (u64, u64)|
                #[trigger] pairs@.contains(p) <==> derived_pair(
                    result_faces@,
                    history@.subrange(0, h as int),
                    input_faces@,
                    p,
                ),
        decreases history.len() - h,
    {
        let (post, src) = history[h];
        let ghost before = pairs@;
        match input_faces.get(&src) {
            Some(source) => {
                let source = *source;
                let mut k: usize = 0;
                while k < result_faces.len()
                    invariant
                        k <= result_faces.len(),
                        history@[h as int] == (post, src),
                        input_faces@.contains_key(src),
                        input_faces@[src] == source,
                        pairs_sorted(pairs@),
                        forall|p: (u64, u64)|
                            #[trigger] pairs@.contains(p) <==> (before.contains(p) || (p.1 == source
                                && 1 <= p.0 <= k && result_faces@[p.0 - 1] == post)),
                    decreases result_faces.len() - k,
                {
                    if result_faces[k] == post {
                        insert_pair(&mut pairs, (k as u64 + 1, source));
                    }
                    k = k + 1;
                }
            },
            None => {},
        }
        proof {
            let hs = history@.subrange(0, h + 1);
            assert forall|p: (u64, u64)|
                #[trigger] pairs@.contains(p) <==> derived_pair(result_faces@, hs, input_faces@, p) by {
                if derived_pair(result_faces@, hs, input_faces@, p) {
                    let w = choose|w: int|
                        0 <= w < hs.len() && input_faces@.contains_key(#[trigger] hs[w].1) && p.1
                            == input_faces@[hs[w].1] && 1 <= p.0 <= result_faces@.len()
                            && result_faces@[p.0 - 1] == hs[w].0;
                    if w < h {
                        assert(history@.subrange(0, h as int)[w] == hs[w]);
                        assert(derived_pair(result_faces@, history@.subrange(0, h as int), input_faces@, p));
                    }
                }
                if before.contains(p) {
                    let w = choose|w: int|
                        0 <= w < h && input_faces@.contains_key(
                            #[trigger] history@.subrange(0, h as int)[w].1,
                        ) && p.1 == input_faces@[history@.subrange(0, h as int)[w].1] && 1 <= p.0
                            <= result_faces@.len() && result_faces@[p.0 - 1] == history@.subrange(
                            0,
                            h as int,
                        )[w].0;
                    assert(hs[w] == history@.subrange(0, h as int)[w]);
                }
                if pairs@.contains(p) && !before.contains(p) {
                    assert(hs[h as int] == (post, src));
                }
            }
        }
        h = h + 1;
    }
    assert(history@.subrange(0, h as int) =~= history@);
    pairs
}

} // verus!

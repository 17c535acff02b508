//! Feature edges of presentation renders: the mesh edges that bound the
//! surface or separate two kernel faces, each drawn once.
use vstd::prelude::*;

verus! {

/// An edge position key: both end points quantized, in a fixed order.
pub type EdgeKey = ([i32; 3], [i32; 3]);

/// One side of one triangle: its quantized key and the kernel face of the
/// triangle, if the mesh reports one. (The renderer keeps the end points.)
#[derive(Debug, Clone, Copy, PartialEq, Eq)]
pub struct EdgeSighting {
    pub key: EdgeKey,
    pub face_id: Option<u64>,
}

pub open spec fn point_lt(a: [i32; 3], b: [i32; 3]) -> bool {
    a[0] < b[0] || (a[0] == b[0] && (a[1] < b[1] || (a[1] == b[1] && a[2] < b[2])))
}

/// Edge keys in lexicographic order of their six coordinates.
pub open spec fn key_lt(a: EdgeKey, b: EdgeKey) -> bool {
    point_lt(a.0, b.0) || (a.0 == b.0 && point_lt(a.1, b.1))
}

/// Sighting `i` is the first with its key.
pub open spec fn first_sighting(s: Seq<EdgeSighting>, i: int) -> bool {
    0 <= i < s.len() && forall|j: int| 0 <= j < i ==> #[trigger] s[j].key != s[i].key
}

/// An edge is kept when a single triangle has it (a boundary) or the
/// triangles that share it lie on two different kernel faces.
pub open spec fn kept(s: Seq<EdgeSighting>, key: EdgeKey) -> bool {
    ||| forall|j: int, k: int|
        0 <= j < s.len() && 0 <= k < s.len() && #[trigger] s[j].key == key && #[trigger] s[k].key
            == key ==> j == k
    ||| exists|j: int, k: int|
        0 <= j < s.len() && 0 <= k < s.len() && #[trigger] s[j].key == key && #[trigger] s[k].key
            == key && s[j].face_id is Some && s[k].face_id is Some && s[j].face_id != s[k].face_id
}

fn point_less(a: [i32; 3], b: [i32; 3]) -> (r: bool)
    ensures
        r == point_lt(a, b),
{
    a[0] < b[0] || (a[0] == b[0] && (a[1] < b[1] || (a[1] == b[1] && a[2] < b[2])))
}

fn key_less(a: EdgeKey, b: EdgeKey) -> (r: bool)
    ensures
        r == key_lt(a, b),
{
    point_less(a.0, b.0) || (point_eq(a.0, b.0) && point_less(a.1, b.1))
}

fn point_eq(a: [i32; 3], b: [i32; 3]) -> (r: bool)
    ensures
        r == (a == b),
{
    let r = a[0] == b[0] && a[1] == b[1] && a[2] == b[2];
    if r {
        assert(a =~= b);
    }
    r
}

fn key_eq(a: EdgeKey, b: EdgeKey) -> (r: bool)
    ensures
        r == (a == b),
{
    point_eq(a.0, b.0) && point_eq(a.1, b.1)
}

proof fn lemma_point_lt_total(a: [i32; 3], b: [i32; 3])
    ensures
        a == b || point_lt(a, b) || point_lt(b, a),
{
    if a[0] == b[0] && a[1] == b[1] && a[2] == b[2] {
        assert(a =~= b);
    }
}

proof fn lemma_key_lt_total(a: EdgeKey, b: EdgeKey)
    ensures
        a == b || key_lt(a, b) || key_lt(b, a),
{
    lemma_point_lt_total(a.0, b.0);
    lemma_point_lt_total(a.1, b.1);
}

/// Is this sighting's edge kept?
fn is_kept(s: &[EdgeSighting], key: EdgeKey) -> (r: bool)
    ensures
        r == kept(s@, key),
{
    let mut first: Option<usize> = None;
    let mut seen_twice = false;
    let mut first_face: Option<u64> = None;
    let mut faces_differ = false;
    let mut i: usize = 0;
    while i < s.len()
        invariant
            i <= s.len(),
            match first {
                Some(f) => f < i && s@[f as int].key == key && forall|j: int|
                    0 <= j < f ==> #[trigger] s@[j].key != key,
                None => forall|j: int| 0 <= j < i ==> #[trigger] s@[j].key != key,
            },
            seen_twice <==> exists|j: int, k: int|
                0 <= j < i && 0 <= k < i && j != k && #[trigger] s@[j].key == key
                    && #[trigger] s@[k].key == key,
            first_face is Some ==> exists|j: int|
                0 <= j < i && #[trigger] s@[j].key == key && s@[j].face_id == first_face,
            first_face is None ==> forall|j: int|
                0 <= j < i && #[trigger] s@[j].key == key ==> s@[j].face_id is None,
            faces_differ <==> exists|j: int, k: int|
                0 <= j < i && 0 <= k < i && #[trigger] s@[j].key == key && #[trigger] s@[k].key
                    == key && s@[j].face_id is Some && s@[k].face_id is Some && s@[j].face_id
                    != s@[k].face_id,
            first_face is Some ==> forall|j: int|
                0 <= j < i && #[trigger] s@[j].key == key && s@[j].face_id is Some && !faces_differ
                    ==> s@[j].face_id == first_face,
        decreases s.len() - i,
    {
        let x = s[i];
        if key_eq(x.key, key) {
            match first {
                Some(f) => {
                    seen_twice = true;
                    assert(s@[f as int].key == key && s@[i as int].key == key);
                },
                None => {
                    first = Some(i);
                },
            }
            match x.face_id {
                Some(face) => {
                    match first_face {
                        Some(ff) => {
                            if ff != face {
                                proof {
                                    let w = choose|j: int|
                                        0 <= j < i && #[trigger] s@[j].key == key && s@[j].face_id
                                            == first_face;
                                    assert(s@[w].face_id is Some && s@[i as int].face_id is Some
                                        && s@[w].face_id != s@[i as int].face_id);
                                }
                                faces_differ = true;
                            }
                        },
                        None => {
                            first_face = Some(face);
                        },
                    }
                },
                None => {},
            }
        }
        proof {
            assert forall|j: int, k: int|
                0 <= j < i + 1 && 0 <= k < i + 1 && j != k && #[trigger] s@[j].key == key
                    && #[trigger] s@[k].key == key implies seen_twice by {
                if j < i && k < i {
                } else if let Some(f) = first {
                    if j == i && k < i {
                        assert(k >= f);
                    }
                    if k == i && j < i {
                        assert(j >= f);
                    }
                }
            }
        }
        i = i + 1;
    }
    !seen_twice || faces_differ
}

/// Keep the sorted list of kept first sightings: put `i` in its place.
fn insert_by_key(out: &mut Vec<usize>, s: &[EdgeSighting], i: usize)
    requires
        i < s.len(),
        forall|a: int| 0 <= a < old(out).len() ==> #[trigger] old(out)@[a] < s.len(),
        forall|a: int, b: int|
            0 <= a < b < old(out).len() ==> key_lt(
                #[trigger] s@[old(out)@[a] as int].key,
                #[trigger] s@[old(out)@[b] as int].key,
            ),
        forall|a: int| 0 <= a < old(out).len() ==> #[trigger] s@[old(out)@[a] as int].key != s@[i as int].key,
    ensures
        forall|a: int| 0 <= a < final(out).len() ==> #[trigger] final(out)@[a] < s.len(),
        forall|a: int, b: int|
            0 <= a < b < final(out).len() ==> key_lt(
                #[trigger] s@[final(out)@[a] as int].key,
                #[trigger] s@[final(out)@[b] as int].key,
            ),
        forall|x: usize| #[trigger] final(out)@.contains(x) <==> (old(out)@.contains(x) || x == i),
{
    let ghost before = out@;
    let key = s[i].key;
    let mut p: usize = 0;
    while p < out.len() && key_less(s[out[p]].key, key)
        invariant
            p <= out.len(),
            out@ == before,
            forall|a: int| 0 <= a < out.len() ==> #[trigger] out@[a] < s.len(),
            forall|a: int| 0 <= a < p ==> key_lt(#[trigger] s@[out@[a] as int].key, key),
        decreases out.len() - p,
    {
        p = p + 1;
    }
    proof {
        if p < out.len() {
            lemma_key_lt_total(s@[out@[p as int] as int].key, key);
        }
    }
    out.insert(p, i);
    assert(out@ =~= before.insert(p as int, i));
    assert forall|a: int, b: int| 0 <= a < b < out.len() implies key_lt(
        #[trigger] s@[out@[a] as int].key,
        #[trigger] s@[out@[b] as int].key,
    ) by {
        if a < p && b == p {
        } else if a == p && b > p {
            if b > p + 1 {
                lemma_key_lt_transitive(key, s@[before[p as int] as int].key, s@[before[b - 1] as int].key);
            }
        } else if a < p && b > p {
            assert(out@[a] == before[a]);
            assert(out@[b] == before[b - 1]);
        } else if b < p {
            assert(out@[a] == before[a]);
            assert(out@[b] == before[b]);
        } else {
            assert(out@[a] == before[a - 1]);
            assert(out@[b] == before[b - 1]);
        }
    }
    assert forall|x: usize| #[trigger] out@.contains(x) <==> (before.contains(x) || x == i) by {
        if before.contains(x) {
            let k = before.index_of(x);
            if k < p {
                assert(out@[k] == x);
            } else {
                assert(out@[k + 1] == x);
            }
        }
        if x == i {
            assert(out@[p as int] == x);
        }
        if out@.contains(x) {
            let k = out@.index_of(x);
            if k < p {
                assert(before[k] == x);
            } else if k > p {
                assert(before[k - 1] == x);
            }
        }
    }
}

proof fn lemma_key_lt_transitive(a: EdgeKey, b: EdgeKey, c: EdgeKey)
    requires
        key_lt(a, b),
        key_lt(b, c),
    ensures
        key_lt(a, c),
{
}

/// The feature edges of a mesh: the first sighting of every kept edge, in
/// increasing key order.
pub fn mesh_edges(sightings: &[EdgeSighting]) -> (out: Vec<usize>)
    ensures
        forall|a: int| 0 <= a < out.len() ==> #[trigger] out@[a] < sightings@.len(),
        forall|a: int, b: int|
            0 <= a < b < out.len() ==> key_lt(
                #[trigger] sightings@[out@[a] as int].key,
                #[trigger] sightings@[out@[b] as int].key,
            ),
        forall|i: int|
            0 <= i < sightings@.len() ==> (out@.contains(i as usize) <==> first_sighting(
                sightings@,
                i,
            ) && kept(sightings@, #[trigger] sightings@[i].key)),
{
    let mut out: Vec<usize> = Vec::new();
    let mut i: usize = 0;
    while i < sightings.len()
        invariant
            i <= sightings.len(),
            forall|a: int| 0 <= a < out.len() ==> #[trigger] out@[a] < i,
            forall|a: int, b: int|
                0 <= a < b < out.len() ==> key_lt(
                    #[trigger] sightings@[out@[a] as int].key,
                    #[trigger] sightings@[out@[b] as int].key,
                ),
            forall|k: int|
                0 <= k < i ==> (out@.contains(k as usize) <==> first_sighting(sightings@, k) && kept(
                    sightings@,
                    #[trigger] sightings@[k].key,
                )),
        decreases sightings.len() - i,
    {
        let key = sightings[i].key;
        let mut first = true;
        let mut j: usize = 0;
        while j < i
            invariant
                j <= i < sightings.len(),
                key == sightings@[i as int].key,
                first <==> forall|k: int| 0 <= k < j ==> #[trigger] sightings@[k].key != key,
            decreases i - j,
        {
            if key_eq(sightings[j].key, key) {
                first = false;
            }
            j = j + 1;
        }
        let ghost before = out@;
        if first && is_kept(sightings, key) {
            proof {
                assert forall|a: int| 0 <= a < out.len() implies #[trigger] sightings@[out@[a] as int].key
                    != sightings@[i as int].key by {
                    let k = out@[a] as int;
                    assert(out@.contains(k as usize));
                    assert(k < i);
                }
            }
            insert_by_key(&mut out, sightings, i);
        }
        proof {
            assert forall|k: int|
                0 <= k < i + 1 implies (out@.contains(k as usize) <==> first_sighting(sightings@, k)
                && kept(sightings@, #[trigger] sightings@[k].key)) by {
                if k < i {
                    assert(out@.contains(k as usize) <==> before.contains(k as usize));
                }
            }
            assert forall|a: int| 0 <= a < out.len() implies #[trigger] out@[a] < i + 1 by {
                if out@[a] != i {
                    assert(out@.contains(out@[a]));
                    assert(before.contains(out@[a]));
                    let b = before.index_of(out@[a]);
                    assert(before[b] < i);
                }
            }
        }
        i = i + 1;
    }
    out
}

/// No other side has the key of side `i`.
pub open spec fn occurs_once(keys: Seq<EdgeKey>, i: int) -> bool {
    forall|j: int| 0 <= j < keys.len() && j != i ==> #[trigger] keys[j] != keys[i]
}

/// The boundary of a face group: the sides (triangle edges, by key) that no
/// other triangle of the group shares, in order.
pub fn boundary_edges(keys: &[EdgeKey]) -> (out: Vec<usize>)
    ensures
        forall|a: int, b: int| 0 <= a < b < out.len() ==> out@[a] < out@[b],
        forall|a: int| 0 <= a < out.len() ==> #[trigger] out@[a] < keys@.len(),
        forall|i: int|
            0 <= i < keys@.len() ==> (out@.contains(i as usize) <==> occurs_once(keys@, i)),
{
    let mut out: Vec<usize> = Vec::new();
    let mut i: usize = 0;
    while i < keys.len()
        invariant
            i <= keys.len(),
            forall|a: int, b: int| 0 <= a < b < out.len() ==> out@[a] < out@[b],
            forall|a: int| 0 <= a < out.len() ==> #[trigger] out@[a] < i,
            forall|k: int| 0 <= k < i ==> (out@.contains(k as usize) <==> occurs_once(keys@, k)),
        decreases keys.len() - i,
    {
        let mut once = true;
        let mut j: usize = 0;
        while j < keys.len()
            invariant
                i < keys.len(),
                j <= keys.len(),
                once <==> forall|m: int| 0 <= m < j && m != i ==> #[trigger] keys@[m] != keys@[i as int],
            decreases keys.len() - j,
        {
            if j != i && key_eq(keys[j], keys[i]) {
                once = false;
            }
            j = j + 1;
        }
        let ghost before = out@;
        if once {
            out.push(i);
        }
        proof {
            assert forall|k: int| 0 <= k < i + 1 implies (out@.contains(k as usize) <==> occurs_once(
                keys@,
                k,
            )) by {
                if k < i {
                    if out@.contains(k as usize) && out@.index_of(k as usize) == before.len() {
                        assert(out@[before.len() as int] == i);
                    }
                    if before.contains(k as usize) {
                        let w = before.index_of(k as usize);
                        assert(out@[w] == k);
                    }
                    if out@.contains(k as usize) {
                        let w = out@.index_of(k as usize);
                        if w < before.len() {
                            assert(before[w] == k);
                        }
                    }
                } else if once {
                    assert(out@[before.len() as int] == i);
                } else if out@.contains(k as usize) {
                    let w = out@.index_of(k as usize);
                    assert(before[w] < i);
                }
            }
        }
        i = i + 1;
    }
    out
}

} // verus!

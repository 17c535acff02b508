//! Semantic face roles of tessellated triangles, and the grouping of
//! triangles into faces for solid picking.
use vstd::prelude::*;

verus! {

/// Semantic bucket for a coplanar or cylindrical face group.
#[derive(Debug, Clone, Copy, PartialEq, Eq, Hash, Structural)]
pub enum FaceRole {
    Top,
    Bottom,
    PosX,
    NegX,
    PosY,
    NegY,
    Cylindrical,
    Other,
}

/// The name under which a role is reported.
pub open spec fn face_role_name(role: FaceRole) -> Seq<char> {
    match role {
        FaceRole::Top => "top"@,
        FaceRole::Bottom => "bottom"@,
        FaceRole::PosX => "+x"@,
        FaceRole::NegX => "-x"@,
        FaceRole::PosY => "+y"@,
        FaceRole::NegY => "-y"@,
        FaceRole::Cylindrical => "cylindrical"@,
        FaceRole::Other => "other"@,
    }
}

impl FaceRole {
    pub fn as_str(self) -> (name: &'static str)
        ensures
            name@ == face_role_name(self),
    {
        match self {
            FaceRole::Top => "top",
            FaceRole::Bottom => "bottom",
            FaceRole::PosX => "+x",
            FaceRole::NegX => "-x",
            FaceRole::PosY => "+y",
            FaceRole::NegY => "-y",
            FaceRole::Cylindrical => "cylindrical",
            FaceRole::Other => "other",
        }
    }
}

/// What face grouping reads of one tessellated triangle. The renderer
/// measures the triangle (normal, centroid, role, and the quantized
/// position bucket that coplanar triangles share); positions are the bits
/// of their `f32` coordinates.
#[derive(Debug, Clone, Copy, PartialEq, Eq)]
pub struct TriangleFace {
    /// Zero-based scene mesh containing the triangle.
    pub mesh_index: usize,
    /// The kernel's B-Rep face, when the mesh reports one per triangle.
    pub kernel_face_id: Option<u64>,
    pub role: FaceRole,
    pub bucket: (i32, i32),
    pub normal_bits: [u32; 3],
    pub centroid_bits: [u32; 3],
}

/// A group of mesh triangles that share orientation and approximate
/// position, or one kernel face.
#[derive(Debug, Clone, Copy, PartialEq, Eq)]
pub struct FaceGroup {
    pub index: usize,
    /// Zero-based scene mesh containing this face group.
    pub mesh_index: usize,
    pub kernel_face_id: Option<u64>,
    pub role: FaceRole,
    /// Bits of the normal of the group's first triangle.
    pub normal_bits: [u32; 3],
    /// Bits of the centroid of the group's first triangle.
    pub centroid_bits: [u32; 3],
    pub triangle_count: usize,
    /// Position bucket of the group's first triangle.
    pub bucket: (i32, i32),
}

/// Maps triangle indices to semantic face groups in a tessellated body.
#[derive(Debug, Clone, PartialEq, Eq)]
pub struct FaceCatalog {
    pub groups: Vec<FaceGroup>,
    triangle_group: Vec<usize>,
}

/// A triangle joins a group of its own mesh: the group of its kernel face
/// when it has one, else the group with its role and position bucket.
pub open spec fn joins(g: FaceGroup, t: TriangleFace) -> bool {
    g.mesh_index == t.mesh_index && match t.kernel_face_id {
        Some(k) => g.kernel_face_id == Some(k),
        None => g.role == t.role && g.bucket == t.bucket,
    }
}

/// The first group at `from` or later that the triangle joins.
pub open spec fn find_group(groups: Seq<FaceGroup>, t: TriangleFace, from: int) -> Option<int>
    decreases groups.len() - from,
{
    if from < 0 || from >= groups.len() {
        None
    } else if joins(groups[from], t) {
        Some(from)
    } else {
        find_group(groups, t, from + 1)
    }
}

/// The groups of the triangles, in order of first appearance, and the group
/// of each triangle: a triangle joins the first group it matches, or opens
/// a new one.
pub open spec fn grouped(tris: Seq<TriangleFace>) -> (Seq<FaceGroup>, Seq<usize>)
    decreases tris.len(),
{
    if tris.len() == 0 {
        (Seq::empty(), Seq::empty())
    } else {
        let (gs, tg) = grouped(tris.drop_last());
        let t = tris.last();
        match find_group(gs, t, 0) {
            Some(i) => (
                gs.update(i, FaceGroup { triangle_count: (gs[i].triangle_count + 1) as usize, ..gs[i] }),
                tg.push(i as usize),
            ),
            None => (
                gs.push(
                    FaceGroup {
                        index: gs.len() as usize,
                        mesh_index: t.mesh_index,
                        kernel_face_id: t.kernel_face_id,
                        role: t.role,
                        normal_bits: t.normal_bits,
                        centroid_bits: t.centroid_bits,
                        triangle_count: 1,
                        bucket: t.bucket,
                    },
                ),
                tg.push(gs.len() as usize),
            ),
        }
    }
}

proof fn lemma_find_group(groups: Seq<FaceGroup>, t: TriangleFace, from: int)
    ensures
        find_group(groups, t, from) matches Some(i) ==> from <= i < groups.len() && joins(groups[i], t),
    decreases groups.len() - from,
{
    if !(from < 0 || from >= groups.len()) && !joins(groups[from], t) {
        lemma_find_group(groups, t, from + 1);
    }
}

fn joins_exec(g: &FaceGroup, t: &TriangleFace) -> (b: bool)
    ensures
        b == joins(*g, *t),
{
    g.mesh_index == t.mesh_index && match t.kernel_face_id {
        Some(k) => g.kernel_face_id == Some(k),
        None => g.role == t.role && g.bucket.0 == t.bucket.0 && g.bucket.1 == t.bucket.1,
    }
}

impl View for FaceCatalog {
    type V = (Seq<FaceGroup>, Seq<usize>);

    closed spec fn view(&self) -> (Seq<FaceGroup>, Seq<usize>) {
        (self.groups@, self.triangle_group@)
    }
}

impl FaceCatalog {
    /// Group the triangles of the scene meshes, in order.
    pub fn from_triangles(triangles: &[TriangleFace]) -> (c: FaceCatalog)
        ensures
            c@ == grouped(triangles@),
    {
        let mut groups: Vec<FaceGroup> = Vec::new();
        let mut triangle_group: Vec<usize> = Vec::new();
        let mut n: usize = 0;
        while n < triangles.len()
            invariant
                n <= triangles.len(),
                (groups@, triangle_group@) == grouped(triangles@.subrange(0, n as int)),
                forall|g: int| 0 <= g < groups.len() ==> #[trigger] groups@[g].triangle_count <= n,
                groups.len() <= n,
            decreases triangles.len() - n,
        {
            let t = triangles[n];
            let ghost prefix = triangles@.subrange(0, n as int);
            proof {
                assert(triangles@.subrange(0, n + 1).drop_last() =~= prefix);
                assert(triangles@.subrange(0, n + 1).last() == t);
            }
            let mut found: Option<usize> = None;
            let mut i: usize = 0;
            while i < groups.len()
                invariant_except_break
                    found is None,
                    find_group(groups@, t, 0) == find_group(groups@, t, i as int),
                invariant
                    i <= groups.len(),
                ensures
                    match found {
                        Some(k) => find_group(groups@, t, 0) == Some(k as int),
                        None => find_group(groups@, t, 0) is None,
                    },
                decreases groups.len() - i,
            {
                if joins_exec(&groups[i], &t) {
                    found = Some(i);
                    break;
                }
                i = i + 1;
            }
            match found {
                Some(i) => {
                    proof {
                        lemma_find_group(groups@, t, 0);
                    }
                    let mut g = groups[i];
                    g.triangle_count = g.triangle_count + 1;
                    groups.set(i, g);
                    triangle_group.push(i);
                },
                None => {
                    let index = groups.len();
                    groups.push(
                        FaceGroup {
                            index,
                            mesh_index: t.mesh_index,
                            kernel_face_id: t.kernel_face_id,
                            role: t.role,
                            normal_bits: t.normal_bits,
                            centroid_bits: t.centroid_bits,
                            triangle_count: 1,
                            bucket: t.bucket,
                        },
                    );
                    triangle_group.push(index);
                },
            }
            n = n + 1;
        }
        assert(triangles@.subrange(0, n as int) =~= triangles@);
        FaceCatalog { groups, triangle_group }
    }

    pub fn triangle_count(&self) -> (n: usize)
        ensures
            n == self@.1.len(),
    {
        self.triangle_group.len()
    }

    /// The group of a triangle.
    pub fn group_at(&self, triangle_index: usize) -> (g: Option<&FaceGroup>)
        ensures
            match g {
                Some(x) => triangle_index < self@.1.len() && self@.1[triangle_index as int]
                    < self@.0.len() && *x == self@.0[self@.1[triangle_index as int] as int],
                None => triangle_index >= self@.1.len() || self@.1[triangle_index as int]
                    >= self@.0.len(),
            },
    {
        if triangle_index >= self.triangle_group.len() {
            return None;
        }
        let group_index = self.triangle_group[triangle_index];
        if group_index >= self.groups.len() {
            return None;
        }
        Some(&self.groups[group_index])
    }

    /// Triangle indices that belong to a face group, in increasing order.
    pub fn triangle_indices_in_group(&self, group_index: usize) -> (idx: Vec<usize>)
        ensures
            forall|a: int, b: int| 0 <= a < b < idx.len() ==> idx[a] < idx[b],
            forall|k: int|
                0 <= k < self@.1.len() ==> (idx@.contains(k as usize) <==> self@.1[k]
                    == group_index),
            forall|a: int| 0 <= a < idx.len() ==> #[trigger] idx[a] < self@.1.len(),
    {
        let mut idx: Vec<usize> = Vec::new();
        let mut i: usize = 0;
        while i < self.triangle_group.len()
            invariant
                i <= self.triangle_group.len(),
                forall|a: int, b: int| 0 <= a < b < idx.len() ==> idx[a] < idx[b],
                forall|a: int| 0 <= a < idx.len() ==> #[trigger] idx[a] < i,
                forall|k: int|
                    0 <= k < i ==> (idx@.contains(k as usize) <==> self.triangle_group@[k]
                        == group_index),
            decreases self.triangle_group.len() - i,
        {
            let ghost old_idx = idx@;
            if self.triangle_group[i] == group_index {
                idx.push(i);
            }
            proof {
                assert forall|k: int| 0 <= k < i + 1 implies (idx@.contains(k as usize)
                    <==> self.triangle_group@[k] == group_index) by {
                    if idx@.contains(k as usize) {
                        let a = idx@.index_of(k as usize);
                        assert(idx[a] == k);
                    }
                    if k == i && self.triangle_group@[k] == group_index {
                        assert(idx@[idx.len() - 1] == k);
                    }
                    if k < i && self.triangle_group@[k] == group_index {
                        assert(old_idx.contains(k as usize));
                        let a = old_idx.index_of(k as usize);
                        assert(idx@[a] == k);
                    }
                }
            }
            i = i + 1;
        }
        idx
    }
}

/// How many of the triangles' group indexes are `g`.
pub open spec fn members(tg: Seq<usize>, g: int) -> nat
    decreases tg.len(),
{
    if tg.len() == 0 {
        0
    } else {
        members(tg.drop_last(), g) + if tg.last() == g {
            1nat
        } else {
            0nat
        }
    }
}

proof fn lemma_members_push(tg: Seq<usize>, x: usize, g: int)
    ensures
        members(tg.push(x), g) == members(tg, g) + if x == g {
            1nat
        } else {
            0nat
        },
{
    assert(tg.push(x).drop_last() =~= tg);
}

proof fn lemma_members_absent(tg: Seq<usize>, g: int)
    requires
        forall|k: int| 0 <= k < tg.len() ==> tg[k] < g,
    ensures
        members(tg, g) == 0,
    decreases tg.len(),
{
    if tg.len() > 0 {
        lemma_members_absent(tg.drop_last(), g);
    }
}

/// Every triangle has a group; each group knows its own position, and its
/// triangle count is the number of triangles in it.
pub proof fn law_catalog_groups_are_consistent(tris: Seq<TriangleFace>)
    requires
        tris.len() <= usize::MAX,
    ensures
        grouped(tris).1.len() == tris.len(),
        grouped(tris).0.len() <= tris.len(),
        forall|k: int| 0 <= k < tris.len() ==> #[trigger] grouped(tris).1[k] < grouped(tris).0.len(),
        forall|g: int|
            0 <= g < grouped(tris).0.len() ==> (#[trigger] grouped(tris).0[g]).index == g
                && grouped(tris).0[g].triangle_count == members(grouped(tris).1, g),
    decreases tris.len(),
{
    if tris.len() > 0 {
        let rest = tris.drop_last();
        law_catalog_groups_are_consistent(rest);
        let (gs, tg) = grouped(rest);
        let t = tris.last();
        lemma_find_group(gs, t, 0);
        match find_group(gs, t, 0) {
            Some(i) => {
                let (gs2, tg2) = grouped(tris);
                assert forall|g: int| 0 <= g < gs2.len() implies (#[trigger] gs2[g]).index == g
                    && gs2[g].triangle_count == members(tg2, g) by {
                    lemma_members_push(tg, i as usize, g);
                    assert(gs[i].triangle_count == members(tg, i));
                    lemma_members_bound(tg, i);
                    assert(gs[i].triangle_count + 1 <= usize::MAX);
                    if g != i {
                        assert(gs2[g] == gs[g]);
                    }
                }
                assert forall|k: int| 0 <= k < tris.len() implies #[trigger] tg2[k] < gs2.len() by {
                    if k < tg.len() {
                        assert(tg2[k] == tg[k]);
                    }
                }
            },
            None => {
                let (gs2, tg2) = grouped(tris);
                assert forall|g: int| 0 <= g < gs2.len() implies (#[trigger] gs2[g]).index == g
                    && gs2[g].triangle_count == members(tg2, g) by {
                    lemma_members_push(tg, gs.len() as usize, g);
                    if g == gs.len() {
                        lemma_members_absent(tg, g);
                    } else {
                        assert(gs2[g] == gs[g]);
                    }
                }
                assert forall|k: int| 0 <= k < tris.len() implies #[trigger] tg2[k] < gs2.len() by {
                    if k < tg.len() {
                        assert(tg2[k] == tg[k]);
                    }
                }
            },
        }
    }
}

proof fn lemma_members_bound(tg: Seq<usize>, g: int)
    ensures
        members(tg, g) <= tg.len(),
    decreases tg.len(),
{
    if tg.len() > 0 {
        lemma_members_bound(tg.drop_last(), g);
    }
}

/// Each triangle's group is one of its own mesh: the group of its kernel
/// face when it has one, else a group with its role and position bucket.
/// So a group never mixes roles among its triangles without kernel faces.
pub proof fn law_triangles_join_groups_of_their_face(tris: Seq<TriangleFace>)
    requires
        tris.len() <= usize::MAX,
    ensures
        forall|k: int|
            0 <= k < tris.len() ==> {
                let g = grouped(tris).0[#[trigger] grouped(tris).1[k] as int];
                &&& g.mesh_index == tris[k].mesh_index
                &&& tris[k].kernel_face_id matches Some(f) ==> g.kernel_face_id == Some(f)
                &&& tris[k].kernel_face_id is None ==> g.role == tris[k].role && g.bucket
                    == tris[k].bucket
            },
    decreases tris.len(),
{
    law_catalog_groups_are_consistent(tris);
    if tris.len() > 0 {
        let rest = tris.drop_last();
        law_triangles_join_groups_of_their_face(rest);
        law_catalog_groups_are_consistent(rest);
        let (gs, tg) = grouped(rest);
        let (gs2, tg2) = grouped(tris);
        let t = tris.last();
        lemma_find_group(gs, t, 0);
        assert forall|k: int| 0 <= k < tris.len() implies {
            let g = gs2[#[trigger] tg2[k] as int];
            &&& g.mesh_index == tris[k].mesh_index
            &&& tris[k].kernel_face_id matches Some(f) ==> g.kernel_face_id == Some(f)
            &&& tris[k].kernel_face_id is None ==> g.role == tris[k].role && g.bucket == tris[k].bucket
        } by {
            if k < rest.len() {
                assert(tg2[k] == tg[k]);
                assert(rest[k] == tris[k]);
                let gi = tg[k] as int;
                assert(0 <= gi < gs.len());
                assert(gs2[gi].mesh_index == gs[gi].mesh_index);
                assert(gs2[gi].kernel_face_id == gs[gi].kernel_face_id);
                assert(gs2[gi].role == gs[gi].role);
                assert(gs2[gi].bucket == gs[gi].bucket);
            } else {
                assert(tris[k] == t);
            }
        }
    }
}

proof fn lemma_find_group_least(groups: Seq<FaceGroup>, t: TriangleFace, from: int)
    requires
        0 <= from,
    ensures
        find_group(groups, t, from) matches Some(i) ==> forall|g: int| from <= g < i ==> !joins(#[trigger] groups[g], t),
        find_group(groups, t, from) is None ==> forall|g: int| from <= g < groups.len() ==> !joins(#[trigger] groups[g], t),
    decreases groups.len() - from,
{
    if from < groups.len() && !joins(groups[from], t) {
        lemma_find_group_least(groups, t, from + 1);
    }
}

proof fn lemma_first_joined_group(tris: Seq<TriangleFace>)
    requires
        tris.len() <= usize::MAX,
    ensures
        forall|b: int|
            0 <= b < tris.len() ==> joins(grouped(tris).0[#[trigger] grouped(tris).1[b] as int], tris[b])
                && forall|g: int| 0 <= g < grouped(tris).1[b] ==> !joins(grouped(tris).0[g], tris[b]),
    decreases tris.len(),
{
    law_catalog_groups_are_consistent(tris);
    if tris.len() > 0 {
        let rest = tris.drop_last();
        lemma_first_joined_group(rest);
        law_catalog_groups_are_consistent(rest);
        let (gs, tg) = grouped(rest);
        let (gs2, tg2) = grouped(tris);
        let t = tris.last();
        lemma_find_group(gs, t, 0);
        lemma_find_group_least(gs, t, 0);
        assert forall|g: int| 0 <= g < gs.len() implies forall|x: TriangleFace| joins(#[trigger] gs2[g], x) == joins(gs[g], x) by {
            assert(gs2[g].mesh_index == gs[g].mesh_index && gs2[g].kernel_face_id == gs[g].kernel_face_id
                && gs2[g].role == gs[g].role && gs2[g].bucket == gs[g].bucket);
        }
        assert forall|b: int| 0 <= b < tris.len() implies joins(gs2[#[trigger] tg2[b] as int], tris[b])
            && forall|g: int| 0 <= g < tg2[b] ==> !joins(gs2[g], tris[b]) by {
            if b < rest.len() {
                assert(tg2[b] == tg[b]);
                assert(rest[b] == tris[b]);
                assert(joins(gs2[tg[b] as int], rest[b]) == joins(gs[tg[b] as int], rest[b]));
                assert forall|g: int| 0 <= g < tg2[b] implies !joins(gs2[g], tris[b]) by {
                    assert(joins(gs2[g], rest[b]) == joins(gs[g], rest[b]));
                }
            } else {
                assert(tris[b] == t);
                assert forall|g: int| 0 <= g < tg2[b] implies !joins(gs2[g], tris[b]) by {
                    assert(joins(gs2[g], t) == joins(gs[g], t));
                }
                if let Some(i) = find_group(gs, t, 0) {
                    assert(joins(gs2[i], t) == joins(gs[i], t));
                }
            }
        }
    }
}

/// Triangles of one mesh that match alike land in one group: two with the
/// same kernel face, or two without one that share role and position
/// bucket.
pub proof fn law_alike_triangles_share_a_group(tris: Seq<TriangleFace>)
    requires
        tris.len() <= usize::MAX,
    ensures
        forall|a: int, b: int|
            0 <= a < tris.len() && 0 <= b < tris.len() && tris[a].mesh_index == tris[b].mesh_index
                && tris[a].kernel_face_id == tris[b].kernel_face_id && (tris[a].kernel_face_id is None
                ==> tris[a].role == tris[b].role && tris[a].bucket == tris[b].bucket) ==> #[trigger] grouped(
                tris,
            ).1[a] == #[trigger] grouped(tris).1[b],
{
    lemma_first_joined_group(tris);
    law_catalog_groups_are_consistent(tris);
    let (gs, tg) = grouped(tris);
    assert forall|a: int, b: int|
        0 <= a < tris.len() && 0 <= b < tris.len() && tris[a].mesh_index == tris[b].mesh_index
            && tris[a].kernel_face_id == tris[b].kernel_face_id && (tris[a].kernel_face_id is None
            ==> tris[a].role == tris[b].role && tris[a].bucket == tris[b].bucket) implies #[trigger] tg[a]
        == #[trigger] tg[b] by {
        assert forall|g: FaceGroup| joins(g, tris[a]) == joins(g, tris[b]) by {}
        if tg[a] < tg[b] {
            assert(joins(gs[tg[a] as int], tris[a]));
            assert(!joins(gs[tg[a] as int], tris[b]));
        } else if tg[b] < tg[a] {
            assert(joins(gs[tg[b] as int], tris[b]));
            assert(!joins(gs[tg[b] as int], tris[a]));
        }
    }
}

} // verus!

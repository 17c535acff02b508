//! Triangle meshes as the kernel tessellates them: combining meshes and
//! checking which B-Rep faces a mesh carries.
use vstd::prelude::*;
use crate::error::CadError;
use crate::text::decimal_string;

verus! {

/// Render mesh: positions and triangle indices, with the B-Rep face of each
/// triangle when the kernel reports it. Positions and normals are the bits
/// of their `f32` coordinates: meshes are combined here, not measured.
#[derive(Debug, Clone, PartialEq, Eq)]
pub struct MeshSet {
    pub positions: Vec<[u32; 3]>,
    pub normals: Vec<[u32; 3]>,
    pub indices: Vec<u32>,
    /// B-Rep face id per triangle (`indices.len() / 3` entries).
    pub triangle_face_ids: Vec<u64>,
}

impl MeshSet {
    pub fn triangle_count(&self) -> (n: usize)
        ensures
            n == self.indices.len() / 3,
    {
        self.indices.len() / 3
    }

    /// Every triangle has its face id.
    pub fn has_triangle_face_ids(&self) -> (b: bool)
        ensures
            b == (self.triangle_face_ids.len() == self.indices.len() / 3),
    {
        self.triangle_face_ids.len() == self.triangle_count()
    }
}

/// Vertices of the meshes before mesh `k`.
pub open spec fn vertices_before(meshes: Seq<MeshSet>, k: int) -> nat
    decreases k,
{
    if k <= 0 {
        0
    } else {
        vertices_before(meshes, k - 1) + meshes[k - 1].positions@.len()
    }
}

/// The offset added to mesh `k`'s indices: the vertices before it, as the
/// `u32` that `as` makes of the count.
pub open spec fn index_offset(meshes: Seq<MeshSet>, k: int) -> u32 {
    vertices_before(meshes, k) as u32
}

/// No shifted index overflows `u32`.
pub open spec fn offsets_fit(meshes: Seq<MeshSet>) -> bool {
    forall|k: int, j: int|
        0 <= k < meshes.len() && 0 <= j < meshes[k].indices.len() ==> meshes[k].indices[j]
            + index_offset(meshes, k) <= u32::MAX
}

/// The pieces of the first `k` meshes, one mesh after another.
pub open spec fn merged_positions(meshes: Seq<MeshSet>, k: int) -> Seq<[u32; 3]>
    decreases k,
{
    if k <= 0 {
        Seq::empty()
    } else {
        merged_positions(meshes, k - 1) + meshes[k - 1].positions@
    }
}

pub open spec fn merged_normals(meshes: Seq<MeshSet>, k: int) -> Seq<[u32; 3]>
    decreases k,
{
    if k <= 0 {
        Seq::empty()
    } else {
        merged_normals(meshes, k - 1) + meshes[k - 1].normals@
    }
}

pub open spec fn merged_face_ids(meshes: Seq<MeshSet>, k: int) -> Seq<u64>
    decreases k,
{
    if k <= 0 {
        Seq::empty()
    } else {
        merged_face_ids(meshes, k - 1) + meshes[k - 1].triangle_face_ids@
    }
}

/// Mesh `k`'s indices shifted past the vertices of the meshes before it.
pub open spec fn shifted(meshes: Seq<MeshSet>, k: int) -> Seq<u32> {
    meshes[k].indices@.map_values(|i: u32| (i + index_offset(meshes, k)) as u32)
}

pub open spec fn merged_indices(meshes: Seq<MeshSet>, k: int) -> Seq<u32>
    decreases k,
{
    if k <= 0 {
        Seq::empty()
    } else {
        merged_indices(meshes, k - 1) + shifted(meshes, k - 1)
    }
}

proof fn lemma_positions_len(meshes: Seq<MeshSet>, k: int)
    requires
        0 <= k <= meshes.len(),
    ensures
        merged_positions(meshes, k).len() == vertices_before(meshes, k),
    decreases k,
{
    if k > 0 {
        lemma_positions_len(meshes, k - 1);
    }
}

fn append_all<T: Copy>(out: &mut Vec<T>, items: &Vec<T>)
    ensures
        final(out)@ == old(out)@ + items@,
{
    let mut i: usize = 0;
    while i < items.len()
        invariant
            i <= items.len(),
            out@ == old(out)@ + items@.subrange(0, i as int),
        decreases items.len() - i,
    {
        out.push(items[i]);
        assert(items@.subrange(0, i + 1) =~= items@.subrange(0, i as int).push(items@[i as int]));
        i = i + 1;
    }
    assert(items@.subrange(0, i as int) =~= items@);
}

impl MeshSet {
    /// Concatenate multiple mesh sets into one scene mesh: each mesh's
    /// indices are shifted past the vertices of the meshes before it.
    pub fn merge(meshes: &[MeshSet]) -> (m: MeshSet)
        requires
            offsets_fit(meshes@),
        ensures
            m.positions@ == merged_positions(meshes@, meshes@.len() as int),
            m.normals@ == merged_normals(meshes@, meshes@.len() as int),
            m.indices@ == merged_indices(meshes@, meshes@.len() as int),
            m.triangle_face_ids@ == merged_face_ids(meshes@, meshes@.len() as int),
    {
        let mut positions: Vec<[u32; 3]> = Vec::new();
        let mut normals: Vec<[u32; 3]> = Vec::new();
        let mut indices: Vec<u32> = Vec::new();
        let mut triangle_face_ids: Vec<u64> = Vec::new();
        let mut k: usize = 0;
        while k < meshes.len()
            invariant
                k <= meshes.len(),
                offsets_fit(meshes@),
                positions@ == merged_positions(meshes@, k as int),
                normals@ == merged_normals(meshes@, k as int),
                indices@ == merged_indices(meshes@, k as int),
                triangle_face_ids@ == merged_face_ids(meshes@, k as int),
            decreases meshes.len() - k,
        {
            let mesh = &meshes[k];
            proof {
                lemma_positions_len(meshes@, k as int);
            }
            #[verifier::truncate]
            let vertex_offset: u32 = positions.len() as u32;
            assert(vertex_offset == index_offset(meshes@, k as int));
            append_all(&mut positions, &mesh.positions);
            append_all(&mut normals, &mesh.normals);
            let ghost before = indices@;
            let mut j: usize = 0;
            while j < mesh.indices.len()
                invariant
                    j <= mesh.indices.len(),
                    k < meshes.len(),
                    *mesh == meshes@[k as int],
                    offsets_fit(meshes@),
                    vertex_offset == index_offset(meshes@, k as int),
                    indices@ == before + shifted(meshes@, k as int).subrange(0, j as int),
                decreases mesh.indices.len() - j,
            {
                assert(mesh.indices@[j as int] + index_offset(meshes@, k as int) <= u32::MAX);
                indices.push(mesh.indices[j] + vertex_offset);
                assert(shifted(meshes@, k as int).subrange(0, j + 1) =~= shifted(
                    meshes@,
                    k as int,
                ).subrange(0, j as int).push(shifted(meshes@, k as int)[j as int]));
                j = j + 1;
            }
            assert(shifted(meshes@, k as int).subrange(0, j as int) =~= shifted(meshes@, k as int));
            append_all(&mut triangle_face_ids, &mesh.triangle_face_ids);
            k = k + 1;
        }
        MeshSet { positions, normals, indices, triangle_face_ids }
    }
}

/// A mesh without face ids cannot be checked; a face it does not carry is
/// not found.
pub fn validate_kernel_face_on_mesh(mesh: &MeshSet, kernel_face_id: u64) -> (r: Result<(), CadError>)
    ensures
        !(mesh.triangle_face_ids.len() == mesh.indices.len() / 3) ==> r matches Err(
            CadError::Validation(_),
        ),
        mesh.triangle_face_ids.len() == mesh.indices.len() / 3 ==> (r is Ok
            <==> mesh.triangle_face_ids@.contains(kernel_face_id)),
        mesh.triangle_face_ids.len() == mesh.indices.len() / 3 && r is Err ==> r matches Err(
            CadError::NotFound(_),
        ),
{
    if !mesh.has_triangle_face_ids() {
        return Err(
            CadError::Validation(
                "mesh has no triangle_face_ids; tessellate with OCCT first".to_owned(),
            ),
        );
    }
    let mut i: usize = 0;
    while i < mesh.triangle_face_ids.len()
        invariant
            i <= mesh.triangle_face_ids.len(),
            mesh.triangle_face_ids.len() == mesh.indices.len() / 3,
            forall|k: int| 0 <= k < i ==> mesh.triangle_face_ids@[k] != kernel_face_id,
        decreases mesh.triangle_face_ids.len() - i,
    {
        if mesh.triangle_face_ids[i] == kernel_face_id {
            assert(mesh.triangle_face_ids@[i as int] == kernel_face_id);
            return Ok(());
        }
        i = i + 1;
    }
    let mut message = "kernel face '".to_owned();
    let digits = decimal_string(kernel_face_id);
    message.append(digits.as_str());
    message.append("' not found in tessellated body");
    Err(CadError::NotFound(message))
}

/// Triangles of the meshes before mesh `k`.
pub open spec fn triangles_before(meshes: Seq<MeshSet>, k: int) -> nat
    decreases k,
{
    if k <= 0 {
        0
    } else {
        triangles_before(meshes, k - 1) + meshes[k - 1].indices@.len() / 3
    }
}

proof fn lemma_merged_lengths(meshes: Seq<MeshSet>, k: int)
    requires
        0 <= k <= meshes.len(),
        forall|j: int| 0 <= j < meshes.len() ==> (#[trigger] meshes[j]).indices@.len() % 3 == 0,
    ensures
        merged_indices(meshes, k).len() == 3 * triangles_before(meshes, k),
        (forall|j: int|
            0 <= j < meshes.len() ==> (#[trigger] meshes[j]).triangle_face_ids@.len()
                == meshes[j].indices@.len() / 3) ==> merged_face_ids(meshes, k).len()
            == triangles_before(meshes, k),
    decreases k,
{
    if k > 0 {
        lemma_merged_lengths(meshes, k - 1);
        assert(meshes[k - 1].indices@.len() % 3 == 0);
        assert(shifted(meshes, k - 1).len() == meshes[k - 1].indices@.len());
    }
}

/// Merging meshes whose index lists are whole triangles keeps every
/// triangle: the merged mesh has as many as all inputs together, and when
/// every input has a face id per triangle, so does the merged mesh.
pub proof fn law_merge_keeps_triangles_and_face_ids(meshes: Seq<MeshSet>)
    requires
        forall|j: int| 0 <= j < meshes.len() ==> (#[trigger] meshes[j]).indices@.len() % 3 == 0,
    ensures
        merged_indices(meshes, meshes.len() as int).len() / 3 == triangles_before(
            meshes,
            meshes.len() as int,
        ),
        (forall|j: int|
            0 <= j < meshes.len() ==> (#[trigger] meshes[j]).triangle_face_ids@.len()
                == meshes[j].indices@.len() / 3) ==> merged_face_ids(
            meshes,
            meshes.len() as int,
        ).len() == merged_indices(meshes, meshes.len() as int).len() / 3,
{
    lemma_merged_lengths(meshes, meshes.len() as int);
}

} // verus!

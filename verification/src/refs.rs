//! Semantic topological references.
//!
//! Floating-point hints (normals, areas, bounding boxes) are carried as the
//! IEEE-754 bit patterns of their `f64` values: this library never computes
//! with them, it only stores, copies and compares them.
use vstd::prelude::*;
use crate::text::str_eq;

verus! {

broadcast use vstd::array::group_array_axioms;

#[derive(Debug, Clone, Copy, PartialEq, Eq, Structural)]
pub enum TopoRefKind {
    Face,
    Edge,
    Vertex,
}

#[derive(Debug, Clone, PartialEq, Eq)]
pub struct TopoRefSemantic {
    pub created_by: String,
    pub role: Option<String>,
    /// Bits of the `f64` normal hint.
    pub normal_hint: Option<[u64; 3]>,
    pub intent: Option<String>,
}

#[derive(Debug, Clone, PartialEq, Eq)]
pub struct GeometricFingerprint {
    pub surface_type: String,
    pub kernel_face_id: Option<u64>,
    pub kernel_edge_id: Option<u64>,
    /// Bits of the `f64` area range.
    pub area_range: Option<[u64; 2]>,
    /// Bits of the `f64` bounding-box hint.
    pub bbox_hint: Option<[[u64; 3]; 2]>,
    pub adjacent_feature_ids: Vec<String>,
}

/// Semantic topological reference with optional geometric fingerprint.
#[derive(Debug, Clone, PartialEq, Eq)]
pub struct TopoRef {
    pub ref_id: String,
    pub kind: TopoRefKind,
    pub semantic: TopoRefSemantic,
    pub geometric_fingerprint: Option<GeometricFingerprint>,
    pub fallback_query: Option<String>,
}

pub open spec fn opt_view(o: Option<String>) -> Option<Seq<char>> {
    match o {
        Some(s) => Some(s@),
        None => None,
    }
}

pub open spec fn strings_view(v: Seq<String>) -> Seq<Seq<char>> {
    v.map_values(|s: String| s@)
}

pub struct FingerprintView {
    pub surface_type: Seq<char>,
    pub kernel_face_id: Option<u64>,
    pub kernel_edge_id: Option<u64>,
    pub area_range: Option<[u64; 2]>,
    pub bbox_hint: Option<[[u64; 3]; 2]>,
    pub adjacent_feature_ids: Seq<Seq<char>>,
}

pub struct TopoRefView {
    pub ref_id: Seq<char>,
    pub kind: TopoRefKind,
    pub created_by: Seq<char>,
    pub role: Option<Seq<char>>,
    pub normal_hint: Option<[u64; 3]>,
    pub intent: Option<Seq<char>>,
    pub fingerprint: Option<FingerprintView>,
    pub fallback_query: Option<Seq<char>>,
}

impl View for GeometricFingerprint {
    type V = FingerprintView;

    open spec fn view(&self) -> FingerprintView {
        FingerprintView {
            surface_type: self.surface_type@,
            kernel_face_id: self.kernel_face_id,
            kernel_edge_id: self.kernel_edge_id,
            area_range: self.area_range,
            bbox_hint: self.bbox_hint,
            adjacent_feature_ids: strings_view(self.adjacent_feature_ids@),
        }
    }
}

impl View for TopoRef {
    type V = TopoRefView;

    open spec fn view(&self) -> TopoRefView {
        TopoRefView {
            ref_id: self.ref_id@,
            kind: self.kind,
            created_by: self.semantic.created_by@,
            role: opt_view(self.semantic.role),
            normal_hint: self.semantic.normal_hint,
            intent: opt_view(self.semantic.intent),
            fingerprint: match self.geometric_fingerprint {
                Some(f) => Some(f@),
                None => None,
            },
            fallback_query: opt_view(self.fallback_query),
        }
    }
}

pub open spec fn refs_view(refs: Seq<TopoRef>) -> Seq<TopoRefView> {
    refs.map_values(|r: TopoRef| r@)
}

/// The stored kernel face id of a reference, if its fingerprint has one.
pub open spec fn stored_face_id(r: TopoRefView) -> Option<u64> {
    match r.fingerprint {
        Some(f) => f.kernel_face_id,
        None => None,
    }
}

/// The stored kernel edge id of a reference, if its fingerprint has one.
pub open spec fn stored_edge_id(r: TopoRefView) -> Option<u64> {
    match r.fingerprint {
        Some(f) => f.kernel_edge_id,
        None => None,
    }
}

pub fn opt_str_eq(a: &Option<String>, b: &Option<String>) -> (r: bool)
    ensures
        r == (opt_view(*a) == opt_view(*b)),
{
    match (a, b) {
        (Some(x), Some(y)) => str_eq(x.as_str(), y.as_str()),
        (None, None) => true,
        _ => false,
    }
}

pub fn strings_eq(a: &Vec<String>, b: &Vec<String>) -> (r: bool)
    ensures
        r == (strings_view(a@) == strings_view(b@)),
{
    if a.len() != b.len() {
        assert(strings_view(a@).len() != strings_view(b@).len());
        return false;
    }
    let mut i: usize = 0;
    while i < a.len()
        invariant
            a.len() == b.len(),
            i <= a.len(),
            forall|j: int| 0 <= j < i ==> a@[j]@ == b@[j]@,
        decreases a.len() - i,
    {
        if !str_eq(a[i].as_str(), b[i].as_str()) {
            assert(strings_view(a@)[i as int] != strings_view(b@)[i as int]);
            return false;
        }
        i = i + 1;
    }
    assert(strings_view(a@) =~= strings_view(b@));
    true
}

fn opt_u64_eq(a: Option<u64>, b: Option<u64>) -> (r: bool)
    ensures
        r == (a == b),
{
    match (a, b) {
        (Some(x), Some(y)) => x == y,
        (None, None) => true,
        _ => false,
    }
}

fn bits3_eq(a: [u64; 3], b: [u64; 3]) -> (r: bool)
    ensures
        r == (a == b),
{
    let r = a[0] == b[0] && a[1] == b[1] && a[2] == b[2];
    if r {
        assert(a =~= b);
    }
    r
}

fn opt_bits3_eq(a: Option<[u64; 3]>, b: Option<[u64; 3]>) -> (r: bool)
    ensures
        r == (a == b),
{
    match (a, b) {
        (Some(x), Some(y)) => bits3_eq(x, y),
        (None, None) => true,
        _ => false,
    }
}

fn opt_bits2_eq(a: Option<[u64; 2]>, b: Option<[u64; 2]>) -> (r: bool)
    ensures
        r == (a == b),
{
    match (a, b) {
        (Some(x), Some(y)) => {
            let r = x[0] == y[0] && x[1] == y[1];
            if r {
                assert(x =~= y);
            }
            r
        },
        (None, None) => true,
        _ => false,
    }
}

fn opt_box_eq(a: Option<[[u64; 3]; 2]>, b: Option<[[u64; 3]; 2]>) -> (r: bool)
    ensures
        r == (a == b),
{
    match (a, b) {
        (Some(x), Some(y)) => {
            let r = bits3_eq(x[0], y[0]) && bits3_eq(x[1], y[1]);
            if r {
                assert(x =~= y);
            }
            r
        },
        (None, None) => true,
        _ => false,
    }
}

fn fingerprint_eq(a: &GeometricFingerprint, b: &GeometricFingerprint) -> (r: bool)
    ensures
        r == (a@ == b@),
{
    str_eq(a.surface_type.as_str(), b.surface_type.as_str()) && opt_u64_eq(
        a.kernel_face_id,
        b.kernel_face_id,
    ) && opt_u64_eq(a.kernel_edge_id, b.kernel_edge_id) && opt_bits2_eq(a.area_range, b.area_range)
        && opt_box_eq(a.bbox_hint, b.bbox_hint) && strings_eq(
        &a.adjacent_feature_ids,
        &b.adjacent_feature_ids,
    )
}

/// Every field of two references agrees (hints compared bit for bit).
pub fn topo_ref_eq(a: &TopoRef, b: &TopoRef) -> (r: bool)
    ensures
        r == (a@ == b@),
{
    let fingerprints_equal = match (&a.geometric_fingerprint, &b.geometric_fingerprint) {
        (Some(x), Some(y)) => fingerprint_eq(x, y),
        (None, None) => true,
        _ => false,
    };
    str_eq(a.ref_id.as_str(), b.ref_id.as_str()) && kind_eq(a.kind, b.kind) && str_eq(
        a.semantic.created_by.as_str(),
        b.semantic.created_by.as_str(),
    ) && opt_str_eq(&a.semantic.role, &b.semantic.role) && opt_bits3_eq(
        a.semantic.normal_hint,
        b.semantic.normal_hint,
    ) && opt_str_eq(&a.semantic.intent, &b.semantic.intent)
        && fingerprints_equal && opt_str_eq(&a.fallback_query, &b.fallback_query)
}

fn kind_eq(a: TopoRefKind, b: TopoRefKind) -> (r: bool)
    ensures
        r == (a == b),
{
    match (a, b) {
        (TopoRefKind::Face, TopoRefKind::Face) => true,
        (TopoRefKind::Edge, TopoRefKind::Edge) => true,
        (TopoRefKind::Vertex, TopoRefKind::Vertex) => true,
        _ => false,
    }
}

impl TopoRef {
    /// A face reference named by its creating feature and role.
    pub fn face(ref_id: String, created_by: String, role: String) -> (r: TopoRef)
        ensures
            r@.ref_id == ref_id@,
            r@.kind == TopoRefKind::Face,
            r@.created_by == created_by@,
            r@.role == Some(role@),
            r@.normal_hint is None,
            r@.intent is None,
            r@.fingerprint is None,
            r@.fallback_query is None,
    {
        TopoRef {
            ref_id,
            kind: TopoRefKind::Face,
            semantic: TopoRefSemantic { created_by, role: Some(role), normal_hint: None, intent: None },
            geometric_fingerprint: None,
            fallback_query: None,
        }
    }

    /// A face reference pinned to a kernel face, with its normal hint.
    pub fn kernel_face(
        ref_id: String,
        created_by: String,
        role: String,
        kernel_face_id: u64,
        normal_hint: [u64; 3],
    ) -> (r: TopoRef)
        ensures
            r@.ref_id == ref_id@,
            r@.kind == TopoRefKind::Face,
            r@.created_by == created_by@,
            r@.role == Some(role@),
            r@.normal_hint == Some(normal_hint),
            r@.intent is None,
            r@.fingerprint == Some(
                FingerprintView {
                    surface_type: "brep_face"@,
                    kernel_face_id: Some(kernel_face_id),
                    kernel_edge_id: None,
                    area_range: None,
                    bbox_hint: None,
                    adjacent_feature_ids: Seq::empty(),
                },
            ),
            r@.fallback_query is None,
    {
        let ids: Vec<String> = Vec::new();
        assert(strings_view(ids@) =~= Seq::empty());
        TopoRef {
            ref_id,
            kind: TopoRefKind::Face,
            semantic: TopoRefSemantic {
                created_by,
                role: Some(role),
                normal_hint: Some(normal_hint),
                intent: None,
            },
            geometric_fingerprint: Some(
                GeometricFingerprint {
                    surface_type: "brep_face".to_owned(),
                    kernel_face_id: Some(kernel_face_id),
                    kernel_edge_id: None,
                    area_range: None,
                    bbox_hint: None,
                    adjacent_feature_ids: ids,
                },
            ),
            fallback_query: None,
        }
    }

    /// An edge reference named by its creating feature and role.
    pub fn edge(ref_id: String, created_by: String, role: String) -> (r: TopoRef)
        ensures
            r@.ref_id == ref_id@,
            r@.kind == TopoRefKind::Edge,
            r@.created_by == created_by@,
            r@.role == Some(role@),
            r@.normal_hint is None,
            r@.intent is None,
            r@.fingerprint is None,
            r@.fallback_query is None,
    {
        TopoRef {
            ref_id,
            kind: TopoRefKind::Edge,
            semantic: TopoRefSemantic { created_by, role: Some(role), normal_hint: None, intent: None },
            geometric_fingerprint: None,
            fallback_query: None,
        }
    }

    /// An edge reference pinned to a kernel edge; the midpoint and tangent
    /// hints are stored as the two rows of the bounding-box hint.
    pub fn kernel_edge(
        ref_id: String,
        created_by: String,
        role: String,
        kernel_edge_id: u64,
        midpoint_hint: [u64; 3],
        tangent_hint: [u64; 3],
    ) -> (r: TopoRef)
        ensures
            r@.ref_id == ref_id@,
            r@.kind == TopoRefKind::Edge,
            r@.created_by == created_by@,
            r@.role == Some(role@),
            r@.normal_hint is None,
            r@.intent is None,
            r@.fingerprint == Some(
                FingerprintView {
                    surface_type: "brep_edge"@,
                    kernel_face_id: None,
                    kernel_edge_id: Some(kernel_edge_id),
                    area_range: None,
                    bbox_hint: Some([midpoint_hint, tangent_hint]),
                    adjacent_feature_ids: Seq::empty(),
                },
            ),
            r@.fallback_query is None,
    {
        let ids: Vec<String> = Vec::new();
        assert(strings_view(ids@) =~= Seq::empty());
        TopoRef {
            ref_id,
            kind: TopoRefKind::Edge,
            semantic: TopoRefSemantic { created_by, role: Some(role), normal_hint: None, intent: None },
            geometric_fingerprint: Some(
                GeometricFingerprint {
                    surface_type: "brep_edge".to_owned(),
                    kernel_face_id: None,
                    kernel_edge_id: Some(kernel_edge_id),
                    area_range: None,
                    bbox_hint: Some([midpoint_hint, tangent_hint]),
                    adjacent_feature_ids: ids,
                },
            ),
            fallback_query: None,
        }
    }

    pub fn kernel_face_id(&self) -> (id: Option<u64>)
        ensures
            id == stored_face_id(self@),
    {
        match &self.geometric_fingerprint {
            Some(fingerprint) => fingerprint.kernel_face_id,
            None => None,
        }
    }

    pub fn kernel_edge_id(&self) -> (id: Option<u64>)
        ensures
            id == stored_edge_id(self@),
    {
        match &self.geometric_fingerprint {
            Some(fingerprint) => fingerprint.kernel_edge_id,
            None => None,
        }
    }
}

} // verus!

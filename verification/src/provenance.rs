//! Fail-closed provenance of semantic reference resolutions.
//!
//! Every resolution of a semantic reference against regenerated topology is
//! classified as exact, derived, fingerprint, ambiguous or missing.
//! Candidates that tie for the best score are reported as ambiguous instead
//! of being chosen by the order they arrived in, and a required reference
//! that is ambiguous or missing is refused with an error.
use vstd::prelude::*;
use crate::error::CadError;
use crate::order::lex_lt;
use crate::ref_sync::{
    copy_opt, copy_refs, law_sorted_refs_are_in_id_order, role_allows, role_allows_exec,
    sort_refs_by_id, sorted_by_id, EdgeRefDiscovery, FaceRefDiscovery,
};
use crate::refs::{opt_view, refs_view, stored_edge_id, stored_face_id, TopoRef, TopoRefKind, TopoRefView};
use crate::text::{decimal, decimal_string};
use crate::topo_sync::{find_named, first_named, lemma_first_named, FaceDerivation};

verus! {

broadcast use vstd::seq_lib::group_to_multiset_ensures;

/// How a semantic reference was resolved against the regenerated topology.
#[derive(Debug, Clone, Copy, PartialEq, Eq, Hash, Structural)]
pub enum ReferenceStatus {
    /// Stored kernel id is present unchanged in the regenerated body.
    Exact,
    /// Stored kernel id was remapped through derivation history to a current id.
    Derived,
    /// No usable stored id; matched by role and/or geometric fingerprint.
    Fingerprint,
    /// More than one candidate had an equal best score; no deterministic choice.
    Ambiguous,
    /// No candidate satisfied the reference.
    Missing,
}

/// The status leaves the reference unpinned.
pub open spec fn unresolved(s: ReferenceStatus) -> bool {
    s is Ambiguous || s is Missing
}

impl ReferenceStatus {
    /// Whether the status means the reference could not be pinned to one face/edge.
    pub fn is_unresolved(self) -> (r: bool)
        ensures
            r == unresolved(self),
    {
        match self {
            ReferenceStatus::Ambiguous | ReferenceStatus::Missing => true,
            _ => false,
        }
    }
}

/// One scored candidate considered for a reference resolution. The score is
/// kept as the bit pattern of its `f64`; `at_best` records whether the score
/// ties with the best score of its list (scores are compared where they are
/// computed, within the tie tolerance).
#[derive(Debug, Clone, PartialEq, Eq)]
pub struct CandidateEvidence {
    pub kernel_id: u64,
    pub score_bits: u64,
    pub at_best: bool,
    pub feature_id: Option<String>,
    pub role: Option<String>,
}

pub struct CandidateView {
    pub kernel_id: u64,
    pub score_bits: u64,
    pub at_best: bool,
    pub feature_id: Option<Seq<char>>,
    pub role: Option<Seq<char>>,
}

impl View for CandidateEvidence {
    type V = CandidateView;

    open spec fn view(&self) -> CandidateView {
        CandidateView {
            kernel_id: self.kernel_id,
            score_bits: self.score_bits,
            at_best: self.at_best,
            feature_id: opt_view(self.feature_id),
            role: opt_view(self.role),
        }
    }
}

pub open spec fn candidates_view(c: Seq<CandidateEvidence>) -> Seq<CandidateView> {
    c.map_values(|x: CandidateEvidence| x@)
}

/// A candidate list marks its best: a non-empty list has a candidate at the
/// best score.
pub open spec fn has_best(c: Seq<CandidateView>) -> bool {
    c.len() == 0 || exists|i: int| 0 <= i < c.len() && #[trigger] c[i].at_best
}

/// Two different kernel ids tie for the best score.
pub open spec fn tie_between_distinct(c: Seq<CandidateView>) -> bool {
    exists|i: int, j: int|
        0 <= i < c.len() && 0 <= j < c.len() && #[trigger] c[i].at_best && #[trigger] c[j].at_best
            && c[i].kernel_id != c[j].kernel_id
}

/// How many candidates sit at the best score.
pub open spec fn best_count(c: Seq<CandidateView>) -> nat
    decreases c.len(),
{
    if c.len() == 0 {
        0
    } else {
        best_count(c.drop_last()) + if c.last().at_best {
            1nat
        } else {
            0nat
        }
    }
}

/// The kernel id of a candidate at the best score.
pub open spec fn best_id(c: Seq<CandidateView>) -> u64 {
    c[choose|i: int| 0 <= i < c.len() && #[trigger] c[i].at_best].kernel_id
}

/// Scored candidates classified: none, a tie between distinct ids, or the
/// one id at the best score.
pub open spec fn classify(c: Seq<CandidateView>) -> Option<(ReferenceStatus, u64)> {
    if c.len() == 0 {
        None
    } else if tie_between_distinct(c) {
        Some((ReferenceStatus::Ambiguous, 0))
    } else {
        Some((ReferenceStatus::Fingerprint, best_id(c)))
    }
}

proof fn lemma_best_count_bound(c: Seq<CandidateView>)
    ensures
        best_count(c) <= c.len(),
    decreases c.len(),
{
    if c.len() > 0 {
        lemma_best_count_bound(c.drop_last());
    }
}

fn copy_candidate(c: &CandidateEvidence) -> (x: CandidateEvidence)
    ensures
        x@ == c@,
{
    CandidateEvidence {
        kernel_id: c.kernel_id,
        score_bits: c.score_bits,
        at_best: c.at_best,
        feature_id: copy_opt(&c.feature_id),
        role: copy_opt(&c.role),
    }
}

fn copy_candidates(c: &[CandidateEvidence]) -> (v: Vec<CandidateEvidence>)
    ensures
        candidates_view(v@) == candidates_view(c@),
{
    let mut v: Vec<CandidateEvidence> = Vec::new();
    let mut i: usize = 0;
    while i < c.len()
        invariant
            i <= c.len(),
            candidates_view(v@) == candidates_view(c@).subrange(0, i as int),
        decreases c.len() - i,
    {
        let ghost before = v@;
        let x = copy_candidate(&c[i]);
        v.push(x);
        assert(candidates_view(v@) =~= candidates_view(before).push(x@));
        assert(candidates_view(v@) =~= candidates_view(c@).subrange(0, i + 1));
        i = i + 1;
    }
    assert(candidates_view(c@).subrange(0, c.len() as int) =~= candidates_view(c@));
    v
}

/// The number of candidates at the best score.
fn count_best(c: &[CandidateEvidence]) -> (n: usize)
    ensures
        n == best_count(candidates_view(c@)),
{
    let ghost cv = candidates_view(c@);
    let mut n: usize = 0;
    let mut i: usize = 0;
    while i < c.len()
        invariant
            i <= c.len(),
            cv == candidates_view(c@),
            n == best_count(cv.subrange(0, i as int)),
            n <= i,
        decreases c.len() - i,
    {
        assert(cv.subrange(0, i + 1).drop_last() =~= cv.subrange(0, i as int));
        if c[i].at_best {
            n = n + 1;
        }
        i = i + 1;
    }
    assert(cv.subrange(0, c.len() as int) =~= cv);
    n
}

/// Classify scored candidates into a fingerprint pick or an ambiguity.
fn classify_candidates(candidates: &[CandidateEvidence]) -> (r: Option<(ReferenceStatus, u64)>)
    requires
        has_best(candidates_view(candidates@)),
    ensures
        r == classify(candidates_view(candidates@)),
{
    let ghost cv = candidates_view(candidates@);
    if candidates.len() == 0 {
        return None;
    }
    let mut f: usize = 0;
    while f < candidates.len() && !candidates[f].at_best
        invariant
            f <= candidates.len(),
            cv == candidates_view(candidates@),
            has_best(cv),
            cv.len() > 0,
            forall|k: int| 0 <= k < f ==> !(#[trigger] cv[k]).at_best,
        decreases candidates.len() - f,
    {
        f = f + 1;
    }
    if f == candidates.len() {
        proof {
            let w = choose|i: int| 0 <= i < cv.len() && #[trigger] cv[i].at_best;
            assert(!cv[w].at_best);
        }
        return None;
    }
    let id = candidates[f].kernel_id;
    let mut tie = false;
    let mut i: usize = 0;
    while i < candidates.len()
        invariant
            i <= candidates.len(),
            f < candidates.len(),
            cv == candidates_view(candidates@),
            cv[f as int].at_best,
            id == cv[f as int].kernel_id,
            tie <==> exists|k: int| 0 <= k < i && #[trigger] cv[k].at_best && cv[k].kernel_id != id,
        decreases candidates.len() - i,
    {
        if candidates[i].at_best && candidates[i].kernel_id != id {
            assert(cv[i as int].at_best);
            tie = true;
        }
        i = i + 1;
    }
    proof {
        if tie {
            let k = choose|k: int| 0 <= k < cv.len() && #[trigger] cv[k].at_best && cv[k].kernel_id != id;
            assert(cv[k].at_best && cv[f as int].at_best && cv[k].kernel_id != cv[f as int].kernel_id);
        } else {
            let w = choose|i: int| 0 <= i < cv.len() && #[trigger] cv[i].at_best;
            assert(cv[w].at_best);
            assert(cv[w].kernel_id == id);
            if tie_between_distinct(cv) {
                let (a, b) = choose|a: int, b: int|
                    0 <= a < cv.len() && 0 <= b < cv.len() && #[trigger] cv[a].at_best
                        && #[trigger] cv[b].at_best && cv[a].kernel_id != cv[b].kernel_id;
                assert(cv[a].at_best && cv[b].at_best);
            }
        }
    }
    if tie {
        Some((ReferenceStatus::Ambiguous, 0))
    } else {
        Some((ReferenceStatus::Fingerprint, id))
    }
}

/// Fail-closed provenance for one semantic reference resolution.
#[derive(Debug, Clone, PartialEq)]
pub struct ReferenceProvenance {
    pub ref_id: String,
    pub kind: TopoRefKind,
    pub status: ReferenceStatus,
    pub created_by: String,
    pub role: Option<String>,
    /// Kernel id selected for Exact/Derived/Fingerprint; absent when ambiguous/missing.
    pub resolved_kernel_id: Option<u64>,
    /// Number of candidates considered after scoring.
    pub candidate_count: usize,
    /// Human-readable reason for the outcome.
    pub reason: String,
    /// Candidate kernel ids and scores that were considered.
    pub candidates: Vec<CandidateEvidence>,
    /// When true, an ambiguous or missing result fails closed instead of returning.
    pub required: bool,
}

pub struct ProvenanceView {
    pub ref_id: Seq<char>,
    pub kind: TopoRefKind,
    pub status: ReferenceStatus,
    pub created_by: Seq<char>,
    pub role: Option<Seq<char>>,
    pub resolved_kernel_id: Option<u64>,
    pub candidate_count: nat,
    pub reason: Seq<char>,
    pub candidates: Seq<CandidateView>,
    pub required: bool,
}

impl View for ReferenceProvenance {
    type V = ProvenanceView;

    open spec fn view(&self) -> ProvenanceView {
        ProvenanceView {
            ref_id: self.ref_id@,
            kind: self.kind,
            status: self.status,
            created_by: self.created_by@,
            role: opt_view(self.role),
            resolved_kernel_id: self.resolved_kernel_id,
            candidate_count: self.candidate_count as nat,
            reason: self.reason@,
            candidates: candidates_view(self.candidates@),
            required: self.required,
        }
    }
}

/// Outcome of a provenance-aware resolution.
#[derive(Debug, Clone, PartialEq)]
pub struct ReferenceResolution {
    pub provenance: ReferenceProvenance,
    /// Present only for Exact/Derived/Fingerprint.
    pub resolved_kernel_id: Option<u64>,
}

/// The provenance of a reference found in the document.
pub open spec fn provenance_of(
    r: TopoRefView,
    status: ReferenceStatus,
    resolved: Option<u64>,
    candidates: Seq<CandidateView>,
    reason: Seq<char>,
    required: bool,
) -> ProvenanceView {
    ProvenanceView {
        ref_id: r.ref_id,
        kind: r.kind,
        status,
        created_by: r.created_by,
        role: r.role,
        resolved_kernel_id: resolved,
        candidate_count: candidates.len(),
        reason,
        candidates,
        required,
    }
}

/// The provenance of a reference id that the document does not hold.
pub open spec fn absent_provenance(ref_id: Seq<char>, kind: TopoRefKind, required: bool) -> ProvenanceView {
    ProvenanceView {
        ref_id,
        kind,
        status: ReferenceStatus::Missing,
        created_by: Seq::empty(),
        role: None,
        resolved_kernel_id: None,
        candidate_count: 0,
        reason: "reference is not present in the document"@,
        candidates: Seq::empty(),
        required,
    }
}

/// Resolution by the scored candidates alone.
pub open spec fn fingerprint_provenance(
    r: TopoRefView,
    c: Seq<CandidateView>,
    required: bool,
) -> ProvenanceView {
    match classify(c) {
        None => provenance_of(
            r,
            ReferenceStatus::Missing,
            None,
            c,
            "no face or edge discovery satisfies the reference"@,
            required,
        ),
        Some((status, id)) => if status is Ambiguous {
            provenance_of(
                r,
                status,
                None,
                c,
                decimal(best_count(c))
                    + " candidates tie with equal best score; refusing an arbitrary pick"@,
                required,
            )
        } else {
            provenance_of(
                r,
                status,
                Some(id),
                c,
                "matched by role and/or geometric fingerprint"@,
                required,
            )
        },
    }
}

/// How a stored id was checked: against discoveries, or not at all.
pub open spec fn check_suffix(checked: bool) -> Seq<char> {
    if checked {
        " present in the regenerated body"@
    } else {
        " accepted without discovery verification"@
    }
}

/// Some discovered face has the id and a role the reference allows.
pub open spec fn face_discovered(r: TopoRefView, ds: Seq<FaceRefDiscovery>, id: u64) -> bool {
    exists|i: int|
        0 <= i < ds.len() && (#[trigger] ds[i]).kernel_face_id == id && role_allows(r, ds[i].role@)
}

/// Some discovered edge has the id and a role the reference allows.
pub open spec fn edge_discovered(r: TopoRefView, ds: Seq<EdgeRefDiscovery>, id: u64) -> bool {
    exists|i: int|
        0 <= i < ds.len() && (#[trigger] ds[i]).kernel_edge_id == id && role_allows(r, ds[i].role@)
}

pub open spec fn faces_view(d: Option<&[FaceRefDiscovery]>) -> Option<Seq<FaceRefDiscovery>> {
    match d {
        Some(ds) => Some(ds@),
        None => None,
    }
}

pub open spec fn edges_view(d: Option<&[EdgeRefDiscovery]>) -> Option<Seq<EdgeRefDiscovery>> {
    match d {
        Some(ds) => Some(ds@),
        None => None,
    }
}

/// Candidates count only where discoveries were given.
pub open spec fn considered(given: bool, c: Seq<CandidateView>) -> Seq<CandidateView> {
    if given {
        c
    } else {
        Seq::empty()
    }
}

/// The provenance of the face reference named `ref_id`: the first reference
/// with that id; its stored kernel face when the discoveries confirm it (or
/// none were given), else the scored candidates. Stored ids are final-body
/// ids and are not remapped through history.
pub open spec fn face_provenance(
    refs: Seq<TopoRefView>,
    ref_id: Seq<char>,
    discoveries: Option<Seq<FaceRefDiscovery>>,
    candidates: Seq<CandidateView>,
    required: bool,
) -> ProvenanceView {
    match first_named(refs, ref_id, 0) {
        None => absent_provenance(ref_id, TopoRefKind::Face, required),
        Some(i) => {
            let r = refs[i];
            let c = considered(discoveries is Some, candidates);
            let stored = stored_face_id(r);
            if stored is Some && match discoveries {
                Some(ds) => face_discovered(r, ds, stored->0),
                None => true,
            } {
                provenance_of(
                    r,
                    ReferenceStatus::Exact,
                    stored,
                    c,
                    "stored kernel face "@ + decimal(stored->0 as nat) + check_suffix(
                        discoveries is Some,
                    ),
                    required,
                )
            } else {
                fingerprint_provenance(r, c, required)
            }
        },
    }
}

/// The provenance of the edge reference named `ref_id`, as for faces.
pub open spec fn edge_provenance(
    refs: Seq<TopoRefView>,
    ref_id: Seq<char>,
    discoveries: Option<Seq<EdgeRefDiscovery>>,
    candidates: Seq<CandidateView>,
    required: bool,
) -> ProvenanceView {
    match first_named(refs, ref_id, 0) {
        None => absent_provenance(ref_id, TopoRefKind::Edge, required),
        Some(i) => {
            let r = refs[i];
            let c = considered(discoveries is Some, candidates);
            let stored = stored_edge_id(r);
            if stored is Some && match discoveries {
                Some(ds) => edge_discovered(r, ds, stored->0),
                None => true,
            } {
                provenance_of(
                    r,
                    ReferenceStatus::Exact,
                    stored,
                    c,
                    "stored kernel edge "@ + decimal(stored->0 as nat) + check_suffix(
                        discoveries is Some,
                    ),
                    required,
                )
            } else {
                fingerprint_provenance(r, c, required)
            }
        },
    }
}

pub open spec fn kind_name(k: TopoRefKind) -> Seq<char> {
    match k {
        TopoRefKind::Face => "Face"@,
        TopoRefKind::Edge => "Edge"@,
        TopoRefKind::Vertex => "Vertex"@,
    }
}

pub open spec fn status_name(s: ReferenceStatus) -> Seq<char> {
    match s {
        ReferenceStatus::Exact => "Exact"@,
        ReferenceStatus::Derived => "Derived"@,
        ReferenceStatus::Fingerprint => "Fingerprint"@,
        ReferenceStatus::Ambiguous => "Ambiguous"@,
        ReferenceStatus::Missing => "Missing"@,
    }
}

/// The message a required reference is refused with.
pub open spec fn refusal_message(p: ProvenanceView) -> Seq<char> {
    "required reference '"@ + p.ref_id + "' ("@ + kind_name(p.kind) + ") is "@ + status_name(
        p.status,
    ) + ": "@ + p.reason
}

/// What a resolution returns for a provenance: the refusal when the
/// reference is required and unresolved, else the provenance itself.
pub open spec fn settled(p: ProvenanceView, r: Result<ReferenceResolution, CadError>) -> bool {
    if p.required && p.resolved_kernel_id is None {
        r matches Err(CadError::Validation(m)) && m@ == refusal_message(p)
    } else {
        r matches Ok(res) && res.provenance@ == p && res.resolved_kernel_id == p.resolved_kernel_id
    }
}

fn kind_text(k: TopoRefKind) -> (s: &'static str)
    ensures
        s@ == kind_name(k),
{
    match k {
        TopoRefKind::Face => "Face",
        TopoRefKind::Edge => "Edge",
        TopoRefKind::Vertex => "Vertex",
    }
}

fn status_text(s: ReferenceStatus) -> (t: &'static str)
    ensures
        t@ == status_name(s),
{
    match s {
        ReferenceStatus::Exact => "Exact",
        ReferenceStatus::Derived => "Derived",
        ReferenceStatus::Fingerprint => "Fingerprint",
        ReferenceStatus::Ambiguous => "Ambiguous",
        ReferenceStatus::Missing => "Missing",
    }
}

impl ReferenceProvenance {
    /// Assert the reference resolved to a single current face/edge.
    pub fn assert_resolved(&self) -> (r: Result<(), CadError>)
        ensures
            r is Ok <==> self.resolved_kernel_id is Some,
            r matches Err(e) ==> e matches CadError::Validation(m) && m@ == refusal_message(self@),
    {
        if self.resolved_kernel_id.is_some() {
            return Ok(());
        }
        let mut m = "required reference '".to_owned();
        m.append(self.ref_id.as_str());
        m.append("' (");
        m.append(kind_text(self.kind));
        m.append(") is ");
        m.append(status_text(self.status));
        m.append(": ");
        m.append(self.reason.as_str());
        Err(CadError::Validation(m))
    }
}

fn finish(provenance: ReferenceProvenance) -> (r: Result<ReferenceResolution, CadError>)
    ensures
        settled(provenance@, r),
{
    if provenance.required {
        if let Err(e) = provenance.assert_resolved() {
            return Err(e);
        }
    }
    let resolved = provenance.resolved_kernel_id;
    Ok(ReferenceResolution { provenance, resolved_kernel_id: resolved })
}

fn provenance_from(
    topo_ref: &TopoRef,
    status: ReferenceStatus,
    resolved_kernel_id: Option<u64>,
    candidates: &[CandidateEvidence],
    reason: String,
    required: bool,
) -> (p: ReferenceProvenance)
    ensures
        p@ == provenance_of(
            topo_ref@,
            status,
            resolved_kernel_id,
            candidates_view(candidates@),
            reason@,
            required,
        ),
{
    ReferenceProvenance {
        ref_id: topo_ref.ref_id.clone(),
        kind: topo_ref.kind,
        status,
        created_by: topo_ref.semantic.created_by.clone(),
        role: copy_opt(&topo_ref.semantic.role),
        resolved_kernel_id,
        candidate_count: candidates.len(),
        reason,
        candidates: copy_candidates(candidates),
        required,
    }
}

fn absent(ref_id: &str, kind: TopoRefKind, required: bool) -> (r: Result<ReferenceResolution, CadError>)
    ensures
        settled(absent_provenance(ref_id@, kind, required), r),
{
    let provenance = ReferenceProvenance {
        ref_id: ref_id.to_owned(),
        kind,
        status: ReferenceStatus::Missing,
        created_by: String::new(),
        role: None,
        resolved_kernel_id: None,
        candidate_count: 0,
        reason: "reference is not present in the document".to_owned(),
        candidates: Vec::new(),
        required,
    };
    proof {
        assert(candidates_view(provenance.candidates@) =~= Seq::empty());
        assert(provenance@ == absent_provenance(ref_id@, kind, required));
    }
    finish(provenance)
}

fn resolve_fingerprint(topo_ref: &TopoRef, candidates: &[CandidateEvidence], required: bool) -> (r:
    Result<ReferenceResolution, CadError>)
    requires
        has_best(candidates_view(candidates@)),
    ensures
        settled(fingerprint_provenance(topo_ref@, candidates_view(candidates@), required), r),
{
    match classify_candidates(candidates) {
        None => {
            let p = provenance_from(
                topo_ref,
                ReferenceStatus::Missing,
                None,
                candidates,
                "no face or edge discovery satisfies the reference".to_owned(),
                required,
            );
            finish(p)
        },
        Some((status, kernel_id)) => {
            if status == ReferenceStatus::Ambiguous {
                let tied = count_best(candidates);
                proof {
                    lemma_best_count_bound(candidates_view(candidates@));
                }
                let mut reason = decimal_string(tied as u64);
                reason.append(" candidates tie with equal best score; refusing an arbitrary pick");
                let p = provenance_from(topo_ref, status, None, candidates, reason, required);
                finish(p)
            } else {
                let p = provenance_from(
                    topo_ref,
                    status,
                    Some(kernel_id),
                    candidates,
                    "matched by role and/or geometric fingerprint".to_owned(),
                    required,
                );
                finish(p)
            }
        },
    }
}

fn face_is_discovered(topo_ref: &TopoRef, ds: &[FaceRefDiscovery], id: u64) -> (b: bool)
    ensures
        b == face_discovered(topo_ref@, ds@, id),
{
    let mut i: usize = 0;
    while i < ds.len()
        invariant
            i <= ds.len(),
            forall|k: int|
                0 <= k < i ==> !((#[trigger] ds@[k]).kernel_face_id == id && role_allows(
                    topo_ref@,
                    ds@[k].role@,
                )),
        decreases ds.len() - i,
    {
        if ds[i].kernel_face_id == id && role_allows_exec(topo_ref, &ds[i].role) {
            return true;
        }
        i = i + 1;
    }
    false
}

fn edge_is_discovered(topo_ref: &TopoRef, ds: &[EdgeRefDiscovery], id: u64) -> (b: bool)
    ensures
        b == edge_discovered(topo_ref@, ds@, id),
{
    let mut i: usize = 0;
    while i < ds.len()
        invariant
            i <= ds.len(),
            forall|k: int|
                0 <= k < i ==> !((#[trigger] ds@[k]).kernel_edge_id == id && role_allows(
                    topo_ref@,
                    ds@[k].role@,
                )),
        decreases ds.len() - i,
    {
        if ds[i].kernel_edge_id == id && role_allows_exec(topo_ref, &ds[i].role) {
            return true;
        }
        i = i + 1;
    }
    false
}

/// Resolve a face reference with fail-closed provenance. `candidates` are
/// the discovered faces scored against the reference named `ref_id` (they
/// count only where `discoveries` are given; a non-empty list marks the
/// candidates at its best score). Stored ids are final-body ids:
/// `face_history` does not remap them.
pub fn resolve_face_ref_with_provenance(
    semantic_refs: &[TopoRef],
    face_history: &[FaceDerivation],
    ref_id: &str,
    discoveries: Option<&[FaceRefDiscovery]>,
    candidates: &[CandidateEvidence],
    required: bool,
) -> (r: Result<ReferenceResolution, CadError>)
    requires
        discoveries is Some ==> has_best(candidates_view(candidates@)),
    ensures
        settled(
            face_provenance(
                refs_view(semantic_refs@),
                ref_id@,
                faces_view(discoveries),
                candidates_view(candidates@),
                required,
            ),
            r,
        ),
{
    let _ = face_history;
    let ghost refs = refs_view(semantic_refs@);
    proof {
        lemma_first_named(refs, ref_id@, 0);
    }
    let index = match find_named(semantic_refs, ref_id) {
        Some(i) => i,
        None => {
            return absent(ref_id, TopoRefKind::Face, required);
        },
    };
    let topo_ref = &semantic_refs[index];
    assert(refs[index as int] == topo_ref@);
    let no_candidates: Vec<CandidateEvidence> = Vec::new();
    let considered_candidates: &[CandidateEvidence] = match discoveries {
        Some(_) => candidates,
        None => no_candidates.as_slice(),
    };
    assert(candidates_view(considered_candidates@) =~= considered(
        discoveries is Some,
        candidates_view(candidates@),
    ));
    if let Some(stored_id) = topo_ref.kernel_face_id() {
        let verified = match discoveries {
            Some(ds) => face_is_discovered(topo_ref, ds, stored_id),
            None => true,
        };
        if verified {
            let mut reason = "stored kernel face ".to_owned();
            let digits = decimal_string(stored_id);
            reason.append(digits.as_str());
            match discoveries {
                Some(_) => reason.append(" present in the regenerated body"),
                None => reason.append(" accepted without discovery verification"),
            }
            let provenance = provenance_from(
                topo_ref,
                ReferenceStatus::Exact,
                Some(stored_id),
                considered_candidates,
                reason,
                required,
            );
            return Ok(ReferenceResolution { provenance, resolved_kernel_id: Some(stored_id) });
        }
    }
    resolve_fingerprint(topo_ref, considered_candidates, required)
}

/// Resolve an edge reference with fail-closed provenance, as for faces.
pub fn resolve_edge_ref_with_provenance(
    semantic_refs: &[TopoRef],
    ref_id: &str,
    discoveries: Option<&[EdgeRefDiscovery]>,
    candidates: &[CandidateEvidence],
    required: bool,
) -> (r: Result<ReferenceResolution, CadError>)
    requires
        discoveries is Some ==> has_best(candidates_view(candidates@)),
    ensures
        settled(
            edge_provenance(
                refs_view(semantic_refs@),
                ref_id@,
                edges_view(discoveries),
                candidates_view(candidates@),
                required,
            ),
            r,
        ),
{
    let ghost refs = refs_view(semantic_refs@);
    proof {
        lemma_first_named(refs, ref_id@, 0);
    }
    let index = match find_named(semantic_refs, ref_id) {
        Some(i) => i,
        None => {
            return absent(ref_id, TopoRefKind::Edge, required);
        },
    };
    let topo_ref = &semantic_refs[index];
    assert(refs[index as int] == topo_ref@);
    let no_candidates: Vec<CandidateEvidence> = Vec::new();
    let considered_candidates: &[CandidateEvidence] = match discoveries {
        Some(_) => candidates,
        None => no_candidates.as_slice(),
    };
    assert(candidates_view(considered_candidates@) =~= considered(
        discoveries is Some,
        candidates_view(candidates@),
    ));
    if let Some(stored_id) = topo_ref.kernel_edge_id() {
        let verified = match discoveries {
            Some(ds) => edge_is_discovered(topo_ref, ds, stored_id),
            None => true,
        };
        if verified {
            let mut reason = "stored kernel edge ".to_owned();
            let digits = decimal_string(stored_id);
            reason.append(digits.as_str());
            match discoveries {
                Some(_) => reason.append(" present in the regenerated body"),
                None => reason.append(" accepted without discovery verification"),
            }
            let provenance = provenance_from(
                topo_ref,
                ReferenceStatus::Exact,
                Some(stored_id),
                considered_candidates,
                reason,
                required,
            );
            return Ok(ReferenceResolution { provenance, resolved_kernel_id: Some(stored_id) });
        }
    }
    resolve_fingerprint(topo_ref, considered_candidates, required)
}

/// The provenance of a vertex reference: the kernel does not resolve them.
pub open spec fn vertex_provenance(r: TopoRefView) -> ProvenanceView {
    ProvenanceView {
        ref_id: r.ref_id,
        kind: TopoRefKind::Vertex,
        status: ReferenceStatus::Missing,
        created_by: r.created_by,
        role: r.role,
        resolved_kernel_id: None,
        candidate_count: 0,
        reason: "vertex references are not resolved by the current kernel"@,
        candidates: Seq::empty(),
        required: false,
    }
}

pub open spec fn lists_view(c: Seq<Vec<CandidateEvidence>>) -> Seq<Seq<CandidateView>> {
    c.map_values(|v: Vec<CandidateEvidence>| candidates_view(v@))
}

/// The candidate list of the first reference with the id.
pub open spec fn candidates_for(
    refs: Seq<TopoRefView>,
    ref_id: Seq<char>,
    lists: Seq<Seq<CandidateView>>,
) -> Seq<CandidateView> {
    match first_named(refs, ref_id, 0) {
        Some(f) => lists[f],
        None => Seq::empty(),
    }
}

/// The observed (not required) provenance of one document reference.
pub open spec fn provenance_for(
    refs: Seq<TopoRefView>,
    r: TopoRefView,
    faces: Option<Seq<FaceRefDiscovery>>,
    edges: Option<Seq<EdgeRefDiscovery>>,
    lists: Seq<Seq<CandidateView>>,
) -> ProvenanceView {
    match r.kind {
        TopoRefKind::Face => face_provenance(
            refs,
            r.ref_id,
            faces,
            candidates_for(refs, r.ref_id, lists),
            false,
        ),
        TopoRefKind::Edge => edge_provenance(
            refs,
            r.ref_id,
            edges,
            candidates_for(refs, r.ref_id, lists),
            false,
        ),
        TopoRefKind::Vertex => vertex_provenance(r),
    }
}

/// The provenance of every document reference, in reference id order.
pub open spec fn all_provenance(
    refs: Seq<TopoRefView>,
    faces: Option<Seq<FaceRefDiscovery>>,
    edges: Option<Seq<EdgeRefDiscovery>>,
    lists: Seq<Seq<CandidateView>>,
) -> Seq<ProvenanceView> {
    let sorted = sorted_by_id(refs);
    Seq::new(sorted.len(), |k: int| provenance_for(refs, sorted[k], faces, edges, lists))
}

pub open spec fn provenances_view(p: Seq<ReferenceProvenance>) -> Seq<ProvenanceView> {
    p.map_values(|x: ReferenceProvenance| x@)
}

fn vertex_unresolved(topo_ref: &TopoRef) -> (p: ReferenceProvenance)
    ensures
        p@ == vertex_provenance(topo_ref@),
{
    let p = ReferenceProvenance {
        ref_id: topo_ref.ref_id.clone(),
        kind: TopoRefKind::Vertex,
        status: ReferenceStatus::Missing,
        created_by: topo_ref.semantic.created_by.clone(),
        role: copy_opt(&topo_ref.semantic.role),
        resolved_kernel_id: None,
        candidate_count: 0,
        reason: "vertex references are not resolved by the current kernel".to_owned(),
        candidates: Vec::new(),
        required: false,
    };
    assert(candidates_view(p.candidates@) =~= Seq::empty());
    p
}

/// Classify every document reference against the final discoveries, for
/// observation: nothing is required, so ambiguous and missing outcomes are
/// recorded rather than refused. `candidates[i]` are the discoveries scored
/// against reference `i` (faces or edges, by its kind). The result is in
/// reference id order.
pub fn resolve_all_reference_provenance(
    semantic_refs: &[TopoRef],
    face_history: &[FaceDerivation],
    face_discoveries: Option<&[FaceRefDiscovery]>,
    edge_discoveries: Option<&[EdgeRefDiscovery]>,
    candidates: &[Vec<CandidateEvidence>],
) -> (out: Vec<ReferenceProvenance>)
    requires
        candidates.len() == semantic_refs.len(),
        forall|i: int|
            0 <= i < candidates.len() ==> has_best(candidates_view(#[trigger] candidates@[i]@)),
    ensures
        provenances_view(out@) == all_provenance(
            refs_view(semantic_refs@),
            faces_view(face_discoveries),
            edges_view(edge_discoveries),
            lists_view(candidates@),
        ),
{
    let ghost refs = refs_view(semantic_refs@);
    let ghost lists = lists_view(candidates@);
    let ghost goal = all_provenance(
        refs,
        faces_view(face_discoveries),
        edges_view(edge_discoveries),
        lists,
    );
    let mut sorted = copy_refs(semantic_refs);
    sort_refs_by_id(&mut sorted);
    let no_candidates: Vec<CandidateEvidence> = Vec::new();
    let mut out: Vec<ReferenceProvenance> = Vec::new();
    let mut k: usize = 0;
    while k < sorted.len()
        invariant
            k <= sorted.len(),
            refs == refs_view(semantic_refs@),
            lists == lists_view(candidates@),
            refs_view(sorted@) == sorted_by_id(refs),
            goal == all_provenance(refs, faces_view(face_discoveries), edges_view(edge_discoveries), lists),
            candidates.len() == semantic_refs.len(),
            forall|i: int|
                0 <= i < candidates.len() ==> has_best(candidates_view(#[trigger] candidates@[i]@)),
            no_candidates@.len() == 0,
            provenances_view(out@) == goal.subrange(0, k as int),
        decreases sorted.len() - k,
    {
        let r = &sorted[k];
        assert(refs_view(sorted@)[k as int] == r@);
        let ghost before = out@;
        proof {
            lemma_first_named(refs, r@.ref_id, 0);
        }
        let list: &[CandidateEvidence] = match find_named(semantic_refs, r.ref_id.as_str()) {
            Some(f) => &candidates[f],
            None => no_candidates.as_slice(),
        };
        proof {
            assert(candidates_view(list@) =~= candidates_for(refs, r@.ref_id, lists));
        }
        match r.kind {
            TopoRefKind::Vertex => {
                out.push(vertex_unresolved(r));
            },
            TopoRefKind::Face => {
                let res = resolve_face_ref_with_provenance(
                    semantic_refs,
                    face_history,
                    r.ref_id.as_str(),
                    face_discoveries,
                    list,
                    false,
                );
                if let Ok(resolution) = res {
                    out.push(resolution.provenance);
                }
            },
            TopoRefKind::Edge => {
                let res = resolve_edge_ref_with_provenance(
                    semantic_refs,
                    r.ref_id.as_str(),
                    edge_discoveries,
                    list,
                    false,
                );
                if let Ok(resolution) = res {
                    out.push(resolution.provenance);
                }
            },
        }
        proof {
            assert(provenances_view(out@) =~= provenances_view(before).push(goal[k as int]));
            assert(provenances_view(out@) =~= goal.subrange(0, k + 1));
        }
        k = k + 1;
    }
    assert(goal.subrange(0, k as int) =~= goal);
    out
}

proof fn lemma_fingerprint_outcome(r: TopoRefView, c: Seq<CandidateView>, required: bool)
    ensures
        ({
            let p = fingerprint_provenance(r, c, required);
            &&& p.ref_id == r.ref_id
            &&& p.required == required
            &&& p.status is Fingerprint || p.status is Ambiguous || p.status is Missing
            &&& (p.resolved_kernel_id is Some <==> p.status is Fingerprint)
        }),
{
}

/// A face or edge resolution names a kernel id exactly when its status is
/// exact, derived or fingerprint, never ambiguous or missing; and no stored
/// id is reported as derived.
pub proof fn law_resolved_id_matches_status(
    refs: Seq<TopoRefView>,
    ref_id: Seq<char>,
    faces: Option<Seq<FaceRefDiscovery>>,
    edges: Option<Seq<EdgeRefDiscovery>>,
    candidates: Seq<CandidateView>,
    required: bool,
)
    ensures
        ({
            let p = face_provenance(refs, ref_id, faces, candidates, required);
            &&& (p.resolved_kernel_id is Some <==> !(p.status is Ambiguous || p.status is Missing))
            &&& !(p.status is Derived)
        }),
        ({
            let p = edge_provenance(refs, ref_id, edges, candidates, required);
            &&& (p.resolved_kernel_id is Some <==> !(p.status is Ambiguous || p.status is Missing))
            &&& !(p.status is Derived)
        }),
{
    if let Some(i) = first_named(refs, ref_id, 0) {
        lemma_fingerprint_outcome(refs[i], considered(faces is Some, candidates), required);
        lemma_fingerprint_outcome(refs[i], considered(edges is Some, candidates), required);
    }
}

/// A required face reference that ends ambiguous or missing is refused;
/// one that resolves is returned.
pub proof fn law_required_face_reference_fails_closed(
    refs: Seq<TopoRefView>,
    ref_id: Seq<char>,
    faces: Option<Seq<FaceRefDiscovery>>,
    candidates: Seq<CandidateView>,
    r: Result<ReferenceResolution, CadError>,
)
    requires
        settled(face_provenance(refs, ref_id, faces, candidates, true), r),
    ensures
        r is Err <==> face_provenance(refs, ref_id, faces, candidates, true).status is Ambiguous
            || face_provenance(refs, ref_id, faces, candidates, true).status is Missing,
{
    law_resolved_id_matches_status(refs, ref_id, faces, None, candidates, true);
}

/// A required edge reference that ends ambiguous or missing is refused;
/// one that resolves is returned.
pub proof fn law_required_edge_reference_fails_closed(
    refs: Seq<TopoRefView>,
    ref_id: Seq<char>,
    edges: Option<Seq<EdgeRefDiscovery>>,
    candidates: Seq<CandidateView>,
    r: Result<ReferenceResolution, CadError>,
)
    requires
        settled(edge_provenance(refs, ref_id, edges, candidates, true), r),
    ensures
        r is Err <==> edge_provenance(refs, ref_id, edges, candidates, true).status is Ambiguous
            || edge_provenance(refs, ref_id, edges, candidates, true).status is Missing,
{
    law_resolved_id_matches_status(refs, ref_id, None, edges, candidates, true);
}

proof fn lemma_classify_by_contents(c1: Seq<CandidateView>, c2: Seq<CandidateView>)
    requires
        c1.to_multiset() =~= c2.to_multiset(),
        has_best(c1),
    ensures
        classify(c1) == classify(c2),
{
    assert forall|x: CandidateView| c1.contains(x) <==> c2.contains(x) by {
        assert(c1.contains(x) <==> c1.to_multiset().count(x) > 0);
        assert(c2.contains(x) <==> c2.to_multiset().count(x) > 0);
    }
    assert(c1.to_multiset().len() == c2.to_multiset().len());
    assert(c1.len() == c2.len());
    if tie_between_distinct(c1) {
        let (a, b) = choose|a: int, b: int|
            0 <= a < c1.len() && 0 <= b < c1.len() && #[trigger] c1[a].at_best
                && #[trigger] c1[b].at_best && c1[a].kernel_id != c1[b].kernel_id;
        assert(c1.contains(c1[a]) && c1.contains(c1[b]));
        let a2 = choose|k: int| 0 <= k < c2.len() && c2[k] == c1[a];
        let b2 = choose|k: int| 0 <= k < c2.len() && c2[k] == c1[b];
        assert(c2[a2].at_best && c2[b2].at_best);
    }
    if tie_between_distinct(c2) {
        let (a, b) = choose|a: int, b: int|
            0 <= a < c2.len() && 0 <= b < c2.len() && #[trigger] c2[a].at_best
                && #[trigger] c2[b].at_best && c2[a].kernel_id != c2[b].kernel_id;
        assert(c2.contains(c2[a]) && c2.contains(c2[b]));
        let a1 = choose|k: int| 0 <= k < c1.len() && c1[k] == c2[a];
        let b1 = choose|k: int| 0 <= k < c1.len() && c1[k] == c2[b];
        assert(c1[a1].at_best && c1[b1].at_best);
    }
    if c1.len() > 0 && !tie_between_distinct(c1) {
        let w1 = choose|i: int| 0 <= i < c1.len() && #[trigger] c1[i].at_best;
        assert(c1[w1].at_best);
        assert(c1.contains(c1[w1]));
        let k2 = choose|k: int| 0 <= k < c2.len() && c2[k] == c1[w1];
        assert(c2[k2].at_best);
        let w2 = choose|i: int| 0 <= i < c2.len() && #[trigger] c2[i].at_best;
        assert(c2[w2].at_best);
        assert(c2[w2].kernel_id == c2[k2].kernel_id);
        assert(best_id(c1) == c1[w1].kernel_id);
        assert(best_id(c2) == c2[w2].kernel_id);
    }
}

/// Whether a reference resolves, and to which kernel id, does not depend on
/// the order its candidates come in: equal-scoring candidates are reported
/// as ambiguous whichever came first.
pub proof fn law_resolution_ignores_candidate_order(
    refs: Seq<TopoRefView>,
    ref_id: Seq<char>,
    faces: Option<Seq<FaceRefDiscovery>>,
    c1: Seq<CandidateView>,
    c2: Seq<CandidateView>,
    required: bool,
)
    requires
        c1.to_multiset() =~= c2.to_multiset(),
        has_best(c1),
    ensures
        face_provenance(refs, ref_id, faces, c1, required).status == face_provenance(
            refs,
            ref_id,
            faces,
            c2,
            required,
        ).status,
        face_provenance(refs, ref_id, faces, c1, required).resolved_kernel_id == face_provenance(
            refs,
            ref_id,
            faces,
            c2,
            required,
        ).resolved_kernel_id,
{
    if faces is Some {
        lemma_classify_by_contents(c1, c2);
    }
}

/// Every document reference gets one provenance; the list is in reference
/// id order and none of it is required (it is for observation).
pub proof fn law_all_provenance_is_ordered_and_observational(
    refs: Seq<TopoRefView>,
    faces: Option<Seq<FaceRefDiscovery>>,
    edges: Option<Seq<EdgeRefDiscovery>>,
    lists: Seq<Seq<CandidateView>>,
)
    ensures
        ({
            let all = all_provenance(refs, faces, edges, lists);
            &&& all.len() == refs.len()
            &&& forall|i: int| 0 <= i < all.len() ==> !(#[trigger] all[i]).required
            &&& forall|i: int, j: int|
                0 <= i < j < all.len() ==> !lex_lt(#[trigger] all[j].ref_id, #[trigger] all[i].ref_id)
        }),
{
    let sorted = sorted_by_id(refs);
    let all = all_provenance(refs, faces, edges, lists);
    law_sorted_refs_are_in_id_order(refs);
    assert forall|k: int| 0 <= k < all.len() implies (#[trigger] all[k]).ref_id == sorted[k].ref_id
        && !all[k].required by {
        let r = sorted[k];
        lemma_first_named(refs, r.ref_id, 0);
        if let Some(f) = first_named(refs, r.ref_id, 0) {
            let c = candidates_for(refs, r.ref_id, lists);
            lemma_fingerprint_outcome(refs[f], considered(faces is Some, c), false);
            lemma_fingerprint_outcome(refs[f], considered(edges is Some, c), false);
        }
    }
    assert forall|i: int, j: int| 0 <= i < j < all.len() implies !lex_lt(
        #[trigger] all[j].ref_id,
        #[trigger] all[i].ref_id,
    ) by {
        assert(all[i].ref_id == sorted[i].ref_id);
        assert(all[j].ref_id == sorted[j].ref_id);
    }
}

/// In the observation of all references, every vertex reference comes out
/// missing, with no kernel id.
pub proof fn law_vertex_references_come_out_missing(
    refs: Seq<TopoRefView>,
    faces: Option<Seq<FaceRefDiscovery>>,
    edges: Option<Seq<EdgeRefDiscovery>>,
    lists: Seq<Seq<CandidateView>>,
)
    ensures
        forall|k: int|
            0 <= k < sorted_by_id(refs).len() && (#[trigger] sorted_by_id(refs)[k]).kind
                == TopoRefKind::Vertex ==> {
                let p = all_provenance(refs, faces, edges, lists)[k];
                &&& p.status == ReferenceStatus::Missing
                &&& p.resolved_kernel_id is None
                &&& p.kind == TopoRefKind::Vertex
            },
{
}

/// A face reference resolves the same way, to the same kernel id, whatever
/// order its discoveries and its scored candidates come in.
pub proof fn law_resolution_ignores_discovery_order(
    refs: Seq<TopoRefView>,
    ref_id: Seq<char>,
    d1: Seq<FaceRefDiscovery>,
    d2: Seq<FaceRefDiscovery>,
    c1: Seq<CandidateView>,
    c2: Seq<CandidateView>,
    required: bool,
)
    requires
        d1.to_multiset() =~= d2.to_multiset(),
        c1.to_multiset() =~= c2.to_multiset(),
        has_best(c1),
    ensures
        face_provenance(refs, ref_id, Some(d1), c1, required).status == face_provenance(
            refs,
            ref_id,
            Some(d2),
            c2,
            required,
        ).status,
        face_provenance(refs, ref_id, Some(d1), c1, required).resolved_kernel_id
            == face_provenance(refs, ref_id, Some(d2), c2, required).resolved_kernel_id,
{
    lemma_classify_by_contents(c1, c2);
    assert forall|x: FaceRefDiscovery| d1.contains(x) <==> d2.contains(x) by {
        assert(d1.contains(x) <==> d1.to_multiset().count(x) > 0);
        assert(d2.contains(x) <==> d2.to_multiset().count(x) > 0);
    }
    if let Some(i) = first_named(refs, ref_id, 0) {
        let r = refs[i];
        if let Some(id) = stored_face_id(r) {
            if face_discovered(r, d1, id) {
                let k = choose|k: int|
                    0 <= k < d1.len() && (#[trigger] d1[k]).kernel_face_id == id && role_allows(
                        r,
                        d1[k].role@,
                    );
                assert(d1.contains(d1[k]));
                let k2 = choose|k2: int| 0 <= k2 < d2.len() && d2[k2] == d1[k];
                assert(d2[k2].kernel_face_id == id);
            }
            if face_discovered(r, d2, id) {
                let k = choose|k: int|
                    0 <= k < d2.len() && (#[trigger] d2[k]).kernel_face_id == id && role_allows(
                        r,
                        d2[k].role@,
                    );
                assert(d2.contains(d2[k]));
                let k1 = choose|k1: int| 0 <= k1 < d1.len() && d1[k1] == d2[k];
                assert(d1[k1].kernel_face_id == id);
            }
        }
    }
}

} // verus!

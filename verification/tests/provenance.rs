use musubicad::error::CadError;
use musubicad::provenance::{
    resolve_all_reference_provenance, resolve_edge_ref_with_provenance,
    resolve_face_ref_with_provenance, CandidateEvidence, ReferenceStatus,
};
use musubicad::ref_sync::{EdgeRefDiscovery, FaceRefDiscovery};
use musubicad::refs::{TopoRef, TopoRefKind, TopoRefSemantic};

fn bits(v: [f32; 3]) -> [u64; 3] {
    v.map(|x| (x as f64).to_bits())
}

fn face_discovery(kernel_face_id: u64, role: &str, feature: &str) -> FaceRefDiscovery {
    FaceRefDiscovery {
        kernel_face_id,
        role: role.into(),
        normal_bits: bits([0.0, 0.0, 1.0]),
        centroid_bits: bits([0.0, 0.0, 0.006]),
        feature_id: Some(feature.into()),
    }
}

fn edge_discovery(kernel_edge_id: u64, role: &str, feature: &str) -> EdgeRefDiscovery {
    EdgeRefDiscovery {
        kernel_edge_id,
        role: role.into(),
        midpoint_bits: [0, 0, 0.006f32.to_bits()],
        tangent_bits: [1.0f32.to_bits(), 0, 0],
        length_bits: 0.01f32.to_bits(),
        feature_id: Some(feature.into()),
    }
}

/// A candidate at the best score of its list.
fn best(kernel_id: u64, role: &str, feature: &str) -> CandidateEvidence {
    CandidateEvidence {
        kernel_id,
        score_bits: 1.0f64.to_bits(),
        at_best: true,
        feature_id: Some(feature.into()),
        role: Some(role.into()),
    }
}

fn face_ref(id: &str, created_by: &str, role: &str) -> TopoRef {
    TopoRef::face(id.into(), created_by.into(), role.into())
}

fn kernel_face_ref(id: &str, created_by: &str, role: &str, face: u64) -> TopoRef {
    TopoRef::kernel_face(id.into(), created_by.into(), role.into(), face, bits([0.0, 0.0, 1.0]))
}

fn validation_message(err: CadError) -> String {
    match err {
        CadError::Validation(message) => message,
        other => panic!("unexpected error {other:?}"),
    }
}

#[test]
fn exact_face_is_classified_without_fallback() {
    let refs = vec![kernel_face_ref("ref:face:top", "feature:extrude_base", "top", 42)];
    let discoveries = [face_discovery(42, "top", "feature:extrude_base")];
    let candidates = [best(42, "top", "feature:extrude_base")];
    let resolution = resolve_face_ref_with_provenance(
        &refs,
        &[],
        "ref:face:top",
        Some(&discoveries),
        &candidates,
        true,
    )
    .expect("exact resolution");
    assert_eq!(resolution.provenance.status, ReferenceStatus::Exact);
    assert_eq!(resolution.resolved_kernel_id, Some(42));
    assert_eq!(resolution.provenance.candidate_count, 1);
}

#[test]
fn history_does_not_remap_a_stored_face_id() {
    let refs = vec![kernel_face_ref("ref:face:top", "feature:fillet_top", "top", 100)];
    let history = [(200, 100)];
    let discoveries = [face_discovery(200, "top", "feature:fillet_top")];
    let candidates = [best(200, "top", "feature:fillet_top")];
    let resolution = resolve_face_ref_with_provenance(
        &refs,
        &history,
        "ref:face:top",
        Some(&discoveries),
        &candidates,
        true,
    )
    .expect("fingerprint resolution");
    assert_eq!(resolution.provenance.status, ReferenceStatus::Fingerprint);
    assert_eq!(resolution.resolved_kernel_id, Some(200));
}

#[test]
fn fingerprint_face_is_classified_without_stored_id() {
    let refs = vec![face_ref("ref:face:top", "feature:extrude_base", "top")];
    let discoveries = [face_discovery(77, "top", "feature:extrude_base")];
    let candidates = [best(77, "top", "feature:extrude_base")];
    let resolution = resolve_face_ref_with_provenance(
        &refs,
        &[],
        "ref:face:top",
        Some(&discoveries),
        &candidates,
        true,
    )
    .expect("fingerprint resolution");
    assert_eq!(resolution.provenance.status, ReferenceStatus::Fingerprint);
    assert_eq!(resolution.resolved_kernel_id, Some(77));
}

#[test]
fn ambiguous_face_is_reported_and_blocks_when_required() {
    let refs = vec![face_ref("ref:face:top", "feature:extrude_base", "top")];
    let discoveries = [
        face_discovery(10, "top", "feature:extrude_base"),
        face_discovery(11, "top", "feature:extrude_base"),
    ];
    let candidates = [
        best(10, "top", "feature:extrude_base"),
        best(11, "top", "feature:extrude_base"),
    ];
    let resolution = resolve_face_ref_with_provenance(
        &refs,
        &[],
        "ref:face:top",
        Some(&discoveries),
        &candidates,
        false,
    )
    .expect("non-required ambiguous resolution");
    assert_eq!(resolution.provenance.status, ReferenceStatus::Ambiguous);
    assert_eq!(resolution.resolved_kernel_id, None);
    assert_eq!(resolution.provenance.candidate_count, 2);

    let required = resolve_face_ref_with_provenance(
        &refs,
        &[],
        "ref:face:top",
        Some(&discoveries),
        &candidates,
        true,
    );
    assert!(
        required.is_err(),
        "ambiguous required reference must fail closed"
    );
    assert!(validation_message(required.unwrap_err())
        .to_lowercase()
        .contains("ambiguous"));
}

#[test]
fn ambiguity_is_independent_of_input_order() {
    let refs = vec![face_ref("ref:face:top", "feature:extrude_base", "top")];
    let first = face_discovery(10, "top", "feature:extrude_base");
    let second = face_discovery(11, "top", "feature:extrude_base");
    let first_candidate = best(10, "top", "feature:extrude_base");
    let second_candidate = best(11, "top", "feature:extrude_base");
    for (discoveries, candidates) in [
        (
            vec![first.clone(), second.clone()],
            vec![first_candidate.clone(), second_candidate.clone()],
        ),
        (
            vec![second.clone(), first.clone()],
            vec![second_candidate.clone(), first_candidate.clone()],
        ),
    ] {
        let resolution = resolve_face_ref_with_provenance(
            &refs,
            &[],
            "ref:face:top",
            Some(&discoveries),
            &candidates,
            false,
        )
        .expect("non-required resolution");
        assert_eq!(resolution.provenance.status, ReferenceStatus::Ambiguous);
        assert_eq!(resolution.resolved_kernel_id, None);
    }
}

#[test]
fn missing_face_is_classified_and_blocks_when_required() {
    let refs = vec![face_ref("ref:face:top", "feature:extrude_base", "top")];
    // The only discovery has another role, so nothing is scored.
    let discoveries = [face_discovery(77, "bottom", "feature:extrude_base")];
    let resolution = resolve_face_ref_with_provenance(
        &refs,
        &[],
        "ref:face:top",
        Some(&discoveries),
        &[],
        false,
    )
    .expect("non-required missing resolution");
    assert_eq!(resolution.provenance.status, ReferenceStatus::Missing);
    assert_eq!(resolution.resolved_kernel_id, None);

    let required = resolve_face_ref_with_provenance(
        &refs,
        &[],
        "ref:face:top",
        Some(&discoveries),
        &[],
        true,
    );
    assert!(
        required.is_err(),
        "missing required reference must fail closed"
    );
}

#[test]
fn edge_fingerprint_resolution_classifies_exact_and_missing() {
    let exact = vec![TopoRef::kernel_edge(
        "ref:edge:rim".into(),
        "feature:extrude_base".into(),
        "rim".into(),
        12,
        [0, 0, 0.006f64.to_bits()],
        [1.0f64.to_bits(), 0, 0],
    )];
    let discoveries = [edge_discovery(12, "rim", "feature:extrude_base")];
    let candidates = [best(12, "rim", "feature:extrude_base")];
    let resolution = resolve_edge_ref_with_provenance(
        &exact,
        "ref:edge:rim",
        Some(&discoveries),
        &candidates,
        true,
    )
    .expect("exact edge");
    assert_eq!(resolution.provenance.status, ReferenceStatus::Exact);

    let tied = vec![TopoRef::edge(
        "ref:edge:rim".into(),
        "feature:extrude_base".into(),
        "rim".into(),
    )];
    let ambiguous = [
        edge_discovery(1, "rim", "feature:extrude_base"),
        edge_discovery(2, "rim", "feature:extrude_base"),
    ];
    let tied_candidates = [
        best(1, "rim", "feature:extrude_base"),
        best(2, "rim", "feature:extrude_base"),
    ];
    let resolution = resolve_edge_ref_with_provenance(
        &tied,
        "ref:edge:rim",
        Some(&ambiguous),
        &tied_candidates,
        false,
    )
    .expect("non-required ambiguous edge");
    assert_eq!(resolution.provenance.status, ReferenceStatus::Ambiguous);
}

#[test]
fn all_reference_provenance_is_sorted_and_observability_only() {
    let refs = vec![
        face_ref("ref:face:top", "feature:extrude_base", "top"),
        kernel_face_ref("ref:face:mount", "feature:extrude_base", "mount", 42),
    ];
    let discoveries = [
        face_discovery(42, "mount", "feature:extrude_base"),
        face_discovery(77, "top", "feature:extrude_base"),
    ];
    let candidates = vec![
        vec![best(77, "top", "feature:extrude_base")],
        vec![best(42, "mount", "feature:extrude_base")],
    ];
    let provenances =
        resolve_all_reference_provenance(&refs, &[], Some(&discoveries), None, &candidates);
    assert_eq!(provenances.len(), 2);
    assert_eq!(provenances[0].ref_id, "ref:face:mount");
    assert_eq!(provenances[0].status, ReferenceStatus::Exact);
    assert_eq!(provenances[1].ref_id, "ref:face:top");
    assert_eq!(provenances[1].status, ReferenceStatus::Fingerprint);
    assert!(provenances.iter().all(|provenance| !provenance.required));
}

#[test]
fn unknown_reference_is_missing_and_refused_when_required() {
    let refs = vec![face_ref("ref:face:top", "feature:extrude_base", "top")];
    let resolution =
        resolve_face_ref_with_provenance(&refs, &[], "ref:face:side", None, &[], false)
            .expect("observed");
    assert_eq!(resolution.provenance.status, ReferenceStatus::Missing);
    assert_eq!(resolution.provenance.kind, TopoRefKind::Face);
    assert_eq!(resolution.provenance.created_by, "");
    assert_eq!(resolution.provenance.reason, "reference is not present in the document");
    let err = resolve_face_ref_with_provenance(&refs, &[], "ref:face:side", None, &[], true)
        .unwrap_err();
    assert_eq!(
        validation_message(err),
        "required reference 'ref:face:side' (Face) is Missing: reference is not present in the document"
    );
}

#[test]
fn stored_id_is_accepted_without_discoveries() {
    let refs = vec![kernel_face_ref("ref:face:top", "feature:extrude_base", "top", 42)];
    // Candidates count only where discoveries were given.
    let candidates = [best(7, "top", "feature:extrude_base")];
    let resolution =
        resolve_face_ref_with_provenance(&refs, &[], "ref:face:top", None, &candidates, true)
            .expect("exact");
    assert_eq!(resolution.provenance.status, ReferenceStatus::Exact);
    assert_eq!(resolution.resolved_kernel_id, Some(42));
    assert_eq!(resolution.provenance.candidate_count, 0);
    assert_eq!(
        resolution.provenance.reason,
        "stored kernel face 42 accepted without discovery verification"
    );
    assert_eq!(resolution.provenance.role.as_deref(), Some("top"));
}

#[test]
fn stored_id_with_another_role_falls_back_to_candidates() {
    let refs = vec![kernel_face_ref("ref:face:top", "feature:extrude_base", "top", 42)];
    let discoveries = [
        face_discovery(42, "bottom", "feature:extrude_base"),
        face_discovery(9, "top", "feature:extrude_base"),
    ];
    let candidates = [
        best(9, "top", "feature:extrude_base"),
        CandidateEvidence {
            at_best: false,
            ..best(42, "bottom", "feature:extrude_base")
        },
    ];
    let resolution = resolve_face_ref_with_provenance(
        &refs,
        &[],
        "ref:face:top",
        Some(&discoveries),
        &candidates,
        true,
    )
    .expect("fingerprint");
    assert_eq!(resolution.provenance.status, ReferenceStatus::Fingerprint);
    assert_eq!(resolution.resolved_kernel_id, Some(9));
    assert_eq!(resolution.provenance.candidate_count, 2);
    assert_eq!(resolution.provenance.candidates, candidates.to_vec());
    assert_eq!(
        resolution.provenance.reason,
        "matched by role and/or geometric fingerprint"
    );
}

#[test]
fn tie_reason_counts_tied_candidates_and_resolution_refuses() {
    let refs = vec![face_ref("ref:face:top", "feature:extrude_base", "top")];
    let discoveries = [face_discovery(10, "top", "feature:extrude_base")];
    let candidates = [
        best(10, "top", "feature:extrude_base"),
        best(11, "top", "feature:extrude_base"),
        best(10, "top", "feature:extrude_base"),
    ];
    let resolution = resolve_face_ref_with_provenance(
        &refs,
        &[],
        "ref:face:top",
        Some(&discoveries),
        &candidates,
        false,
    )
    .expect("observed");
    assert_eq!(
        resolution.provenance.reason,
        "3 candidates tie with equal best score; refusing an arbitrary pick"
    );
    assert!(resolution.provenance.status.is_unresolved());
    assert!(resolution.provenance.assert_resolved().is_err());
    // The same id twice at the best score is no tie.
    let same = [
        best(10, "top", "feature:extrude_base"),
        best(10, "top", "feature:extrude_base"),
    ];
    let resolution =
        resolve_face_ref_with_provenance(&refs, &[], "ref:face:top", Some(&discoveries), &same, true)
            .expect("resolved");
    assert_eq!(resolution.resolved_kernel_id, Some(10));
    assert!(resolution.provenance.assert_resolved().is_ok());
}

#[test]
fn vertex_references_are_reported_missing() {
    let vertex = TopoRef {
        ref_id: "ref:vertex:corner".into(),
        kind: TopoRefKind::Vertex,
        semantic: TopoRefSemantic {
            created_by: "feature:extrude_base".into(),
            role: Some("corner".into()),
            normal_hint: None,
            intent: None,
        },
        geometric_fingerprint: None,
        fallback_query: None,
    };
    let refs = vec![vertex, face_ref("ref:face:top", "feature:extrude_base", "top")];
    let provenances = resolve_all_reference_provenance(&refs, &[], None, None, &[vec![], vec![]]);
    assert_eq!(provenances.len(), 2);
    assert_eq!(provenances[0].ref_id, "ref:face:top");
    assert_eq!(provenances[0].status, ReferenceStatus::Missing);
    assert_eq!(provenances[1].ref_id, "ref:vertex:corner");
    assert_eq!(provenances[1].kind, TopoRefKind::Vertex);
    assert_eq!(provenances[1].status, ReferenceStatus::Missing);
    assert_eq!(
        provenances[1].reason,
        "vertex references are not resolved by the current kernel"
    );
}

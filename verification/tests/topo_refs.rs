use musubicad::error::CadError;
use musubicad::ref_sync::{
    assign_face_ref_to_refs, assign_named_face_ref, discovery_matches_topo_ref,
    edge_discovery_matches_topo_ref, merge_discovery, rebind_kernel_face_ids,
    resolve_kernel_edge_id_for_topo_ref, resolve_kernel_face_id_for_topo_ref_with_match,
    role_candidates, sort_refs_by_id, sync_semantic_refs, sync_semantic_refs_with_history,
    EdgeRefDiscovery, FaceRefDiscovery,
};
use musubicad::refs::TopoRef;
use musubicad::topo_sync::{
    build_src_to_post_map, compose_face_derivation_histories, resolve_kernel_face_id_for_topo_ref,
    resolve_topo_ref_id, resolve_topo_ref_id_with_history,
};

fn bits(v: [f32; 3]) -> [u64; 3] {
    v.map(|x| (x as f64).to_bits())
}

fn kernel_face(id: &str, created_by: &str, role: &str, face: u64) -> TopoRef {
    TopoRef::kernel_face(
        id.to_string(),
        created_by.to_string(),
        role.to_string(),
        face,
        bits([0.0, 0.0, 1.0]),
    )
}

fn face(id: &str, created_by: &str, role: &str) -> TopoRef {
    TopoRef::face(id.to_string(), created_by.to_string(), role.to_string())
}

fn discovery(face: u64, role: &str, feature: Option<&str>) -> FaceRefDiscovery {
    FaceRefDiscovery {
        kernel_face_id: face,
        role: role.to_string(),
        normal_bits: bits([0.0, 0.0, 1.0]),
        centroid_bits: bits([0.0, 0.0, 0.006]),
        feature_id: feature.map(str::to_string),
    }
}

/// Takes the last candidate, as scoring does when scores tie.
fn last_candidate(_refs: &Vec<TopoRef>, candidates: &Vec<usize>, _d: &FaceRefDiscovery) -> usize {
    *candidates.last().expect("candidates")
}

#[test]
fn sync_creates_kernel_face_refs() {
    let refs = sync_semantic_refs(
        &[],
        &[discovery(42, "top", Some("feature:extrude_base"))],
        last_candidate,
    );
    assert_eq!(refs.len(), 1);
    assert_eq!(refs[0].kernel_face_id(), Some(42));
    assert_eq!(refs[0].ref_id.as_str(), "ref:face:kernel_42");
}

#[test]
fn sync_updates_existing_role_matched_ref() {
    let existing = vec![face("ref:face:extrude_base_top", "feature:extrude_base", "top")];
    let refs = sync_semantic_refs(
        &existing,
        &[discovery(99, "top", Some("feature:extrude_base"))],
        last_candidate,
    );
    assert_eq!(refs.len(), 1);
    assert_eq!(refs[0].kernel_face_id(), Some(99));
    assert_eq!(refs[0].ref_id.as_str(), "ref:face:extrude_base_top");
}

#[test]
fn resolve_prefers_persisted_ref_id() {
    let refs = vec![kernel_face("ref:face:custom_top", "feature:extrude_base", "top", 42)];
    assert_eq!(
        resolve_topo_ref_id(&refs, 42).as_deref(),
        Some("ref:face:custom_top")
    );
}

#[test]
fn rebind_updates_stale_kernel_face_id() {
    let mut refs = vec![kernel_face("ref:face:custom_top", "feature:fillet_top", "top", 100)];
    rebind_kernel_face_ids(&mut refs, &[(200, 100)]);
    assert_eq!(refs[0].kernel_face_id(), Some(200));
}

#[test]
fn resolve_uses_history_when_picking_post_id() {
    let refs = vec![kernel_face("ref:face:custom_top", "feature:fillet_top", "top", 100)];
    assert_eq!(
        resolve_topo_ref_id_with_history(&refs, 200, &[(200, 100)]).as_deref(),
        Some("ref:face:custom_top")
    );
}

#[test]
fn compose_chains_boolean_then_fillet() {
    let boolean = [(10, 1), (20, 2)];
    let fillet = [(100, 10), (200, 20)];
    let composed = compose_face_derivation_histories(&[&boolean, &fillet]);
    let map = build_src_to_post_map(&composed);
    assert_eq!(map.get(&1), Some(&100));
    assert_eq!(map.get(&2), Some(&200));
    assert_eq!(composed.len(), 4);
}

#[test]
fn sync_with_history_rebinds_before_role_match() {
    let existing = vec![kernel_face("ref:face:bracket_top", "feature:fillet_top", "top", 100)];
    let refs = sync_semantic_refs_with_history(
        &existing,
        &[(200, 100)],
        &[discovery(200, "top", Some("feature:fillet_top"))],
        last_candidate,
    );
    assert_eq!(refs.len(), 1);
    assert_eq!(refs[0].kernel_face_id(), Some(200));
    assert_eq!(refs[0].ref_id.as_str(), "ref:face:bracket_top");
}

#[test]
fn resolve_kernel_face_id_remaps_through_history() {
    let refs = vec![kernel_face("ref:face:bracket_top", "feature:extrude_base", "top", 10)];
    let history = vec![(20, 10), (30, 20)];
    let resolved = resolve_kernel_face_id_for_topo_ref(&refs, &history, "ref:face:bracket_top")
        .expect("resolve");
    assert_eq!(resolved, 30);
}

#[test]
fn resolution_errors_tell_missing_from_unbound() {
    let refs = vec![face("ref:face:bracket_top", "feature:extrude_base", "top")];
    assert!(matches!(
        resolve_kernel_face_id_for_topo_ref(&refs, &[], "ref:face:other"),
        Err(CadError::NotFound(_))
    ));
    assert!(matches!(
        resolve_kernel_face_id_for_topo_ref(&refs, &[], "ref:face:bracket_top"),
        Err(CadError::Validation(_))
    ));
    assert_eq!(
        resolve_kernel_face_id_for_topo_ref_with_match(
            &refs,
            &[],
            "ref:face:bracket_top",
            Some(Some(77))
        ),
        Ok(77)
    );
    assert!(matches!(
        resolve_kernel_face_id_for_topo_ref_with_match(&refs, &[], "ref:face:bracket_top", Some(None)),
        Err(CadError::Validation(_))
    ));
}

#[test]
fn edge_references_resolve_stored_or_matched_edges() {
    let refs = vec![
        TopoRef::kernel_edge(
            "ref:edge:top_front".into(),
            "feature:pad".into(),
            "top@-y".into(),
            12,
            [0; 3],
            [1.0f64.to_bits(), 0, 0],
        ),
        TopoRef::edge("ref:edge:loose".into(), "feature:pad".into(), "top@+y".into()),
    ];
    assert_eq!(resolve_kernel_edge_id_for_topo_ref(&refs, "ref:edge:top_front", None), Ok(12));
    assert_eq!(
        resolve_kernel_edge_id_for_topo_ref(&refs, "ref:edge:loose", Some(Some(5))),
        Ok(5)
    );
    assert!(matches!(
        resolve_kernel_edge_id_for_topo_ref(&refs, "ref:edge:loose", None),
        Err(CadError::Validation(_))
    ));
    let edge = EdgeRefDiscovery {
        kernel_edge_id: 5,
        role: "top@+y".into(),
        midpoint_bits: [0; 3],
        tangent_bits: [1.0f32.to_bits(), 0, 0],
        length_bits: 0.01f32.to_bits(),
        feature_id: Some("feature:pad".into()),
    };
    assert!(edge_discovery_matches_topo_ref(&refs[1], &edge));
    assert!(!edge_discovery_matches_topo_ref(&refs[0], &edge));
}

#[test]
fn face_matching_needs_feature_and_role() {
    let topo_ref = face("ref:face:bracket_top", "feature:extrude_base", "top");
    assert!(discovery_matches_topo_ref(
        &topo_ref,
        &discovery(7, "top", Some("feature:extrude_base"))
    ));
    assert!(!discovery_matches_topo_ref(
        &topo_ref,
        &discovery(7, "bottom", Some("feature:extrude_base"))
    ));
    assert!(!discovery_matches_topo_ref(&topo_ref, &discovery(7, "top", None)));
}

#[test]
fn merging_prefers_stored_face_then_free_candidate_then_choice() {
    let mut refs = vec![
        kernel_face("ref:face:a", "feature:pad", "top", 1),
        kernel_face("ref:face:b", "feature:pad", "top", 2),
    ];
    let d = discovery(9, "top", Some("feature:pad"));
    assert_eq!(role_candidates(&refs, &d), vec![0, 1]);
    merge_discovery(&mut refs, &d, Some(0));
    assert_eq!(refs[0].kernel_face_id(), Some(9));
    assert_eq!(refs[1].kernel_face_id(), Some(2));

    let mut refs = vec![face("ref:face:z", "feature:pad", "top")];
    merge_discovery(&mut refs, &discovery(3, "side", None), None);
    assert_eq!(refs.len(), 2);
    assert_eq!(refs[1].ref_id, "ref:face:kernel_3");
    assert_eq!(refs[1].semantic.created_by, "feature:active_body");
}

#[test]
fn naming_faces_keeps_references_sorted() {
    let mut refs = Vec::new();
    assign_face_ref_to_refs(
        &mut refs,
        5,
        "ref:face:zeta".into(),
        "feature:pad".into(),
        "top".into(),
        bits([0.0, 0.0, 1.0]),
    )
    .expect("assign");
    assign_named_face_ref(
        &mut refs,
        "ref:face:alpha".into(),
        "feature:pad".into(),
        "bottom".into(),
        None,
        bits([0.0, 0.0, -1.0]),
    )
    .expect("named");
    assert_eq!(refs[0].ref_id, "ref:face:alpha");
    assert_eq!(refs[1].ref_id, "ref:face:zeta");
    assign_face_ref_to_refs(
        &mut refs,
        5,
        "ref:face:renamed".into(),
        "feature:pocket".into(),
        "top".into(),
        bits([0.0, 0.0, 1.0]),
    )
    .expect("rename");
    assert_eq!(refs[1].ref_id, "ref:face:renamed");
    assert_eq!(refs[1].semantic.created_by, "feature:pocket");
    let mut unsorted = vec![face("b", "f", "r"), face("a", "f", "r1"), face("a", "f", "r2")];
    sort_refs_by_id(&mut unsorted);
    assert_eq!(unsorted[0].semantic.role.as_deref(), Some("r1"));
    assert_eq!(unsorted[1].semantic.role.as_deref(), Some("r2"));
    assert_eq!(unsorted[2].ref_id, "b");
}

#[test]
fn sync_gives_a_contested_face_to_the_chosen_candidate() {
    let existing = vec![
        kernel_face("ref:face:a", "feature:pad", "side", 1),
        kernel_face("ref:face:b", "feature:pad", "side", 2),
    ];
    let contested = [discovery(7, "side", Some("feature:pad"))];
    let first = sync_semantic_refs(&existing, &contested, |_r: &Vec<TopoRef>, c: &Vec<usize>, _d: &FaceRefDiscovery| c[0]);
    assert_eq!(first[0].kernel_face_id(), Some(7));
    assert_eq!(first[1].kernel_face_id(), Some(2));
    let last = sync_semantic_refs(&existing, &contested, last_candidate);
    assert_eq!(last[0].kernel_face_id(), Some(1));
    assert_eq!(last[1].kernel_face_id(), Some(7));
    let stray = sync_semantic_refs(&existing, &contested, |_r: &Vec<TopoRef>, _c: &Vec<usize>, _d: &FaceRefDiscovery| 99);
    assert_eq!(stray[0].kernel_face_id(), Some(1));
    assert_eq!(stray[1].kernel_face_id(), Some(7));
}

use musubicad::diff::{diff_semantic_refs, SemanticChange};
use musubicad::mesh::MeshSet;
use musubicad::param_expr::parameter_names_in_expr;
use musubicad::face_catalog::{FaceCatalog, FaceRole, TriangleFace};
use musubicad::offscreen::unpack_rgba;
use musubicad::profile::{detect_profiles, ProfileEntity, ProfileKind};
use musubicad::ref_sync::{sync_semantic_refs, FaceRefDiscovery};
use musubicad::refs::TopoRef;
use musubicad::step::{normalize_step_header, normalize_time_stamp, replace_product_names};

#[test]
fn normalizing_a_normalized_header_changes_nothing() {
    for step in [
        &b"FILE_NAME('part','2026-05-01T10:11:12',('me'));"[..],
        &b"FILE_NAME('it''s','x''y')"[..],
        &b"FILE_NAME('open','unterminated"[..],
    ] {
        let once = normalize_time_stamp(step);
        assert_eq!(normalize_time_stamp(&once), once);
    }
}

fn first_candidate(_refs: &Vec<TopoRef>, candidates: &Vec<usize>, _d: &FaceRefDiscovery) -> usize {
    candidates[0]
}

#[test]
fn sync_keeps_every_persisted_name() {
    let existing = vec![
        TopoRef::face("ref:face:z_top".into(), "feature:pad".into(), "top".into()),
        TopoRef::kernel_face("ref:face:a_side".into(), "feature:pad".into(), "side".into(), 4, [0; 3]),
    ];
    let discoveries = vec![
        FaceRefDiscovery {
            kernel_face_id: 4,
            role: "side".into(),
            normal_bits: [0; 3],
            centroid_bits: [0; 3],
            feature_id: Some("feature:pad".into()),
        },
        FaceRefDiscovery {
            kernel_face_id: 9,
            role: "top".into(),
            normal_bits: [0; 3],
            centroid_bits: [0; 3],
            feature_id: Some("feature:pad".into()),
        },
        FaceRefDiscovery {
            kernel_face_id: 11,
            role: "bottom".into(),
            normal_bits: [0; 3],
            centroid_bits: [0; 3],
            feature_id: None,
        },
    ];
    let refs = sync_semantic_refs(&existing, &discoveries, first_candidate);
    let names: Vec<&str> = refs.iter().map(|r| r.ref_id.as_str()).collect();
    assert_eq!(names, vec!["ref:face:a_side", "ref:face:kernel_11", "ref:face:z_top"]);
    assert_eq!(refs[2].kernel_face_id(), Some(9));
}

#[test]
fn traced_loops_join_at_least_two_entities() {
    let line = |id: &str, a: &str, b: &str| ProfileEntity::Line {
        id: id.into(),
        construction: false,
        start: a.into(),
        end: b.into(),
    };
    let entities = vec![
        line("ent:e0", "ent:p0", "ent:p1"),
        line("ent:e1", "ent:q0", "ent:q1"),
        line("ent:e2", "ent:p1", "ent:p2"),
    ];
    let profiles = detect_profiles(&entities).expect("detect");
    assert!(!profiles.is_empty());
    assert!(profiles.iter().all(|p| p.entity_ids.len() >= 2));
}

#[test]
fn unpacked_images_have_four_bytes_per_pixel() {
    let data = vec![7u8; 3 * 64];
    assert_eq!(unpack_rgba(&data, 5, 3, 64).len(), 4 * 5 * 3);
}

#[test]
fn every_triangle_lands_in_a_counted_group() {
    let tri = |mesh_index: usize, face: Option<u64>, bucket: i32| TriangleFace {
        mesh_index,
        kernel_face_id: face,
        role: FaceRole::Top,
        bucket: (bucket, 0),
        normal_bits: [0; 3],
        centroid_bits: [0; 3],
    };
    let triangles = [tri(0, None, 1), tri(0, None, 2), tri(0, None, 1), tri(1, Some(3), 0)];
    let catalog = FaceCatalog::from_triangles(&triangles);
    for (index, group) in catalog.groups.iter().enumerate() {
        assert_eq!(group.index, index);
        assert_eq!(catalog.triangle_indices_in_group(index).len(), group.triangle_count);
    }
    let total: usize = catalog.groups.iter().map(|g| g.triangle_count).sum();
    assert_eq!(total, catalog.triangle_count());
}

#[test]
fn replacing_product_names_twice_changes_nothing() {
    for text in [
        &b"PRODUCT('Open CASCADE STEP translator 8.0 3','Open CASCADE STEP translator 8.0 3')"[..],
        &b"xOpen CASCADE STEP translator 8.0 4 without a quote"[..],
        &b"'Open CASCADE STEP translator 'Open CASCADE STEP translator 1'"[..],
    ] {
        let once = replace_product_names(text);
        assert_eq!(replace_product_names(&once), once);
    }
}

#[test]
fn normalizing_a_whole_header_twice_changes_nothing() {
    let step = b"ISO-10303-21;\nHEADER;\nFILE_NAME('part.step','2024-05-01T12:34:56',('Open CASCADE STEP translator 7.8 1'),(''),'',' ','');\nENDSEC;\nDATA;\n#1=PRODUCT('Open CASCADE STEP translator 7.8 12','Open CASCADE STEP translator 7.8 12','',(#2));\nENDSEC;\n";
    let once = normalize_step_header(step);
    assert_eq!(normalize_step_header(&once), once);
    let text = String::from_utf8(once).unwrap();
    assert!(text.contains("'1970-01-01T00:00:00'"));
    assert!(!text.contains("Open CASCADE STEP translator"));
}

#[test]
fn parameter_names_are_first_seen_identifiers() {
    assert_eq!(parameter_names_in_expr("a + b * a"), vec!["a", "b"]);
    assert_eq!(parameter_names_in_expr("2 mm * w"), vec!["w"]);
    assert!(parameter_names_in_expr("a % b").is_empty());
}

#[test]
fn profiles_leave_out_construction_and_keep_circles_alone() {
    let entities = vec![
        ProfileEntity::Circle { id: "ent:c".into(), construction: false },
        ProfileEntity::Circle { id: "ent:guide".into(), construction: true },
        ProfileEntity::Line {
            id: "ent:l0".into(),
            construction: false,
            start: "ent:p0".into(),
            end: "ent:p1".into(),
        },
        ProfileEntity::Line {
            id: "ent:l1".into(),
            construction: true,
            start: "ent:p1".into(),
            end: "ent:p2".into(),
        },
        ProfileEntity::Line {
            id: "ent:l2".into(),
            construction: false,
            start: "ent:p1".into(),
            end: "ent:p2".into(),
        },
    ];
    let profiles = detect_profiles(&entities).expect("detect");
    let alone: Vec<_> = profiles.iter().filter(|p| p.entity_ids == vec!["ent:c"]).collect();
    assert_eq!(alone.len(), 1);
    assert_eq!(alone[0].kind, ProfileKind::Closed);
    for p in &profiles {
        assert!(!p.entity_ids.iter().any(|id| id == "ent:guide" || id == "ent:l1"));
    }
    let mut seen: Vec<&String> = profiles.iter().flat_map(|p| p.entity_ids.iter()).collect();
    let total = seen.len();
    seen.sort();
    seen.dedup();
    assert_eq!(seen.len(), total);
}

#[test]
fn reference_diff_reports_removed_and_added_ids_in_order() {
    let before = vec![TopoRef::face("ref:b".into(), "feature:x".into(), "top".into())];
    let after = vec![TopoRef::face("ref:a".into(), "feature:y".into(), "side".into())];
    let changes = diff_semantic_refs(&before, &after);
    assert_eq!(
        changes,
        vec![
            SemanticChange::TopoRefAdded {
                ref_id: "ref:a".into(),
                created_by: "feature:y".into(),
                role: Some("side".into())
            },
            SemanticChange::TopoRefRemoved { ref_id: "ref:b".into() },
        ]
    );
}

#[test]
fn merging_meshes_keeps_every_triangle_and_face_id() {
    let mesh = |faces: Vec<u64>| MeshSet {
        positions: vec![[0, 0, 0]; 3],
        normals: vec![[0, 0, 0]; 3],
        indices: faces.iter().flat_map(|_| [0u32, 1, 2]).collect(),
        triangle_face_ids: faces,
    };
    let meshes = [mesh(vec![1, 2]), mesh(vec![3])];
    let merged = MeshSet::merge(&meshes);
    assert_eq!(merged.triangle_count(), 3);
    assert!(merged.has_triangle_face_ids());
    assert_eq!(merged.triangle_face_ids, vec![1, 2, 3]);
    assert_eq!(&merged.indices[6..], &[3, 4, 5]);
}

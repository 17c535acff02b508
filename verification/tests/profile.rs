use musubicad::profile::{assign_profile_refs, detect_profiles, Profile, ProfileEntity, ProfileKind};

fn line(id: &str, start: &str, end: &str) -> ProfileEntity {
    ProfileEntity::Line {
        id: id.to_string(),
        construction: false,
        start: start.to_string(),
        end: end.to_string(),
    }
}

fn half_disc(with_endpoints: bool) -> Vec<ProfileEntity> {
    vec![
        line("ent:chord", "ent:a", "ent:b"),
        ProfileEntity::Arc {
            id: "ent:arc".to_string(),
            construction: false,
            start_point: with_endpoints.then(|| "ent:b".to_string()),
            end_point: with_endpoints.then(|| "ent:a".to_string()),
        },
    ]
}

#[test]
fn arcs_with_endpoints_close_loops() {
    let profiles = detect_profiles(&half_disc(true)).expect("profiles");
    assert_eq!(profiles.len(), 1);
    assert_eq!(profiles[0].kind, ProfileKind::Closed);
    assert_eq!(profiles[0].entity_ids.len(), 2);

    let profiles = detect_profiles(&half_disc(false)).expect("profiles");
    assert!(profiles.iter().all(|profile| !profile.is_closed()));
}

#[test]
fn detects_rectangular_closed_profile() {
    let entities = vec![
        line("ent:e0", "ent:c0", "ent:c1"),
        line("ent:e1", "ent:c1", "ent:c2"),
        line("ent:e2", "ent:c2", "ent:c3"),
        line("ent:e3", "ent:c3", "ent:c0"),
    ];
    let profiles = detect_profiles(&entities).expect("detect");
    assert_eq!(profiles.len(), 1);
    assert_eq!(profiles[0].kind, ProfileKind::Closed);
    assert_eq!(profiles[0].entity_ids.len(), 4);
}

#[test]
fn detects_open_chain() {
    let entities = vec![
        line("ent:e0", "ent:c0", "ent:c1"),
        line("ent:e1", "ent:c1", "ent:c2"),
    ];
    let profiles = detect_profiles(&entities).expect("detect");
    assert_eq!(profiles.len(), 1);
    assert_eq!(profiles[0].kind, ProfileKind::Open);
}

#[test]
fn detects_circle_profile() {
    let entities = vec![ProfileEntity::Circle {
        id: "ent:circle_1".to_string(),
        construction: false,
    }];
    let profiles = detect_profiles(&entities).expect("detect");
    assert_eq!(profiles.len(), 1);
    assert_eq!(profiles[0].kind, ProfileKind::Closed);
    assert_eq!(profiles[0].id, "profile:circle:ent:circle_1");
    assert_eq!(
        profiles[0].profile_ref.as_deref(),
        Some("profile:circle:ent:circle_1")
    );
}

#[test]
fn assigns_outer_profile_ref() {
    let mut profiles = vec![
        Profile::new("profile:0".into(), vec!["ent:e0".into()], ProfileKind::Open),
        Profile::new(
            "profile:1".into(),
            vec!["ent:e1".into(), "ent:e2".into()],
            ProfileKind::Closed,
        ),
    ];
    assign_profile_refs("sketch:base", &mut profiles);
    assert_eq!(
        profiles[1].profile_ref.as_deref(),
        Some("sketch:base/profile:outer")
    );
    assert_eq!(profiles[0].profile_ref, None);
}

#[test]
fn loops_are_numbered_after_circles_and_skip_construction() {
    let mut entities = vec![ProfileEntity::Circle {
        id: "ent:hole".to_string(),
        construction: false,
    }];
    entities.push(ProfileEntity::Circle {
        id: "ent:guide".to_string(),
        construction: true,
    });
    entities.extend([
        line("ent:e0", "ent:c0", "ent:c1"),
        line("ent:e1", "ent:c1", "ent:c2"),
        line("ent:e2", "ent:c2", "ent:c0"),
    ]);
    entities.push(ProfileEntity::Line {
        id: "ent:axis".into(),
        construction: true,
        start: "ent:c0".into(),
        end: "ent:c2".into(),
    });
    let profiles = detect_profiles(&entities).expect("detect");
    assert_eq!(profiles.len(), 2);
    assert_eq!(profiles[1].id, "profile:loop:1");
    assert_eq!(profiles[1].kind, ProfileKind::Closed);
    assert_eq!(profiles[1].entity_ids, vec!["ent:e0", "ent:e1", "ent:e2"]);
}

#[test]
fn reversed_segments_join_a_loop() {
    let entities = vec![
        line("ent:e0", "ent:c0", "ent:c1"),
        line("ent:e1", "ent:c2", "ent:c1"),
        line("ent:e2", "ent:c2", "ent:c0"),
    ];
    let profiles = detect_profiles(&entities).expect("detect");
    assert_eq!(profiles.len(), 1);
    assert_eq!(profiles[0].kind, ProfileKind::Closed);
}

#[test]
fn a_point_shared_by_three_segments_is_self_intersecting() {
    let entities = vec![
        line("ent:e0", "ent:p", "ent:a"),
        line("ent:e1", "ent:a", "ent:p"),
        line("ent:e2", "ent:p", "ent:b"),
        line("ent:e3", "ent:b", "ent:p"),
    ];
    let profiles = detect_profiles(&entities).expect("detect");
    assert!(profiles
        .iter()
        .any(|profile| profile.kind == ProfileKind::SelfIntersecting));
}

use musubicad::face_catalog::{FaceCatalog, FaceRole, TriangleFace};
use musubicad::mesh::{validate_kernel_face_on_mesh, MeshSet};
use musubicad::offscreen::{
    align_to, check_frame_index, count_non_background_pixels, unpack_rgba, validate_frame_settings,
    AnimationSummary, RenderImage, RenderOutput,
};
use musubicad::overlay::{pickable_line_at, LineOrigin};
use musubicad::error::CadError;
use musubicad::presentation::{boundary_edges, mesh_edges, EdgeSighting};

#[test]
fn rows_align_to_the_copy_alignment() {
    assert_eq!(align_to(256 * 4, 256), 1024);
    assert_eq!(align_to(100 * 4, 256), 512);
    assert_eq!(align_to(0, 256), 0);
    assert_eq!(align_to(1, 1), 1);
}

#[test]
fn unpacking_drops_row_padding() {
    // Two rows of two pixels, each row padded to 12 bytes.
    let mut data = Vec::new();
    for row in 0..2u8 {
        for byte in 0..8u8 {
            data.push(row * 100 + byte);
        }
        data.extend([255, 255, 255, 255]);
    }
    let rgba = unpack_rgba(&data, 2, 2, 12);
    assert_eq!(
        rgba,
        vec![0, 1, 2, 3, 4, 5, 6, 7, 100, 101, 102, 103, 104, 105, 106, 107]
    );
    assert!(unpack_rgba(&data, 0, 2, 12).is_empty());
}

#[test]
fn coverage_counts_pixels_beyond_the_tolerance() {
    let backgrounds = [[10u8, 20, 30], [50, 50, 50]];
    let data = vec![
        10, 20, 30, 255, // backdrop
        24, 34, 44, 255, // within tolerance in every channel
        10, 20, 45, 255, // blue off by 15
        // second row
        50, 50, 50, 255, //
        0, 50, 50, 255, // red off by 50
        50, 64, 50, 255, // within tolerance
    ];
    assert_eq!(count_non_background_pixels(&data, 3, 2, 12, &backgrounds), 2);
}

#[test]
fn render_output_summarizes_an_image() {
    let image = RenderImage {
        width: 4,
        height: 2,
        rgba: vec![0; 32],
        non_background_pixels: 3,
    };
    let output = RenderOutput::from(image);
    assert_eq!(
        output,
        RenderOutput {
            width: 4,
            height: 2,
            non_background_pixels: 3
        }
    );
    let summary = AnimationSummary {
        width_px: 320,
        height_px: 240,
        frame_count: 24,
        frames_per_second: 12,
    };
    assert_eq!(summary.frame_count, 24);
}

fn square_mesh(face_ids: Vec<u64>) -> MeshSet {
    MeshSet {
        positions: vec![[0; 3], [1; 3], [2; 3], [3; 3]],
        normals: vec![[0; 3]; 4],
        indices: vec![0, 1, 2, 0, 2, 3],
        triangle_face_ids: face_ids,
    }
}

#[test]
fn mesh_merge_concatenates_geometry() {
    let first = square_mesh(vec![1, 1]);
    let second = square_mesh(vec![2, 3]);
    let merged = MeshSet::merge(&[first.clone(), second.clone()]);
    assert_eq!(merged.positions.len(), 8);
    assert_eq!(merged.normals.len(), 8);
    assert_eq!(merged.indices, vec![0, 1, 2, 0, 2, 3, 4, 5, 6, 4, 6, 7]);
    assert_eq!(merged.triangle_face_ids, vec![1, 1, 2, 3]);
    assert_eq!(merged.triangle_count(), 4);
    assert!(merged.has_triangle_face_ids());
}

#[test]
fn kernel_faces_are_checked_on_the_mesh() {
    let mesh = square_mesh(vec![4, 5]);
    assert_eq!(validate_kernel_face_on_mesh(&mesh, 5), Ok(()));
    assert!(matches!(
        validate_kernel_face_on_mesh(&mesh, 6),
        Err(CadError::NotFound(m)) if m == "kernel face '6' not found in tessellated body"
    ));
    assert!(matches!(
        validate_kernel_face_on_mesh(&square_mesh(Vec::new()), 4),
        Err(CadError::Validation(_))
    ));
}

fn tri(mesh_index: usize, kernel_face_id: Option<u64>, role: FaceRole, bucket: (i32, i32)) -> TriangleFace {
    TriangleFace {
        mesh_index,
        kernel_face_id,
        role,
        bucket,
        normal_bits: [0; 3],
        centroid_bits: [0; 3],
    }
}

#[test]
fn catalog_groups_by_kernel_face_and_by_bucket() {
    let triangles = [
        tri(0, Some(1), FaceRole::Bottom, (0, 0)),
        tri(0, Some(1), FaceRole::Bottom, (0, 0)),
        tri(0, Some(2), FaceRole::Top, (16, 0)),
        tri(0, Some(2), FaceRole::Top, (16, 0)),
        tri(1, Some(1), FaceRole::Bottom, (0, 0)),
        tri(2, None, FaceRole::Top, (16, 0)),
        tri(2, None, FaceRole::Top, (16, 0)),
        tri(2, None, FaceRole::Top, (17, 0)),
    ];
    let catalog = FaceCatalog::from_triangles(&triangles);
    assert_eq!(catalog.triangle_count(), 8);
    assert_eq!(catalog.groups.len(), 5);
    assert_eq!(catalog.group_at(0).and_then(|group| group.kernel_face_id), Some(1));
    assert_eq!(catalog.group_at(2).and_then(|group| group.kernel_face_id), Some(2));
    assert_eq!(catalog.group_at(4).map(|group| group.mesh_index), Some(1));
    assert_eq!(catalog.triangle_indices_in_group(3), vec![5, 6]);
    assert_eq!(catalog.groups[3].triangle_count, 2);
    assert!(catalog.group_at(8).is_none());
}

#[test]
fn pick_lines_resolve_their_sketch_entity() {
    let lines = vec![
        LineOrigin {
            construction: false,
            sketch_id: Some("sketch:base".into()),
            entity_id: Some("ent:line_1".into()),
            segment_index: None,
        },
        LineOrigin {
            construction: true,
            sketch_id: Some("sketch:base".into()),
            entity_id: Some("ent:hole".into()),
            segment_index: Some(3),
        },
        LineOrigin {
            construction: false,
            sketch_id: None,
            entity_id: None,
            segment_index: None,
        },
    ];
    let line = pickable_line_at(&lines, 0).expect("line");
    assert_eq!(line.entity_kind, "line");
    assert_eq!(line.entity_id, "ent:line_1");
    let circle = pickable_line_at(&lines, 1).expect("circle");
    assert_eq!(circle.entity_kind, "circle");
    assert_eq!(circle.segment_index, Some(3));
    assert!(circle.construction);
    assert!(pickable_line_at(&lines, 2).is_none());
    assert!(pickable_line_at(&lines, 3).is_none());
}

fn sighting(a: [i32; 3], b: [i32; 3], face_id: Option<u64>) -> EdgeSighting {
    let key = if a <= b { (a, b) } else { (b, a) };
    EdgeSighting { key, face_id }
}

fn triangle(p: [[i32; 3]; 3], face_id: Option<u64>) -> Vec<EdgeSighting> {
    vec![
        sighting(p[0], p[1], face_id),
        sighting(p[1], p[2], face_id),
        sighting(p[2], p[0], face_id),
    ]
}

#[test]
fn single_triangle_keeps_its_three_boundary_edges() {
    let s = triangle([[0, 0, 0], [1, 0, 0], [0, 1, 0]], Some(1));
    let edges = mesh_edges(&s);
    assert_eq!(edges.len(), 3);
    // In key order: (0,0,0)-(0,1,0), (0,0,0)-(1,0,0), (0,1,0)-(1,0,0).
    assert_eq!(edges, vec![2, 0, 1]);
}

#[test]
fn quad_on_one_face_drops_its_diagonal() {
    let p = [[0, 0, 0], [1, 0, 0], [1, 1, 0], [0, 1, 0]];
    let mut s = triangle([p[0], p[1], p[2]], Some(7));
    s.extend(triangle([p[0], p[2], p[3]], Some(7)));
    let edges = mesh_edges(&s);
    assert_eq!(edges.len(), 4);
    assert!(!edges.contains(&2));
    assert!(!edges.contains(&3));
}

#[test]
fn quad_across_two_faces_keeps_the_shared_edge_once() {
    let p = [[0, 0, 0], [1, 0, 0], [1, 1, 0], [0, 1, 0]];
    let mut s = triangle([p[0], p[1], p[2]], Some(7));
    s.extend(triangle([p[0], p[2], p[3]], Some(8)));
    let edges = mesh_edges(&s);
    assert_eq!(edges.len(), 5);
    assert!(edges.contains(&2));
    assert!(!edges.contains(&3));
}

#[test]
fn shared_edge_without_face_ids_is_dropped() {
    let p = [[0, 0, 0], [1, 0, 0], [1, 1, 0], [0, 1, 0]];
    let mut s = triangle([p[0], p[1], p[2]], None);
    s.extend(triangle([p[0], p[2], p[3]], None));
    assert_eq!(mesh_edges(&s).len(), 4);
    assert!(mesh_edges(&[]).is_empty());
}

#[test]
fn boundary_edges_drop_sides_shared_inside_the_group() {
    let p = [[0, 0, 0], [1, 0, 0], [1, 1, 0], [0, 1, 0]];
    let keys: Vec<_> = triangle([p[0], p[1], p[2]], None)
        .into_iter()
        .chain(triangle([p[0], p[2], p[3]], None))
        .map(|s| s.key)
        .collect();
    // The diagonal (sides 2 and 3) is shared; the four outer sides remain.
    assert_eq!(boundary_edges(&keys), vec![0, 1, 4, 5]);
    assert_eq!(boundary_edges(&keys[..3]), vec![0, 1, 2]);
    assert!(boundary_edges(&[]).is_empty());
}

#[test]
fn frame_settings_are_checked_in_order() {
    assert_eq!(validate_frame_settings(960, 540, 48, 12), Ok(()));
    assert_eq!(validate_frame_settings(960, 540, 2, 1), Ok(()));
    assert_eq!(
        validate_frame_settings(0, 540, 1, 0),
        Err(CadError::Validation("animation dimensions must be positive pixels".to_string()))
    );
    let frames = Err(CadError::Validation(
        "animation requires at least 2 frames and a positive frame rate".to_string(),
    ));
    assert_eq!(validate_frame_settings(960, 540, 1, 12), frames);
    assert_eq!(validate_frame_settings(960, 540, 48, 0), frames);
    assert_eq!(check_frame_index(47, 48), Ok(()));
    assert_eq!(
        check_frame_index(48, 48),
        Err(CadError::Validation("animation frame index is out of range".to_string()))
    );
}

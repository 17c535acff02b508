use musubicad::error::CadError;
use musubicad::kernel::{BooleanOp, KernelBody, MockGeometryKernel, RevolveOperation};
use musubicad::residual::{length_term_vars, ConstraintResidual, LengthTerm, VarId};
use musubicad::store::{derived_face_history, KernelStore};
use std::collections::HashMap;

#[test]
fn store_hands_out_increasing_ids() {
    let mut store = KernelStore::new();
    assert_eq!(store.alloc_id(), 0);
    assert_eq!(store.alloc_id(), 1);
    assert_eq!(store.alloc_id(), 2);
}

#[test]
fn derived_history_is_indexed_sorted_and_deduplicated() {
    // Result faces at addresses 70, 80, 70 (one address enumerated twice).
    let result_faces = [70, 80, 70];
    let history = [(70, 5), (80, 6), (80, 9), (70, 5)];
    let input_faces: HashMap<u64, u64> = [(5, 1), (6, 2)].into_iter().collect();
    let pairs = derived_face_history(&result_faces, &history, &input_faces);
    assert_eq!(pairs, vec![(1, 1), (2, 2), (3, 1)]);
}

#[test]
fn mock_kernel_boolean_makes_a_new_body() {
    let kernel = MockGeometryKernel::new();
    let body = kernel
        .boolean(KernelBody::new(3), KernelBody::new(4), BooleanOp::Union)
        .expect("boolean");
    assert!(body.0 > 0);
    assert!(kernel.face_derivation_history(&body).is_empty());
}

#[test]
fn mock_wire_needs_two_points() {
    let kernel = MockGeometryKernel::new();
    assert_eq!(kernel.make_wire_for_points(4).expect("wire").0, 4);
    assert_eq!(
        kernel.make_wire_for_points(1),
        Err(CadError::Validation("sketch profile needs at least two points".to_string()))
    );
}

#[test]
fn mock_revolve_combines_with_its_target() {
    let kernel = MockGeometryKernel::new();
    let body = KernelBody::new(6);
    let target = KernelBody::new(10);
    assert_eq!(
        kernel.revolve_with_operation(body.clone(), RevolveOperation::NewBody, None).expect("new").0,
        6
    );
    assert_eq!(
        kernel
            .revolve_with_operation(body.clone(), RevolveOperation::Cut, Some(target.clone()))
            .expect("cut")
            .0,
        4
    );
    assert_eq!(
        kernel
            .revolve_with_operation(body.clone(), RevolveOperation::Join, Some(target.clone()))
            .expect("join")
            .0,
        6 ^ 10
    );
    assert_eq!(
        kernel.revolve_with_operation(body.clone(), RevolveOperation::Cut, None),
        Err(CadError::Validation("cut revolve requires target body".to_string()))
    );
    assert_eq!(
        kernel.revolve_with_operation(body.clone(), RevolveOperation::Join, None),
        Err(CadError::Validation("join revolve requires target body".to_string()))
    );
    // Subtraction wraps.
    assert_eq!(
        kernel
            .revolve_with_operation(target.clone(), RevolveOperation::Cut, Some(body.clone()))
            .expect("cut")
            .0,
        6u64.wrapping_sub(10)
    );
}

#[test]
fn length_terms_list_their_variables() {
    let segment = LengthTerm::Segment { x1: VarId(0), y1: VarId(1), x2: VarId(4), y2: VarId(5) };
    assert_eq!(length_term_vars(segment), vec![VarId(0), VarId(1), VarId(4), VarId(5)]);
    assert_eq!(length_term_vars(LengthTerm::Scalar { value: VarId(7) }), vec![VarId(7)]);
}

#[test]
fn residuals_list_the_variables_they_read() {
    let v = VarId;
    assert_eq!(
        ConstraintResidual::CoincidentX { a: v(1), b: v(5) }.involved_vars(),
        vec![v(1), v(5)]
    );
    assert_eq!(
        ConstraintResidual::Distance {
            x1: v(0),
            y1: v(1),
            x2: v(2),
            y2: v(3),
            target_bits: 0.01f64.to_bits()
        }
        .involved_vars(),
        vec![v(0), v(1), v(2), v(3)]
    );
    let equal = ConstraintResidual::EqualLength {
        a: LengthTerm::Segment { x1: v(0), y1: v(1), x2: v(2), y2: v(3) },
        b: LengthTerm::Scalar { value: v(9) },
    };
    assert_eq!(equal.involved_vars(), vec![v(0), v(1), v(2), v(3), v(9)]);
    assert_eq!(
        ConstraintResidual::TangentLineCircle {
            cx: v(4),
            cy: v(5),
            radius: v(6),
            lx1: v(0),
            ly1: v(1),
            lx2: v(2),
            ly2: v(3)
        }
        .involved_vars(),
        vec![v(4), v(5), v(6), v(0), v(1), v(2), v(3)]
    );
    assert_eq!(
        ConstraintResidual::ArcEndpointY { py: v(7), cy: v(8), radius: v(2), sin_bits: 0 }
            .involved_vars(),
        vec![v(7), v(8), v(2)]
    );
    let [x, y] = ConstraintResidual::midpoint(v(10), v(11), (v(0), v(1), v(2), v(3)));
    assert_eq!(x.involved_vars(), vec![v(10), v(0), v(2)]);
    assert_eq!(y.involved_vars(), vec![v(11), v(1), v(3)]);
    let [cx, cy] = ConstraintResidual::coincident(v(0), v(1), v(2), v(3));
    assert_eq!(cx, ConstraintResidual::CoincidentX { a: v(0), b: v(2) });
    assert_eq!(cy, ConstraintResidual::CoincidentY { a: v(1), b: v(3) });
}

#[test]
fn store_keeps_compounds_and_face_tags() {
    let mut store = KernelStore::new();
    let body = store.alloc_id();
    let compound = store.insert_compound(vec![body, 7]);
    assert_eq!(compound, 1);
    assert_eq!(store.compound_member_ids(compound), Some(&[body, 7][..]));
    assert_eq!(store.compound_member_ids(body), None);
    assert!(store.face_ref_tags(body).is_none());
    store.tag_face_ref(body, 3, "ref:face:top".to_string());
    store.tag_face_ref(body, 4, "ref:face:side".to_string());
    store.tag_face_ref(body, 3, "ref:face:lid".to_string());
    let tags = store.face_ref_tags(body).expect("tags");
    assert_eq!(tags.len(), 2);
    assert_eq!(tags.get(&3).map(String::as_str), Some("ref:face:lid"));
    assert_eq!(tags.get(&4).map(String::as_str), Some("ref:face:side"));
    assert_eq!(store.alloc_id(), 2);
}

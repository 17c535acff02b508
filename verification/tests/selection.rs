use musubicad::selection::{
    rgba_to_selection_id, selection_id_to_rgba, PickResult, SelectionCatalog, SelectionId,
};

#[test]
fn selection_id_round_trip_for_line_index() {
    for line_index in [0, 1, 42, 65534] {
        let id = SelectionId::from_line_index(line_index);
        assert_eq!(id.line_index(), Some(line_index));
        let rgba = selection_id_to_rgba(id);
        assert_eq!(rgba_to_selection_id(rgba), id);
    }
}

#[test]
fn selection_id_round_trip_for_triangle_index() {
    let line_count = 12;
    for triangle_index in [0, 1, 500, 4096] {
        let id = SelectionId::from_triangle_index(triangle_index, line_count);
        let rgba = selection_id_to_rgba(id);
        assert_eq!(rgba_to_selection_id(rgba), id);
        let catalog = SelectionCatalog {
            line_count,
            triangle_count: triangle_index + 1,
        };
        assert_eq!(
            catalog.decode(id),
            PickResult::SolidTriangle(triangle_index)
        );
    }
}

#[test]
fn catalog_prefers_sketch_line_over_triangle_namespace() {
    let catalog = SelectionCatalog {
        line_count: 3,
        triangle_count: 10,
    };
    assert_eq!(
        catalog.decode(SelectionId::from_line_index(1)),
        PickResult::SketchLine(1)
    );
    assert_eq!(
        catalog.decode(SelectionId::from_triangle_index(0, 3)),
        PickResult::SolidTriangle(0)
    );
    assert_eq!(catalog.decode(SelectionId::none()), PickResult::Nothing);
}

#[test]
fn line_id_saturates_at_the_top_of_the_id_space() {
    let id = SelectionId::from_line_index(u32::MAX as usize);
    assert_eq!(id, SelectionId(u32::MAX));
    assert_eq!(SelectionId::none().line_index(), None);
}

#[test]
fn rgba_bytes_are_red_green_blue_then_opaque() {
    assert_eq!(selection_id_to_rgba(SelectionId(0x0012_3456)), [0x12, 0x34, 0x56, 255]);
    assert_eq!(rgba_to_selection_id([0xab, 0xcd, 0xef, 0]), SelectionId(0x00ab_cdef));
    // Only the low 24 bits travel through a pixel.
    assert_eq!(selection_id_to_rgba(SelectionId(0x0100_0001)), [0, 0, 1, 255]);
}

#[test]
fn decode_rejects_ids_past_the_last_triangle() {
    let catalog = SelectionCatalog {
        line_count: 2,
        triangle_count: 3,
    };
    assert_eq!(catalog.decode(SelectionId(3)), PickResult::SolidTriangle(0));
    assert_eq!(catalog.decode(SelectionId(5)), PickResult::SolidTriangle(2));
    assert_eq!(catalog.decode(SelectionId(6)), PickResult::Nothing);
    assert_eq!(catalog.decode(SelectionId(2)), PickResult::SketchLine(1));
}

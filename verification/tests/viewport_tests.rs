use studio_core::viewport::{parse_shading, resolve_face_slot, tint_rgb, triangulate_indices, ShadingMode};

#[test]
fn shading_names() {
    assert_eq!(parse_shading("Wireframe"), ShadingMode::Wireframe);
    assert_eq!(parse_shading("Solid"), ShadingMode::Solid);
    assert_eq!(parse_shading("Flat"), ShadingMode::Solid);
    assert_eq!(parse_shading("Smooth"), ShadingMode::Solid);
    assert_eq!(parse_shading("Textured"), ShadingMode::Textured);
    assert_eq!(parse_shading("Lit"), ShadingMode::Textured);
    assert_eq!(parse_shading("wireframe"), ShadingMode::Textured);
    assert_eq!(parse_shading(""), ShadingMode::Textured);
}

#[test]
fn tint_scales_channels() {
    assert_eq!(tint_rgb([200, 255, 10], [128, 255, 0]), [100, 255, 0]);
    assert_eq!(tint_rgb([255, 255, 255], [255, 255, 255]), [255, 255, 255]);
}

#[test]
fn face_slots_fall_back_to_all_then_first() {
    let keys = vec!["+X".to_string(), "All".to_string(), "-Y".to_string()];
    assert_eq!(resolve_face_slot(&keys, "-Y"), Some(2));
    assert_eq!(resolve_face_slot(&keys, "+Z"), Some(1));
    let no_all = vec!["+X".to_string(), "-Y".to_string()];
    assert_eq!(resolve_face_slot(&no_all, "+Z"), Some(0));
    assert_eq!(resolve_face_slot(&no_all, "All"), Some(0));
    assert_eq!(resolve_face_slot(&vec![], "All"), None);
}

#[test]
fn triangulation_cases() {
    assert_eq!(triangulate_indices(2, None), Vec::<usize>::new());
    assert_eq!(triangulate_indices(3, None), vec![0, 1, 2]);
    assert_eq!(triangulate_indices(5, Some(vec![0, 2, 4])), vec![0, 2, 4]);
    assert_eq!(triangulate_indices(5, Some(vec![])), vec![0, 1, 2, 0, 2, 3, 0, 3, 4]);
    assert_eq!(triangulate_indices(4, None), vec![0, 1, 2, 0, 2, 3]);
}

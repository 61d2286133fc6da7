use studio_core::object::{default_auto_tile, default_bg_color, AiBehavior, BooleanOp, ColliderType, PrimitiveShape};
use studio_core::types::{
    Anchor, AnimationType, EditorMode, GradientDirection, LayerKind, LayerStateOverride, RoomDimensions,
    needs_continuous_repaint, RoomInfo, TextAlign, TextValign,
};

#[test]
fn ui_defaults() {
    assert_eq!(Anchor::default(), Anchor::TopLeft);
    assert_eq!(TextAlign::default(), TextAlign::Left);
    assert_eq!(TextValign::default(), TextValign::Top);
    assert_eq!(GradientDirection::default(), GradientDirection::Horizontal);
    assert_eq!(AnimationType::default(), AnimationType::NoAnimation);
    let o = LayerStateOverride::default();
    assert!(!o.enabled);
    assert_eq!(o.fg_color, [255, 255, 255]);
    assert_eq!(o.bg_color, [50, 50, 50]);
    assert_ne!(LayerKind::Fill, LayerKind::Text);
    assert_ne!(EditorMode::UiDesigner, EditorMode::TextureEditor);
}

#[test]
fn object_defaults() {
    assert!(default_auto_tile());
    assert_eq!(default_bg_color(), [50, 50, 60]);
    assert_ne!(PrimitiveShape::Cube, PrimitiveShape::EmptyGroup);
    assert_ne!(BooleanOp::Add, BooleanOp::Subtract);
    assert_ne!(ColliderType::NoCollider, ColliderType::Box);
    assert_ne!(AiBehavior::NoBehavior, AiBehavior::Patrol);
}

#[test]
fn room_info_holds_its_size() {
    let r = RoomInfo {
        id: "room_01".to_string(),
        name: "Giriş".to_string(),
        dimensions: RoomDimensions { width: 10, length: 12, height: 3 },
    };
    assert_eq!(r.dimensions.length, 12);
}

#[test]
fn continuous_repaint_only_where_something_moves() {
    assert!(needs_continuous_repaint(false, false, EditorMode::UiDesigner));
    assert!(needs_continuous_repaint(true, false, EditorMode::ObjectEditor));
    assert!(needs_continuous_repaint(false, true, EditorMode::TextureEditor));
    assert!(!needs_continuous_repaint(false, false, EditorMode::LevelEditor));
    assert!(!needs_continuous_repaint(false, false, EditorMode::ObjectEditor));
}

use nirimap::config::{
    anchor_h, anchor_v, Anchor, BehaviorConfig, Color, FontStyle, FontWeight, HAlign, LabelContent, VAlign,
    WorkspaceMode,
};

fn channel(v: u8) -> f64 {
    f64::from(v) / 255.0
}

#[test]
fn test_color_from_hex_with_hash() {
    let color = Color::from_hex("#1e1e2e").unwrap();
    assert!((channel(color.r) - 30.0 / 255.0).abs() < 0.001);
    assert!((channel(color.g) - 30.0 / 255.0).abs() < 0.001);
    assert!((channel(color.b) - 46.0 / 255.0).abs() < 0.001);
    assert_eq!(channel(color.a), 1.0);
}

#[test]
fn test_color_from_hex_without_hash() {
    let color = Color::from_hex("89b4fa").unwrap();
    assert!((channel(color.r) - 137.0 / 255.0).abs() < 0.001);
    assert!((channel(color.g) - 180.0 / 255.0).abs() < 0.001);
    assert!((channel(color.b) - 250.0 / 255.0).abs() < 0.001);
    assert_eq!(channel(color.a), 1.0);
}

#[test]
fn test_color_from_hex_invalid_length() {
    assert!(Color::from_hex("#fff").is_none());
    assert!(Color::from_hex("#1e1e2e00").is_none());
    assert!(Color::from_hex("").is_none());
}

#[test]
fn test_color_from_hex_invalid_characters() {
    assert!(Color::from_hex("#gggggg").is_none());
    assert!(Color::from_hex("#1e1e2z").is_none());
    assert!(Color::from_hex("xyz123").is_none());
}

#[test]
fn test_color_from_hex_edge_cases() {
    let black = Color::from_hex("#000000").unwrap();
    assert_eq!(channel(black.r), 0.0);
    assert_eq!(channel(black.g), 0.0);
    assert_eq!(channel(black.b), 0.0);

    let white = Color::from_hex("#ffffff").unwrap();
    assert_eq!(channel(white.r), 1.0);
    assert_eq!(channel(white.g), 1.0);
    assert_eq!(channel(white.b), 1.0);
}

#[test]
fn test_color_alpha_is_always_one() {
    let color1 = Color::from_hex("#123456").unwrap();
    assert_eq!(channel(color1.a), 1.0);

    let color2 = Color::from_hex("abcdef").unwrap();
    assert_eq!(channel(color2.a), 1.0);
}

#[test]
fn color_from_hex_exact_channels_and_odd_inputs() {
    assert_eq!(Color::from_hex("##ABCDEF"), Some(Color { r: 0xab, g: 0xcd, b: 0xef, a: 255 }));
    // `u8::from_str_radix` takes a leading plus sign
    assert_eq!(Color::from_hex("+f+e+d"), Some(Color { r: 15, g: 14, b: 13, a: 255 }));
    assert!(Color::from_hex("-f1e2e").is_none());
    // six bytes of non-ASCII text parse to nothing
    assert!(Color::from_hex("ééé").is_none());
    assert!(Color::hex_is_sliceable("ééé"));
    assert!(!Color::hex_is_sliceable("aébcd"));
    assert!(Color::hex_is_sliceable("#1e1e2e"));
}

#[test]
fn defaults_of_enums_and_behavior() {
    assert_eq!(Anchor::default(), Anchor::TopRight);
    assert_eq!(WorkspaceMode::default(), WorkspaceMode::All);
    assert_eq!(LabelContent::default(), LabelContent::Title);
    assert_eq!(FontWeight::default(), FontWeight::Normal);
    assert_eq!(FontStyle::default(), FontStyle::Normal);
    let b = BehaviorConfig::default();
    assert!(b.show_on_overview);
    assert!(b.always_visible);
    assert_eq!(b.hide_timeout_ms, 2000);
    assert!(!b.show_for_floating_windows);
}

#[test]
fn anchors_split_into_placements() {
    assert_eq!(anchor_h(Anchor::TopLeft), HAlign::Left);
    assert_eq!(anchor_h(Anchor::BottomCenter), HAlign::Center);
    assert_eq!(anchor_h(Anchor::Center), HAlign::Center);
    assert_eq!(anchor_h(Anchor::BottomRight), HAlign::Right);
    assert_eq!(anchor_v(Anchor::TopCenter), VAlign::Top);
    assert_eq!(anchor_v(Anchor::Center), VAlign::Center);
    assert_eq!(anchor_v(Anchor::BottomLeft), VAlign::Bottom);
}

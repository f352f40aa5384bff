use e_tui::config::{HexRgb, InputStyle, PaneWidthPercent, RevealRate, ThinkingDisplayMode};
use e_tui::i18n::Language;

#[test]
fn pane_width_percent_rounds_columns_consistently() {
    let percent = PaneWidthPercent::from_basis_points(6_125).unwrap();
    assert_eq!(percent.basis_points(), 6_125);
    assert_eq!(percent.columns(800), 490);
    assert_eq!(PaneWidthPercent::from_columns(490, 800), percent);
    assert_eq!(
        PaneWidthPercent::from_columns(0, 800),
        PaneWidthPercent::from_basis_points(2_500).unwrap()
    );
    assert_eq!(
        PaneWidthPercent::from_columns(800, 800),
        PaneWidthPercent::from_basis_points(10_000).unwrap()
    );
    assert!(PaneWidthPercent::from_basis_points(2_499).is_none());
    assert!(PaneWidthPercent::from_basis_points(10_001).is_none());
    assert_eq!(percent.display(), "61.25%");
    assert_eq!(PaneWidthPercent::default_width().display(), "60.00%");
}

#[test]
fn hex_colors_parse_either_case_and_render_lower_case() {
    let color = HexRgb::from_str("#1A2b3C").unwrap();
    assert_eq!((color.red, color.green, color.blue), (0x1a, 0x2b, 0x3c));
    assert_eq!(color.to_hex_string(), "#1a2b3c");
    assert!(HexRgb::from_str("black").is_err());
    assert!(HexRgb::from_str("#aééb").is_err());
    assert!(HexRgb::from_str("#12345g").is_err());
}

#[test]
fn reveal_rates_are_bounded() {
    assert_eq!(RevealRate::new(0).unwrap().get(), 0);
    assert!(RevealRate::new(0).unwrap().is_disabled());
    assert_eq!(RevealRate::new(1024).unwrap().get(), 1024);
    assert!(RevealRate::new(1025).is_err());
}

#[test]
fn styles_and_modes_map_their_persisted_values() {
    assert_eq!(InputStyle::Line.value(), "line");
    assert_eq!(InputStyle::Rounded.horizontal_chrome(), 2);
    assert_eq!(InputStyle::Line.horizontal_chrome(), 1);
    assert!(!ThinkingDisplayMode::Compact.shows_reasoning());
    assert!(ThinkingDisplayMode::Full.shows_reasoning());
    assert_eq!(Language::from_tag("zh-CN"), Some(Language::SimplifiedChinese));
    assert_eq!(Language::from_tag("fr"), None);
    assert_eq!(Language::English.as_str(), "en");
}

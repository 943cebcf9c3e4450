use marten::config::{
    default_template, invalid_reason, with_theme, Config, DiffLayoutSetting, ThemeSaveError,
    DEFAULT_TAB_WIDTH,
};
use marten::state::diff::DiffLayout;
use marten::theme::themes;

#[test]
fn sidebar_defaults_to_terminal_width() {
    let config = Config::default();

    assert!(!config.ui.show_sidebar(120));
    assert!(config.ui.show_sidebar(121));
}

#[test]
fn transparent_background_defaults_to_false() {
    let config = Config::default();
    assert!(!config.ui.transparent_background);
}

#[test]
fn diff_ignore_whitespace_defaults_to_false() {
    let config = Config::default();
    assert!(!config.diff.ignore_whitespace);
}

#[test]
fn diff_tab_width_defaults_to_four() {
    let config = Config::default();
    assert!(config.diff.tab_width == DEFAULT_TAB_WIDTH)
}

#[test]
fn diff_layout_defaults_to_auto() {
    let config = Config::default();
    assert_eq!(config.diff.layout, DiffLayoutSetting::Auto);
    assert_eq!(config.diff.layout.as_override(), None);
}

#[test]
fn theme_ids_are_unique() {
    let mut ids = std::collections::HashSet::new();

    for entry in themes() {
        assert!(ids.insert(entry.id), "duplicate theme id: {}", entry.id);
    }
}

#[test]
fn sidebar_setting_overrides_terminal_width() {
    let mut shown = Config::default();
    shown.ui.show_sidebar = Some(true);
    let mut hidden = Config::default();
    hidden.ui.show_sidebar = Some(false);

    assert!(shown.ui.show_sidebar(80));
    assert!(!hidden.ui.show_sidebar(160));
}

#[test]
fn nerd_fonts_and_line_numbers_default_to_true() {
    let config = Config::default();
    assert!(config.ui.nerd_fonts);
    assert!(config.diff.show_line_numbers);
    assert!(config.review.ignore.is_empty());
    assert_eq!(config.ui.theme, "marten");
    assert_eq!(config.ui.show_sidebar, None);
}

#[test]
fn layout_settings_force_a_layout() {
    assert_eq!(DiffLayoutSetting::Split.as_override(), Some(DiffLayout::SideBySide));
    assert_eq!(DiffLayoutSetting::Unified.as_override(), Some(DiffLayout::Unified));
    assert_eq!(DiffLayoutSetting::Auto.as_str(), "auto");
    assert_eq!(DiffLayoutSetting::Split.as_str(), "split");
    assert_eq!(DiffLayoutSetting::Unified.as_str(), "unified");
}

#[test]
fn default_config_is_valid() {
    assert_eq!(invalid_reason(&Config::default()), None);
}

#[test]
fn empty_theme_is_invalid() {
    let mut config = Config::default();
    config.ui.theme = String::new();
    let message = invalid_reason(&config).unwrap();
    assert!(message.contains("unknown theme ``"));
}

#[test]
fn unknown_theme_has_an_actionable_error() {
    let mut config = Config::default();
    config.ui.theme = "unknown".to_string();
    let message = invalid_reason(&config).unwrap();
    assert!(message.contains("unknown theme `unknown`"));
    assert!(message.contains("`marten`"));
    assert!(message.contains("`ermine`"));
}

#[test]
fn zero_tab_width_is_refused() {
    let mut config = Config::default();
    config.diff.tab_width = 0;
    assert_eq!(
        invalid_reason(&config).unwrap(),
        "`diff.tab_width` must be greater than zero"
    );
}

#[test]
fn unknown_theme_falls_back_to_the_default_entry() {
    let mut config = Config::default();
    assert_eq!(config.ui.theme(), 0);
    config.ui.theme = "ermine".to_string();
    assert_eq!(themes()[config.ui.theme()].id, "ermine");
    config.ui.theme = "nope".to_string();
    assert_eq!(config.ui.theme(), 0);
}

#[test]
fn nerd_fonts_defaults_to_true_and_can_be_disabled() {
    let config = Config::default();
    assert!(config.ui.nerd_fonts);

    let mut config = Config::default();
    config.ui.nerd_fonts = false;
    assert!(!config.ui.nerd_fonts);
    assert_eq!(invalid_reason(&config), None);
}

#[test]
fn set_diff_layout_to_split() {
    let mut config = Config::default();
    config.diff.layout = DiffLayoutSetting::Split;
    assert_eq!(config.diff.layout, DiffLayoutSetting::Split);
    assert_eq!(
        config.diff.layout.as_override(),
        Some(DiffLayout::SideBySide)
    );
}

#[test]
fn set_diff_layout_to_unified() {
    let mut config = Config::default();
    config.diff.layout = DiffLayoutSetting::Unified;
    assert_eq!(config.diff.layout, DiffLayoutSetting::Unified);
    assert_eq!(config.diff.layout.as_override(), Some(DiffLayout::Unified));
}

#[test]
fn empty_review_section_ignores_nothing() {
    let config = Config::default();

    assert!(config.review.ignore.is_empty());
    assert!(!marten::glob::matches_any(
        &config.review.ignore,
        "anything/at/all.rs"
    ));
}

#[test]
fn saving_theme_preserves_comments_in_the_default_template() {
    let saved = with_theme(&default_template(), "ermine").unwrap();
    assert!(saved.contains("# Every setting below is commented out"));
    assert!(saved.contains("# tab_width = 4"));

    let document: toml::Table = toml::from_str(&saved).unwrap();
    assert_eq!(document["ui"]["theme"].as_str(), Some("ermine"));
}

#[test]
fn saving_theme_preserves_other_settings() {
    let saved = with_theme(
        "custom = 'kept'\n\n[ui]\nshow_sidebar = true\ntheme = 'marten'\n",
        "ermine",
    )
    .unwrap();

    let document: toml::Table = toml::from_str(&saved).unwrap();
    assert_eq!(document["custom"].as_str(), Some("kept"));
    assert_eq!(document["ui"]["show_sidebar"].as_bool(), Some(true));
    assert_eq!(document["ui"]["theme"].as_str(), Some("ermine"));
}

#[test]
fn saving_theme_preserves_review_settings() {
    let saved = with_theme(
        "[review]\nignore = [\"*.lock\"]\n\n[ui]\ntheme = 'marten'\n",
        "ermine",
    )
    .unwrap();

    let document: toml::Table = toml::from_str(&saved).unwrap();
    assert_eq!(document["ui"]["theme"].as_str(), Some("ermine"));
    assert_eq!(document["review"]["ignore"][0].as_str(), Some("*.lock"));
}

#[test]
fn saving_theme_into_an_empty_file_creates_the_ui_table() {
    let saved = with_theme("", "ermine").unwrap();
    let document: toml::Table = toml::from_str(&saved).unwrap();
    assert_eq!(document["ui"]["theme"].as_str(), Some("ermine"));
}

#[test]
fn saving_theme_refuses_broken_files() {
    assert!(matches!(
        with_theme("[ui", "ermine"),
        Err(ThemeSaveError::Parse(_))
    ));
    assert_eq!(
        with_theme("ui = 3\n", "ermine"),
        Err(ThemeSaveError::UiNotTable)
    );
}

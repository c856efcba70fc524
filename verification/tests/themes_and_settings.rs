use reed::config::{
    cycle_theme, default_theme_name, is_ghostty, next_in_ring, prev_in_ring, resolve_theme_name,
    Preferences,
};
use reed::file_type::{is_detected_markdown, label_to_lang, DetectedType};
use reed::render::{build_skin, fzf_header_line};
use reed::theme::{
    all_themes, builtin_themes, load_user_themes, parse_hex_color, theme_index_by_name, Color,
    UserTheme, MIN_TERM_HEIGHT, MIN_TERM_WIDTH,
};

fn index(name: &str) -> usize {
    theme_index_by_name(&builtin_themes(), name)
}

#[test]
fn preferences_default_uses_expected_theme() {
    let prefs = Preferences::default();
    assert_eq!(prefs.theme, default_theme_name());
}

#[test]
fn label_to_lang_known() {
    assert_eq!(label_to_lang("rust"), Some("rs"));
    assert_eq!(label_to_lang("python"), Some("py"));
    assert_eq!(label_to_lang("zig"), Some("zig"));
}

#[test]
fn label_to_lang_unknown() {
    assert_eq!(label_to_lang("txt"), None);
    assert_eq!(label_to_lang("unknown"), None);
}

fn detected(label: &str, score: f32) -> DetectedType {
    DetectedType {
        label: label.to_string(),
        mime_type: "text/markdown".to_string(),
        description: "Markdown".to_string(),
        group: "text".to_string(),
        score_bits: score.to_bits(),
        is_text: true,
    }
}

#[test]
fn is_detected_markdown_checks_score() {
    let high = detected("markdown", 0.95);
    assert!(is_detected_markdown(&high));

    let low = detected("markdown", 0.5);
    assert!(!is_detected_markdown(&low));

    let wrong_label = detected("txt", 0.99);
    assert!(!is_detected_markdown(&wrong_label));
}

#[test]
fn detected_markdown_needs_seven_tenths() {
    assert!(is_detected_markdown(&detected("markdown", 0.7)));
    assert!(!is_detected_markdown(&detected("markdown", 0.699_999)));
    assert!(!is_detected_markdown(&detected("markdown", f32::NAN)));
    assert!(!is_detected_markdown(&detected("markdown", -0.9)));
}

#[test]
fn theme_count_matches_expected() {
    assert_eq!(builtin_themes().len(), 14);
}

#[test]
fn default_theme_is_first() {
    assert_eq!(builtin_themes()[0].name, "Default");
}

#[test]
fn theme_index_by_name_found() {
    assert_eq!(index("Gruvbox"), 1);
    assert_eq!(index("Ayu"), 3);
}

#[test]
fn theme_index_by_name_not_found_returns_zero() {
    assert_eq!(index("Nonexistent"), 0);
}

#[test]
fn all_themes_have_unique_names() {
    let themes = builtin_themes();
    let names: Vec<&str> = themes.iter().map(|t| t.name.as_str()).collect();
    for (i, name) in names.iter().enumerate() {
        assert!(!names[..i].contains(name), "Duplicate theme name: {name}");
    }
}

#[test]
fn all_themes_have_non_empty_names() {
    for theme in builtin_themes() {
        assert!(!theme.name.is_empty(), "Theme name must not be empty");
    }
}

#[test]
fn theme_index_by_name_is_case_sensitive() {
    // "solarized" (lowercase) should not match "Solarized"
    assert_eq!(index("solarized"), 0);
    assert_ne!(index("Solarized"), 0);
}

#[test]
fn build_skin_does_not_panic() {
    for theme in builtin_themes() {
        let _ = build_skin(&theme);
    }
}

#[test]
fn skin_takes_the_colors_of_the_theme() {
    let theme = &builtin_themes()[1];
    let skin = build_skin(theme);
    assert_eq!(skin.heading, theme.heading);
    assert_eq!(skin.bold, theme.accent);
    assert_eq!(skin.strikeout, theme.muted);
    assert_eq!(skin.code_bg, theme.code_bg);
    assert_eq!(skin.code_margin, 2);
    assert_eq!(skin.bullet, '\u{2022}');
}

#[test]
fn parse_hex_color_6digit() {
    assert_eq!(
        parse_hex_color("#1e1e2e"),
        Some(Color::Rgb {
            r: 0x1e,
            g: 0x1e,
            b: 0x2e,
        })
    );
}

#[test]
fn parse_hex_color_3digit() {
    // #abc → #aabbcc
    assert_eq!(
        parse_hex_color("#abc"),
        Some(Color::Rgb {
            r: 0xaa,
            g: 0xbb,
            b: 0xcc,
        })
    );
}

#[test]
fn parse_hex_color_reset() {
    assert_eq!(parse_hex_color("reset"), Some(Color::Reset));
    assert_eq!(parse_hex_color("RESET"), Some(Color::Reset));
}

#[test]
fn parse_hex_color_invalid() {
    assert_eq!(parse_hex_color("notacolor"), None);
    assert_eq!(parse_hex_color("#zzzzzz"), None);
    assert_eq!(parse_hex_color("#12"), None);
}

fn user_theme(toml_str: &str) -> UserTheme {
    let table: toml::Table = toml_str.parse().unwrap();
    let field = |key: &str| table[key].as_str().unwrap().to_string();
    UserTheme {
        name: field("name"),
        bg: field("bg"),
        fg: field("fg"),
        heading: field("heading"),
        accent: field("accent"),
        muted: field("muted"),
        code_bg: field("code_bg"),
        code_fg: field("code_fg"),
        quote_mark: field("quote_mark"),
        border: field("border"),
        header_bg: field("header_bg"),
        header_fg: field("header_fg"),
        title: field("title"),
    }
}

#[test]
fn user_theme_toml_roundtrip() {
    let toml_str = r##"
name = "Test Theme"
bg = "#1e1e2e"
fg = "#cdd6f4"
heading = "#89b4fa"
accent = "#f5c2e7"
muted = "#6c7086"
code_bg = "#181825"
code_fg = "#a6e3a1"
quote_mark = "#a6e3a1"
border = "#313244"
header_bg = "#181825"
header_fg = "#cdd6f4"
title = "#89b4fa"
"##;
    let ut = user_theme(toml_str);
    let theme = ut.into_theme().expect("should parse all colors");
    assert_eq!(theme.name, "Test Theme");
    assert_eq!(
        theme.bg,
        Color::Rgb {
            r: 0x1e,
            g: 0x1e,
            b: 0x2e
        }
    );
}

#[test]
fn user_theme_bad_hex_returns_none() {
    let toml_str = r##"
name = "Bad"
bg = "nope"
fg = "#cdd6f4"
heading = "#89b4fa"
accent = "#f5c2e7"
muted = "#6c7086"
code_bg = "#181825"
code_fg = "#a6e3a1"
quote_mark = "#a6e3a1"
border = "#313244"
header_bg = "#181825"
header_fg = "#cdd6f4"
title = "#89b4fa"
"##;
    let ut = user_theme(toml_str);
    assert!(ut.into_theme().is_none(), "bad hex should fail into_theme");
}

#[test]
fn user_theme_reset_bg() {
    let toml_str = r##"
name = "Transparent"
bg = "reset"
fg = "#ffffff"
heading = "#ffffff"
accent = "#ffffff"
muted = "#ffffff"
code_bg = "#000000"
code_fg = "#ffffff"
quote_mark = "#ffffff"
border = "#ffffff"
header_bg = "#000000"
header_fg = "#ffffff"
title = "#ffffff"
"##;
    let ut = user_theme(toml_str);
    let theme = ut.into_theme().unwrap();
    assert_eq!(theme.bg, Color::Reset);
}

fn white_theme(name: &str, bg: &str) -> UserTheme {
    let white = || "#ffffff".to_string();
    UserTheme {
        name: name.to_string(),
        bg: bg.to_string(),
        fg: white(),
        heading: white(),
        accent: white(),
        muted: white(),
        code_bg: white(),
        code_fg: white(),
        quote_mark: white(),
        border: white(),
        header_bg: white(),
        header_fg: white(),
        title: white(),
    }
}

#[test]
fn all_themes_includes_builtins() {
    let users = vec![white_theme("Zebra", "#000000"), white_theme("Broken", "?")];
    let all = all_themes(&load_user_themes(&users));
    // There should be at least the built-in themes.
    assert!(all.len() >= builtin_themes().len());
    // First theme should be Default.
    assert_eq!(all[0].name, "Default");
}

#[test]
fn user_themes_are_sorted_and_broken_ones_left_out() {
    let users = vec![
        white_theme("Zebra", "#000000"),
        white_theme("Broken", "?"),
        white_theme("Apple", "#000000"),
    ];
    let loaded = load_user_themes(&users);
    let names: Vec<&str> = loaded.iter().map(|t| t.name.as_str()).collect();
    assert_eq!(names, vec!["Apple", "Zebra"]);
    let all = all_themes(&loaded);
    assert_eq!(all.len(), 16);
    assert_eq!(theme_index_by_name(&all, "Zebra"), 15);
}

#[test]
fn every_theme_is_found_by_its_own_name() {
    let themes = builtin_themes();
    for (i, theme) in themes.iter().enumerate() {
        assert_eq!(theme_index_by_name(&themes, &theme.name), i);
    }
}

#[test]
fn search_backgrounds_are_tinted() {
    let theme = &builtin_themes()[0];
    assert_ne!(theme.search_match_bg(), theme.bg);
    assert_ne!(theme.search_current_bg(), theme.search_match_bg());
}

#[test]
fn ghostty_is_told_by_its_terminal_name() {
    assert!(is_ghostty(Some("xterm-ghostty")));
    assert!(!is_ghostty(Some("ghostty")));
    assert!(!is_ghostty(None));
}

#[test]
fn ghostty_forces_its_theme() {
    assert_eq!(resolve_theme_name(None, Some("Ayu"), "Gruvbox"), "Ayu");
    assert_eq!(resolve_theme_name(Some("xterm"), None, "Gruvbox"), "Gruvbox");
    assert_eq!(
        resolve_theme_name(Some("xterm-ghostty"), Some("Ayu"), "Gruvbox"),
        "FFE Dark"
    );
}

#[test]
fn themes_are_cycled_around() {
    let themes = builtin_themes();
    assert_eq!(cycle_theme(&themes, "Default", true), "Gruvbox");
    assert_eq!(cycle_theme(&themes, "Default", false), "FFE Light");
    assert_eq!(cycle_theme(&themes, "FFE Light", true), "Default");
    assert_eq!(prev_in_ring(next_in_ring(13, 14), 14), 13);
}

#[test]
fn picker_header_names_the_theme() {
    let theme = &builtin_themes()[0];
    let header = fzf_header_line(theme);
    assert!(header.contains("[Default]"));
    assert!(header.contains("\x1b[1m^n/^b\x1b[22m "));
    assert!(header.ends_with("\x1b[0m"));
    assert_eq!(header.lines().count(), 2);
}

#[test]
fn terminal_must_have_a_minimum_size() {
    assert_eq!((MIN_TERM_WIDTH, MIN_TERM_HEIGHT), (40, 8));
}

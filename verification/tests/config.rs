use difv::config::{
    config_dir, config_path, detect_eol, detect_indent, layout_path, parse_layout, render, render_layout, Config, Eol, Indent, Layout,
    DEFAULT_SPLIT,
};

fn lines(text: &str) -> Vec<String> {
    text.lines().map(str::to_string).collect()
}

#[test]
fn missing_and_partial_files_still_produce_a_config() {
    let (config, warnings) = Config::parse("", "test");
    assert!(warnings.is_empty());
    assert_eq!(config.indent_width, 2);

    let (config, warnings) = Config::parse("indent_width = 8", "test");
    assert!(warnings.is_empty());
    assert_eq!(config.indent_width, 8);
    assert!(config.detect_indent);
}

#[test]
fn malformed_file_falls_back_and_reports() {
    let (config, warnings) = Config::parse("indent_width = ", "test");
    assert_eq!(config.indent_width, 2);
    assert_eq!(warnings.len(), 1);
}

#[test]
fn invalid_values_fall_back_and_report() {
    let (config, warnings) = Config::parse("indent_width = 0", "test");
    assert_eq!(config.indent_width, 2);
    assert_eq!(warnings.len(), 1);

    let (config, warnings) = Config::parse("line_ending = \"cr\"", "test");
    assert_eq!(config.line_ending, "lf");
    assert_eq!(warnings.len(), 1);

    let (config, warnings) = Config::parse("scroll_lines = 0", "test");
    assert_eq!(config.scroll_lines, 3);
    assert_eq!(warnings.len(), 1);

    let (config, warnings) = Config::parse("scroll_lines = 1", "test");
    assert_eq!(config.scroll_lines, 1);
    assert!(warnings.is_empty());
}

#[test]
fn unknown_key_is_reported_but_not_fatal() {
    let (config, warnings) = Config::parse("wrap = true\nindent_width = 2", "test");
    assert_eq!(config.indent_width, 2);
    assert!(warnings[0].contains("wrap"));
}

#[test]
fn a_written_config_reads_back_as_itself() {
    let config = Config {
        scroll_lines: 7,
        line_ending: "crlf".to_string(),
        use_tabs: true,
        remember_layout: false,
        ..Config::default()
    };

    let (round_tripped, warnings) = Config::parse(&render(&config), "test");
    assert!(warnings.is_empty(), "{warnings:?}");
    assert_eq!(round_tripped, config);
}

#[test]
fn a_saved_layout_round_trips_and_junk_is_ignored() {
    let layout = Layout {
        weights: [30, 40, 50],
        split: [7, 5],
    };
    assert_eq!(parse_layout(&render_layout(layout)), Some(layout));

    // A file written before the Commits pane existed still says what the
    // user arranged about the columns.
    assert_eq!(
        parse_layout("weights = [30, 40, 50]"),
        Some(Layout {
            weights: [30, 40, 50],
            split: DEFAULT_SPLIT,
        })
    );
    // A split that cannot be trusted is the default, not a refusal: the
    // widths beside it are still good.
    assert_eq!(
        parse_layout("weights = [30, 40, 50]\nsplit = [0, 3]"),
        Some(Layout {
            weights: [30, 40, 50],
            split: DEFAULT_SPLIT,
        })
    );

    // A file that cannot be trusted means the default layout, never a pane
    // the user cannot see or a panic.
    assert_eq!(parse_layout(""), None);
    assert_eq!(parse_layout("weights = [1, 2]"), None);
    assert_eq!(parse_layout("weights = [1, 0, 2]"), None);
    assert_eq!(parse_layout("weights = [-1, 2, 3]"), None);
    assert_eq!(parse_layout("weights = \"wide\""), None);
    assert_eq!(parse_layout("not toml at all ["), None);
}

#[test]
fn indent_is_detected_from_the_file() {
    let two = lines("fn a() {\n  let x = 1;\n    if x {\n      y();\n    }\n}");
    assert_eq!(
        detect_indent(&two),
        Some(Indent {
            width: 2,
            tabs: false
        })
    );

    let four = lines("fn a() {\n    let x = 1;\n        y();\n}");
    assert_eq!(
        detect_indent(&four),
        Some(Indent {
            width: 4,
            tabs: false
        })
    );
}

#[test]
fn tab_indentation_wins_by_majority() {
    let mixed = lines("a\n\tb\n\tc\n\td\n  e");
    assert_eq!(detect_indent(&mixed).map(|i| i.tabs), Some(true));

    let mostly_spaces = lines("a\n  b\n    c\n  d\n\te");
    assert_eq!(detect_indent(&mostly_spaces).map(|i| i.tabs), Some(false));
}

#[test]
fn a_file_without_indentation_detects_nothing() {
    assert_eq!(detect_indent(&lines("one\ntwo\nthree")), None);
    assert_eq!(detect_indent(&[]), None);
}

#[test]
fn detection_can_be_turned_off() {
    let (config, _) = Config::parse("detect_indent = false\nindent_width = 8", "test");
    let two_space = lines("a\n  b");
    assert_eq!(config.indent_for(&two_space).width, 8);

    let (config, _) =
        Config::parse("detect_line_ending = false\nline_ending = \"crlf\"", "test");
    assert_eq!(config.eol_for(Some(Eol::Lf)), Eol::Crlf);
}

#[test]
fn eol_is_detected_by_majority_and_falls_back() {
    assert_eq!(detect_eol("a\r\nb\r\n"), Some(Eol::Crlf));
    assert_eq!(detect_eol("a\nb\n"), Some(Eol::Lf));
    assert_eq!(detect_eol("a\r\nb\nc\n"), Some(Eol::Lf));
    assert_eq!(detect_eol("no newline"), None);

    let config = Config::default();
    assert_eq!(config.eol_for(None), Eol::Lf);
    assert_eq!(config.eol_for(Some(Eol::Crlf)), Eol::Crlf);
}

#[test]
fn indent_unit_reflects_the_style() {
    assert_eq!(
        Indent {
            width: 3,
            tabs: false
        }
        .unit(),
        "   "
    );
    assert_eq!(
        Indent {
            width: 4,
            tabs: true
        }
        .unit(),
        "\t"
    );
}

/// Where the config lives: the program's own variable first, then the desktop's, then
/// the home directory. An empty variable is one that is not set.
#[test]
fn the_config_lives_where_the_environment_says() {
    let set = |text: &str| Some(text.as_bytes().to_vec());
    assert_eq!(config_dir(set("/d"), set("/x"), set("/h")), set("/d"));
    assert_eq!(config_dir(set(""), set("/x"), set("/h")), set("/x/difv"));
    assert_eq!(config_dir(None, None, set("/h")), set("/h/.config/difv"));
    assert_eq!(config_dir(None, set(""), None), None);
    assert_eq!(config_path(b"/d".to_vec()), b"/d/config.toml");
    assert_eq!(layout_path(b"/d/".to_vec()), b"/d/layout.toml");
}

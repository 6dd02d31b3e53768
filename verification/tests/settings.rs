use difv::config::Config;
use difv::settings::{plural, step_number, Setting, ALL, MAX_MS, MAX_NUMBER};

#[test]
fn numbers_step_within_bounds_and_flags_flip() {
    let mut config = Config::default();
    Setting::ScrollLines.adjust(&mut config, -1);
    Setting::ScrollLines.adjust(&mut config, -1);
    Setting::ScrollLines.adjust(&mut config, -1);
    // Never past a value the config would reject on the way back in.
    assert_eq!(config.scroll_lines, 1);

    for _ in 0..40 {
        Setting::IndentWidth.adjust(&mut config, 1);
    }
    assert_eq!(config.indent_width, MAX_NUMBER);

    Setting::UseTabs.adjust(&mut config, -1);
    assert!(config.use_tabs);
    Setting::LineEnding.adjust(&mut config, 1);
    assert_eq!(config.line_ending, "crlf");
    Setting::LineEnding.adjust(&mut config, 1);
    assert_eq!(config.line_ending, "lf");
}

/// What the panel shows of each setting.
#[test]
fn values_read_as_words() {
    let mut config = Config::default();
    assert_eq!(Setting::IndentWidth.value(&config), "2 spaces");
    assert_eq!(Setting::LineEnding.value(&config), "LF");
    config.line_ending = "crlf".to_string();
    assert_eq!(Setting::LineEnding.value(&config), "CRLF");
    config.indent_width = 1;
    assert_eq!(Setting::IndentWidth.value(&config), "1 space");
    assert_eq!(plural(0, "line"), "0 lines");
    assert_eq!(step_number(16, 1), 16);
    assert_eq!(step_number(1, -1), 1);
}

/// The delay stops at zero, where the guard is off, and at its most.
#[test]
fn the_delay_steps_between_off_and_its_most() {
    let mut config = Config::default();
    for _ in 0..100 {
        Setting::MomentumDelayMs.adjust(&mut config, -1);
    }
    assert_eq!(config.momentum_delay_ms, 0);
    for _ in 0..100 {
        Setting::MomentumDelayMs.adjust(&mut config, 1);
    }
    assert_eq!(config.momentum_delay_ms, MAX_MS);
}

/// Every setting has a name, a key and an explanation of its own.
#[test]
fn settings_are_told_apart() {
    for (i, a) in ALL.iter().enumerate() {
        assert!(!a.help().is_empty());
        for b in &ALL[i + 1..] {
            assert_ne!(a.name(), b.name());
            assert_ne!(a.label(), b.label());
        }
    }
}

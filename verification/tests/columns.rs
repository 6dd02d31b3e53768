use difv::columns::{
    char_index_at, char_width, cut, display_col, display_width, gutter_width, segments,
    selected_columns,
};

/// A subject is text anyone could have written. What reaches the terminal
/// is its printable columns and nothing else — never an escape sequence.
#[test]
fn a_commit_subject_cannot_write_to_the_terminal() {
    // The escape byte is what makes a sequence; without it `[2J` is text.
    assert_eq!(cut("ok\x1b[2Jnot", 10), "ok[2Jnot");
    assert_eq!(cut("中文字", 4), "中文", "a wide glyph is never halved");
    assert_eq!(cut("a\u{200b}b", 5), "ab", "nor a zero-width one kept");
}

#[test]
fn expands_tabs_and_applies_horizontal_scroll() {
    let text = |raw, hscroll, width, tab| {
        segments(raw, hscroll, width, tab, None)
            .into_iter()
            .map(|(text, _)| text)
            .collect::<String>()
    };
    assert_eq!(text("\tfoo", 0, 10, 4), "    foo");
    assert_eq!(text("\tfoo", 4, 10, 4), "foo");
    assert_eq!(text("\tfoo", 0, 10, 2), "  foo");
    assert_eq!(text("abcdef", 1, 3, 4), "bcd");
    assert_eq!(text("ab", 9, 10, 4), "");
    // A tab scrolled halfway through shows only the columns still on screen.
    assert_eq!(text("\tfoo", 2, 10, 4), "  foo");
}

/// A CJK glyph is two cells wide, so every column it touches has to be
/// counted twice or the cursor, the selection and the scroll bound drift
/// apart from what is drawn.
#[test]
fn wide_characters_take_two_columns_everywhere() {
    assert_eq!(display_width("你好", 4), 4);
    assert_eq!(display_width("a你b", 4), 4);
    assert_eq!(display_col("你好", 1, 4), 2);
    // A click inside a wide glyph lands on it, and past it lands after it.
    assert_eq!(char_index_at("你好", 0, 4), 0);
    assert_eq!(char_index_at("你好", 2, 4), 1);
    assert_eq!(char_index_at("你好", 4, 4), 2);

    let text = |raw, hscroll, width| {
        segments(raw, hscroll, width, 4, None)
            .into_iter()
            .map(|(text, _)| text)
            .collect::<String>()
    };
    assert_eq!(text("你好世界", 0, 8), "你好世界");
    assert_eq!(text("你好世界", 2, 8), "好世界");
    // Half a glyph cannot be drawn, so the visible half is a space and the
    // row keeps its width instead of shifting everything right of it.
    assert_eq!(text("你好", 1, 8), " 好");
    assert_eq!(text("你好", 0, 3), "你 ");
}

#[test]
fn a_selection_marks_the_columns_it_covers() {
    let runs = segments("hello", 0, 10, 4, Some((1, 3)));
    assert_eq!(
        runs,
        vec![
            ("h".to_string(), false),
            ("el".to_string(), true),
            ("lo".to_string(), false),
        ]
    );

    // Through-line selections cover the newline, so the row reads as one
    // block rather than stopping at the last character.
    let runs = segments("ab", 0, 6, 4, Some((0, 3)));
    assert_eq!(runs, vec![("ab ".to_string(), true)]);
}

#[test]
fn gutter_grows_with_line_count() {
    assert_eq!(gutter_width(0), 1);
    assert_eq!(gutter_width(9), 1);
    assert_eq!(gutter_width(10), 2);
    assert_eq!(gutter_width(1234), 4);
}

#[test]
fn display_columns_round_trip_through_tabs() {
    assert_eq!(display_col("\tfoo", 2, 4), 5);
    assert_eq!(char_index_at("\tfoo", 5, 4), 2);
    assert_eq!(char_index_at("\tfoo", 0, 4), 0);
    // Clicking inside an expanded tab lands after it, not inside it.
    assert_eq!(char_index_at("\tfoo", 2, 4), 1);
}

#[test]
fn a_click_past_the_end_clamps_to_the_line_end() {
    assert_eq!(char_index_at("hello world!", 40, 4), 12);
    assert_eq!(char_index_at("", 40, 4), 0);
}

#[test]
fn selection_covers_whole_lines_in_the_middle() {
    let range = ((0, 1), (2, 2));
    assert_eq!(selected_columns(range, 0, "one", 4), Some((1, 4)));
    assert_eq!(selected_columns(range, 1, "two", 4), Some((0, 4)));
    assert_eq!(selected_columns(range, 2, "three", 4), Some((0, 2)));
    assert_eq!(selected_columns(range, 3, "four", 4), None);
}

/// A row takes exactly the columns that its line covers in view, and nothing that takes
/// no column is painted.
#[test]
fn a_row_takes_the_columns_its_line_covers() {
    let raw = "a\u{4e2d}\tb\u{301}c\u{1b}d";
    let total = display_width(raw, 4);
    for hscroll in 0..12 {
        for width in 0..12 {
            let runs = segments(raw, hscroll, width, 4, None);
            let mut taken = 0;
            for (text, marked) in &runs {
                assert!(!text.is_empty() && !marked);
                for ch in text.chars() {
                    assert!(ch != '\t' && char_width(ch, 4) > 0);
                    taken += char_width(ch, 4);
                }
            }
            assert_eq!(taken, total.min(hscroll + width) - total.min(hscroll));
        }
    }
    assert_eq!(char_width(' ', 4), 1);
    assert_eq!(char_width('\u{7f}', 4), 0);
}

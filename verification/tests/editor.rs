use difv::config::{Config, Eol};
use difv::editor::{reading_lines, split_lines, EditorBuffer, GROUP_PAUSE, MAX_SNAPSHOTS};
use difv::git::TextFile;
use difv::input::{Key, KeyPress};

/// One reading of the clock for every key: what is typed in a row is one run.
const NOW: u64 = 1_000_000_000;

fn buffer(body: &str) -> EditorBuffer {
    let file = TextFile {
        body: body.to_string(),
        eol: Some(Eol::Lf),
        trailing_newline: body.ends_with('\n'),
    };
    EditorBuffer::new(&file, &Config::default())
}

fn press_at(buffer: &mut EditorBuffer, code: Key, now: u64) -> bool {
    buffer.input(KeyPress { code, ctrl: false, alt: false, shift: false }, now)
}

fn press(buffer: &mut EditorBuffer, code: Key) {
    press_at(buffer, code, NOW);
}

fn type_str(buffer: &mut EditorBuffer, text: &str) {
    for ch in text.chars() {
        press(buffer, Key::Char(ch));
    }
}

#[test]
fn splitting_keeps_the_line_count_the_file_has() {
    assert_eq!(split_lines("a\nb\n"), vec!["a", "b"]);
    assert_eq!(split_lines("a\nb"), vec!["a", "b"]);
    assert_eq!(split_lines("a\r\nb\r\n"), vec!["a", "b"]);
    assert_eq!(split_lines(""), vec![""]);
}

#[test]
fn dirty_is_set_on_edit_and_cleared_by_undoing_back() {
    let mut buffer = buffer("hello\n");
    assert!(!buffer.dirty());
    type_str(&mut buffer, "x");
    assert!(buffer.dirty());
    buffer.undo();
    assert!(!buffer.dirty());
}

#[test]
fn a_typed_word_undoes_as_one_step() {
    let mut buffer = buffer("\n");
    type_str(&mut buffer, "hello");
    assert_eq!(buffer.lines(), ["hello"]);
    buffer.undo();
    assert_eq!(buffer.lines(), [""]);
}

#[test]
fn a_different_kind_of_edit_starts_a_new_step() {
    let mut buffer = buffer("abc\n");
    buffer.move_cursor_to(0, 3);
    type_str(&mut buffer, "de");
    press(&mut buffer, Key::Backspace);
    assert_eq!(buffer.lines(), ["abcd"]);
    buffer.undo();
    assert_eq!(buffer.lines(), ["abcde"]);
    buffer.undo();
    assert_eq!(buffer.lines(), ["abc"]);
}

#[test]
fn a_new_edit_clears_the_redo_stack() {
    let mut buffer = buffer("\n");
    type_str(&mut buffer, "hello");
    buffer.undo();
    type_str(&mut buffer, "x");
    assert!(!buffer.redo());
    assert_eq!(buffer.lines(), ["x"]);
}

#[test]
fn redo_restores_the_undone_edit() {
    let mut buffer = buffer("\n");
    type_str(&mut buffer, "hi");
    buffer.undo();
    assert_eq!(buffer.lines(), [""]);
    assert!(buffer.redo());
    assert_eq!(buffer.lines(), ["hi"]);
}

#[test]
fn replacing_a_selection_undoes_as_one_step() {
    let mut buffer = buffer("hello world\n");
    buffer.move_cursor_to(0, 0);
    buffer.start_selection();
    buffer.move_cursor_to_keeping_selection(0, 5);
    type_str(&mut buffer, "X");
    assert_eq!(buffer.lines(), ["X world"]);
    buffer.undo();
    assert_eq!(buffer.lines(), ["hello world"]);
}

#[test]
fn tab_inserts_the_detected_indent() {
    let mut buffer = buffer("fn a() {\n  b();\n}\n");
    buffer.move_cursor_to(2, 1);
    press(&mut buffer, Key::Tab);
    assert_eq!(buffer.lines()[2], "}  ");
}

#[test]
fn body_restores_the_files_line_ending_and_trailing_newline() {
    let file = TextFile {
        body: "a\r\nb\r\n".to_string(),
        eol: Some(Eol::Crlf),
        trailing_newline: true,
    };
    let buffer = EditorBuffer::new(&file, &Config::default());
    assert_eq!(buffer.body(), "a\r\nb\r\n");

    let file = TextFile {
        body: "a\nb".to_string(),
        eol: Some(Eol::Lf),
        trailing_newline: false,
    };
    let buffer = EditorBuffer::new(&file, &Config::default());
    assert_eq!(buffer.body(), "a\nb");
}

#[test]
fn cut_removes_the_selection_as_one_step() {
    let mut buffer = buffer("hello world\n");
    buffer.move_cursor_to(0, 0);
    buffer.start_selection();
    buffer.move_cursor_to_keeping_selection(0, 6);
    // What copy would place on the clipboard, and what cut removes.
    assert_eq!(buffer.selected_text().unwrap(), "hello ");
    assert!(buffer.cut(NOW));
    assert_eq!(buffer.lines(), ["world"]);
    buffer.undo();
    assert_eq!(buffer.lines(), ["hello world"]);
}

#[test]
fn selected_text_spans_lines() {
    let mut buffer = buffer("one\ntwo\nthree\n");
    buffer.move_cursor_to(0, 1);
    buffer.start_selection();
    buffer.move_cursor_to_keeping_selection(2, 2);
    assert_eq!(buffer.selected_text().unwrap(), "ne\ntwo\nth");
}

#[test]
fn undo_stack_stays_bounded() {
    let mut buffer = buffer("\n");
    for i in 0..(MAX_SNAPSHOTS + 20) {
        buffer.move_cursor_to(0, 0);
        type_str(&mut buffer, if i % 2 == 0 { "a" } else { "b" });
    }
    assert!(buffer.snapshots.len() <= MAX_SNAPSHOTS);
}

/// A pause ends a run: what comes after it is a step of its own.
#[test]
fn a_pause_starts_a_new_step() {
    let mut buffer = buffer("\n");
    press_at(&mut buffer, Key::Char('a'), NOW);
    press_at(&mut buffer, Key::Char('b'), NOW + GROUP_PAUSE - 1);
    press_at(&mut buffer, Key::Char('c'), NOW + 3 * GROUP_PAUSE);
    assert_eq!(buffer.lines(), ["abc"]);
    assert!(buffer.undo());
    assert_eq!(buffer.lines(), ["ab"]);
    assert!(buffer.undo());
    assert_eq!(buffer.lines(), [""]);
    assert!(!buffer.undo());
}

/// Redo takes back what undo took back, and the other way round.
#[test]
fn undo_and_redo_take_each_other_back() {
    let mut buffer = buffer("one\ntwo\n");
    buffer.move_cursor_to(1, 3);
    press(&mut buffer, Key::Enter);
    assert_eq!(buffer.lines(), ["one", "two", ""]);
    assert!(buffer.undo());
    assert_eq!(buffer.lines(), ["one", "two"]);
    assert!(buffer.redo());
    assert_eq!(buffer.lines(), ["one", "two", ""]);
    assert!(buffer.undo());
    assert_eq!(buffer.lines(), ["one", "two"]);
    assert_eq!(buffer.cursor(), (0, 0));
}

/// A paste of several lines puts the cursor behind the last of them, and a carriage
/// return before a line feed is part of the line ending.
#[test]
fn a_paste_goes_in_at_the_cursor() {
    let mut buffer = buffer("ab\n");
    buffer.move_cursor_to(0, 1);
    assert!(buffer.insert_str("x\r\nyz", NOW));
    assert_eq!(buffer.lines(), ["ax", "yzb"]);
    assert_eq!(buffer.cursor(), (1, 2));
    assert!(!buffer.insert_str("", NOW));
    assert!(buffer.undo());
    assert_eq!(buffer.lines(), ["ab"]);
}

/// Saving makes the text the one edits are measured against.
#[test]
fn a_saved_buffer_is_clean() {
    let mut buffer = buffer("a\n");
    type_str(&mut buffer, "x");
    assert!(buffer.dirty());
    assert_eq!(buffer.loaded_body(), "a\n");
    buffer.mark_saved();
    assert!(!buffer.dirty());
    assert_eq!(buffer.loaded_body(), "xa\n");
    assert_eq!(buffer.eol(), Eol::Lf);
    assert_eq!(buffer.tab_width(), 2);
    assert!(buffer.trailing_newline());
}

/// A jump past the end lands at the end, and a selection is sorted whichever way it
/// was made.
#[test]
fn jumps_are_clamped_and_selections_sorted() {
    let mut buffer = buffer("one\ntwo\n");
    buffer.move_cursor_to(9, 9);
    assert_eq!(buffer.cursor(), (1, 3));
    assert_eq!(buffer.selection(), None);
    buffer.start_selection();
    buffer.move_cursor_to_keeping_selection(0, 1);
    assert_eq!(buffer.selection(), Some(((0, 1), (1, 3))));
    buffer.cancel_selection();
    assert_eq!(buffer.selected_text(), None);
}

/// Tabs go in as tabs where the file is indented with them.
#[test]
fn a_tab_indented_file_gets_a_tab() {
    let mut buffer = buffer("a {\n\tb\n}\n");
    buffer.move_cursor_to(2, 1);
    press(&mut buffer, Key::Tab);
    assert_eq!(buffer.lines()[2], "}\t");
}

/// Lines to read: no line after the last line ending, and a carriage return only
/// goes before a line feed.
#[test]
fn reading_lines_end_where_the_text_ends() {
    assert_eq!(reading_lines("a\nb\n"), vec!["a", "b"]);
    assert_eq!(reading_lines("a\r\nb"), vec!["a", "b"]);
    assert_eq!(reading_lines("a\n\nb\r"), vec!["a", "", "b\r"]);
    assert!(reading_lines("").is_empty());
}

/// Writing a file back that nobody touched writes the bytes it had.
#[test]
fn an_untouched_file_comes_back_as_it_was() {
    for body in [
        "", "\n", "a", "a\n", "a\n\nb", "\n\n", "a\r\nb\nc\n", "a\nb\r\n", "a\r", "a\r\r\n",
        "a\r\r\nb\r\n", "\r\n\n",
    ] {
        assert_eq!(buffer(body).body(), body, "{body:?}");
    }
}

fn chord(buffer: &mut EditorBuffer, code: Key, ctrl: bool, alt: bool, shift: bool) -> bool {
    buffer.input(KeyPress { code, ctrl, alt, shift }, NOW)
}

#[test]
fn backspace_deletes_before_the_cursor_and_joins_lines() {
    let mut buffer = buffer("ab\ncd\n");
    buffer.move_cursor_to(1, 1);
    assert!(press_at(&mut buffer, Key::Backspace, NOW));
    assert_eq!(buffer.lines(), ["ab", "d"]);
    assert_eq!(buffer.cursor(), (1, 0));
    assert!(chord(&mut buffer, Key::Char('h'), true, false, false));
    assert_eq!(buffer.lines(), ["abd"]);
    assert_eq!(buffer.cursor(), (0, 2));
    buffer.move_cursor_to(0, 0);
    assert!(!press_at(&mut buffer, Key::Backspace, NOW));
    assert_eq!(buffer.lines(), ["abd"]);
}

#[test]
fn delete_deletes_behind_the_cursor_and_joins_lines() {
    let mut buffer = buffer("ab\ncd\n");
    buffer.move_cursor_to(0, 1);
    assert!(press_at(&mut buffer, Key::Delete, NOW));
    assert_eq!(buffer.lines(), ["a", "cd"]);
    assert!(press_at(&mut buffer, Key::Delete, NOW));
    assert_eq!(buffer.lines(), ["acd"]);
    assert_eq!(buffer.cursor(), (0, 1));
    buffer.move_cursor_to(0, 3);
    assert!(!press_at(&mut buffer, Key::Delete, NOW));
    assert_eq!(buffer.lines(), ["acd"]);
}

#[test]
fn a_key_deletes_the_selection_first() {
    let mut buffer = buffer("abcd\n");
    buffer.move_cursor_to(0, 1);
    buffer.start_selection();
    buffer.move_cursor_to_keeping_selection(0, 3);
    assert!(press_at(&mut buffer, Key::Delete, NOW));
    assert_eq!(buffer.lines(), ["ad"]);
    assert_eq!(buffer.cursor(), (0, 1));
    assert_eq!(buffer.selection(), None);
}

#[test]
fn the_rest_of_a_line_is_deleted_and_then_its_end() {
    let mut buffer = buffer("abc\nd\n");
    buffer.move_cursor_to(0, 1);
    assert!(chord(&mut buffer, Key::Char('k'), true, false, false));
    assert_eq!(buffer.lines(), ["a", "d"]);
    assert!(chord(&mut buffer, Key::Char('k'), true, false, false));
    assert_eq!(buffer.lines(), ["ad"]);
    assert!(chord(&mut buffer, Key::Char('j'), true, false, false));
    assert_eq!(buffer.lines(), ["d"]);
    assert!(!chord(&mut buffer, Key::Char('j'), true, false, false));
    assert_eq!(buffer.cursor(), (0, 0));
}

#[test]
fn words_are_deleted_whole() {
    let mut buffer = buffer("one two three\n");
    buffer.move_cursor_to(0, 7);
    assert!(chord(&mut buffer, Key::Backspace, false, true, false));
    assert_eq!(buffer.lines(), ["one  three"]);
    assert_eq!(buffer.cursor(), (0, 4));
    assert!(chord(&mut buffer, Key::Delete, false, true, false));
    assert_eq!(buffer.lines(), ["one "]);
    assert!(!chord(&mut buffer, Key::Delete, true, false, false));
    assert_eq!(buffer.lines(), ["one "]);
}

#[test]
fn the_arrows_move_the_cursor_across_lines() {
    let mut buffer = buffer("abc\nd\n\n");
    buffer.move_cursor_to(0, 2);
    press(&mut buffer, Key::Down);
    assert_eq!(buffer.cursor(), (1, 1));
    press(&mut buffer, Key::Right);
    assert_eq!(buffer.cursor(), (2, 0));
    press(&mut buffer, Key::Right);
    press(&mut buffer, Key::Down);
    assert_eq!(buffer.cursor(), (2, 0));
    press(&mut buffer, Key::Left);
    assert_eq!(buffer.cursor(), (1, 1));
    press(&mut buffer, Key::Up);
    assert_eq!(buffer.cursor(), (0, 1));
    press(&mut buffer, Key::Up);
    assert_eq!(buffer.cursor(), (0, 1));
    press(&mut buffer, Key::End);
    assert_eq!(buffer.cursor(), (0, 3));
    press(&mut buffer, Key::Home);
    assert_eq!(buffer.cursor(), (0, 0));
    chord(&mut buffer, Key::Down, true, true, false);
    assert_eq!(buffer.cursor(), (2, 0));
    press(&mut buffer, Key::PageDown);
    assert_eq!(buffer.cursor(), (0, 0));
    assert!(!buffer.dirty());
}

#[test]
fn shift_carries_a_selection_along() {
    let mut buffer = buffer("abc\n");
    chord(&mut buffer, Key::Right, false, false, true);
    chord(&mut buffer, Key::Right, false, false, true);
    assert_eq!(buffer.selection(), Some(((0, 0), (0, 2))));
    assert_eq!(buffer.selected_text().as_deref(), Some("ab"));
    press(&mut buffer, Key::Right);
    assert_eq!(buffer.selection(), None);
    chord(&mut buffer, Key::Home, false, false, true);
    assert_eq!(buffer.selection(), Some(((0, 0), (0, 3))));
    // A move that goes nowhere drops nothing.
    press(&mut buffer, Key::Up);
    assert_eq!(buffer.selection(), Some(((0, 0), (0, 3))));
}

#[test]
fn a_character_without_columns_is_stepped_over() {
    let mut buffer = buffer("e\u{301}\nx\n");
    buffer.move_cursor_to(0, 1);
    press(&mut buffer, Key::Right);
    assert_eq!(buffer.cursor(), (1, 0));
}

#[test]
fn the_area_has_no_undo_of_its_own() {
    let mut buffer = buffer("a\n");
    type_str(&mut buffer, "bc");
    assert!(!chord(&mut buffer, Key::Char('u'), true, false, false));
    assert!(!chord(&mut buffer, Key::Char('r'), true, false, false));
    assert_eq!(buffer.lines(), ["bca"]);
    assert_eq!(buffer.cursor(), (0, 2));
}

#[test]
fn backspace_takes_back_a_typed_character() {
    let mut buffer = buffer("ab\ncd\n");
    buffer.move_cursor_to(1, 1);
    type_str(&mut buffer, "x");
    assert_eq!(buffer.lines(), ["ab", "cxd"]);
    press(&mut buffer, Key::Backspace);
    assert_eq!(buffer.lines(), ["ab", "cd"]);
    assert_eq!(buffer.cursor(), (1, 1));
    assert!(!buffer.dirty());
}

/// Lines that were not touched keep their own endings, whatever happens between them,
/// and undoing brings every one back.
#[test]
fn untouched_lines_keep_their_own_endings() {
    let body = "a\r\nb\nc\r\nd\n";
    let mut buffer = buffer(body);
    assert_eq!(buffer.eol(), Eol::Lf);
    buffer.move_cursor_to(1, 1);
    press(&mut buffer, Key::Enter);
    type_str(&mut buffer, "x");
    assert_eq!(buffer.body(), "a\r\nb\nx\nc\r\nd\n");
    buffer.move_cursor_to(3, 0);
    press(&mut buffer, Key::Backspace);
    assert_eq!(buffer.body(), "a\r\nb\nxc\nd\n");
    while buffer.undo() {}
    assert_eq!(buffer.body(), body);
    while buffer.redo() {}
    assert_eq!(buffer.body(), "a\r\nb\nxc\nd\n");
}

/// A line that is put in, or ended where another ends, takes nothing from the line
/// next to it.
#[test]
fn a_line_that_stays_whole_keeps_its_own_ending() {
    let mut buffer = buffer("x\r\nx\n");
    buffer.insert_str("y\n", NOW);
    assert_eq!(buffer.body(), "y\nx\r\nx\n");
    buffer.move_cursor_to(1, 1);
    press(&mut buffer, Key::Enter);
    assert_eq!(buffer.body(), "y\nx\r\n\nx\n");
    buffer.move_cursor_to(1, 1);
    type_str(&mut buffer, "z");
    assert_eq!(buffer.body(), "y\nxz\n\nx\n");
}

/// Taking a selection out by pasting nothing keeps the lines around it.
#[test]
fn pasting_nothing_over_a_selection_keeps_the_other_endings() {
    let mut buffer = buffer("a\r\nb\nc\nd\r\n");
    buffer.move_cursor_to(1, 0);
    buffer.start_selection();
    buffer.move_cursor_to_keeping_selection(2, 0);
    assert!(!buffer.insert_str("", NOW));
    assert_eq!(buffer.lines(), ["a", "c", "d"]);
    assert_eq!(buffer.body(), "a\r\nc\nd\r\n");
}

/// Where files do not keep their own line endings, the chosen one is written.
#[test]
fn the_chosen_line_ending_is_written_everywhere() {
    let file = TextFile {
        body: "a\r\nb\nc\n".to_string(),
        eol: Some(Eol::Lf),
        trailing_newline: true,
    };
    let (config, _) =
        Config::parse("detect_line_ending = false\nline_ending = \"crlf\"", "test");
    assert_eq!(EditorBuffer::new(&file, &config).body(), "a\r\nb\r\nc\r\n");
}

/// What the area has cut for itself it puts back, and a file's line feeds are never
/// inside a line of it.
#[test]
fn the_areas_own_clipboard_puts_back_what_it_cut() {
    let mut buffer = buffer("abc\nd\n");
    assert!(buffer.lines().iter().all(|line| !line.contains('\n')));
    buffer.move_cursor_to(0, 1);
    assert!(chord(&mut buffer, Key::Char('k'), true, false, false));
    assert_eq!(buffer.lines(), ["a", "d"]);
    assert!(chord(&mut buffer, Key::Char('y'), true, false, false));
    assert_eq!(buffer.lines(), ["abc", "d"]);
}

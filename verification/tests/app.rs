use difv::app::{redraw_after, App, Happened, Task, Turn, AUTOSCROLL_TICK, MILLI, NOTICE_TTL, REFINE_PAUSE};
use difv::config::{render, Config};
use difv::diff::{DiffModel, DiffRow, RowKind};
use difv::editor::EditorBuffer;
use difv::git::{ChangedFile, FileContent, Status};
use difv::input::{Button, Key, KeyPress, Mouse, MouseKind, Position, Rect};
use difv::screen::{Pane, Prompt, HSCROLL_STEP, MIN_PANE};
use std::cell::{Cell, RefCell};

fn rect(x: u16, y: u16, width: u16, height: u16) -> Rect {
    Rect { x, y, width, height }
}

fn position(x: u16, y: u16) -> Position {
    Position { x, y }
}

fn mouse(kind: MouseKind, x: u16, y: u16) -> Mouse {
    Mouse { kind, at: position(x, y), ctrl: false, alt: false, shift: false }
}

fn key(code: Key) -> KeyPress {
    KeyPress { code, ctrl: false, alt: false, shift: false }
}

fn ctrl(c: char) -> KeyPress {
    KeyPress { code: Key::Char(c), ctrl: true, alt: false, shift: false }
}

fn alt(code: Key) -> KeyPress {
    KeyPress { code, ctrl: false, alt: true, shift: false }
}

fn open_buffer(app: &mut App) -> &mut EditorBuffer {
    &mut app.buffers[0].buffer
}

fn listed(path: &str) -> ChangedFile {
    ChangedFile {
        path: path.to_string(),
        old_path: None,
        status: Status::Modified,
        old_blob: None,
        new_blob: None,
    }
}

/// A file that was committed, as it is on the disk now, and all that is outside:
/// the disk, the clipboard, the config file and the clock.
struct Fixture {
    committed: String,
    disk: RefCell<Vec<u8>>,
    writes: Cell<u64>,
    config: RefCell<Option<String>>,
    config_writes: Cell<usize>,
    clipboard: RefCell<Option<String>>,
    names: RefCell<Vec<&'static str>>,
    clock: Cell<u64>,
}

impl Fixture {
    fn new(committed: &str, working: &str) -> Self {
        Fixture {
            committed: committed.to_string(),
            disk: RefCell::new(working.as_bytes().to_vec()),
            writes: Cell::new(0),
            config: RefCell::new(None),
            config_writes: Cell::new(0),
            clipboard: RefCell::new(None),
            names: RefCell::new(vec!["file.txt"]),
            clock: Cell::new(100_000_000_000),
        }
    }

    fn app_with(&self, config: Config) -> App {
        let files = self.names.borrow().iter().map(|name| listed(name)).collect();
        let mut app = App::with(files, config, false);
        self.load(&mut app);
        app
    }

    fn app(&self) -> App {
        let mut app = self.app_with(Config::default());
        app.screen.viewport_height = 20;
        app.screen.focus = Pane::New;
        app
    }

    fn load(&self, app: &mut App) {
        let content = FileContent::decode(self.disk.borrow().clone());
        app.load_diff(&self.committed, &content, true, self.stamp());
    }

    fn stamp(&self) -> Option<(u64, u64)> {
        Some((self.writes.get(), self.disk.borrow().len() as u64))
    }

    fn now(&self) -> u64 {
        self.clock.get()
    }

    fn read(&self) -> String {
        String::from_utf8(self.disk.borrow().clone()).unwrap()
    }

    fn write_bytes(&self, bytes: &[u8]) {
        *self.disk.borrow_mut() = bytes.to_vec();
        self.writes.set(self.writes.get() + 1);
    }

    fn write(&self, text: &str) {
        self.write_bytes(text.as_bytes());
    }

    fn config(&self) -> Option<String> {
        self.config.borrow().clone()
    }

    fn config_writes(&self) -> usize {
        self.config_writes.get()
    }

    fn perform(&self, app: &mut App, task: Task) {
        match task {
            Task::Nothing => {}
            Task::Load => self.load(app),
            Task::Refresh => {
                let files = self.names.borrow().iter().map(|name| listed(name)).collect();
                let next = app.refreshed(Ok(files));
                self.perform(app, next);
            }
            Task::Copy(text) => *self.clipboard.borrow_mut() = Some(text),
            Task::Paste => {
                let text = self.clipboard.borrow().clone();
                if let Some(text) = text {
                    self.paste(app, &text);
                }
            }
            Task::Save => {
                let content = FileContent::decode(self.disk.borrow().clone());
                if let Some(write) = app.save(&content) {
                    assert_eq!(write.path, "file.txt");
                    self.write(&write.body);
                    app.saved(None, self.stamp());
                }
            }
            Task::SaveConfig => {
                *self.config.borrow_mut() = Some(render(&app.config));
                self.config_writes.set(self.config_writes.get() + 1);
            }
        }
    }

    fn key(&self, app: &mut App, key: KeyPress) {
        let task = app.on_key(key, self.now());
        self.perform(app, task);
    }

    fn mouse(&self, app: &mut App, mouse: Mouse) {
        let task = app.on_mouse(mouse, self.now());
        self.perform(app, task);
    }

    fn paste(&self, app: &mut App, text: &str) {
        app.paste(text, self.now());
    }

    fn poll(&self, app: &mut App) {
        let task = app.poll_disk(self.stamp());
        self.perform(app, task);
    }

    fn type_str(&self, app: &mut App, text: &str) {
        for ch in text.chars() {
            self.key(app, key(Key::Char(ch)));
        }
    }
}

#[test]
fn view_shortcuts_are_text_while_the_current_pane_has_focus() {
    let fixture = Fixture::new("a\n", "b\n");
    let mut app = fixture.app();
    open_buffer(&mut app).move_cursor_to(0, 1);

    fixture.key(&mut app, key(Key::Char('q')));
    fixture.key(&mut app, key(Key::Char('r')));
    assert!(!app.screen.quit);
    assert_eq!(app.new_lines(), ["bqr"]);

    fixture.key(&mut app, key(Key::Esc));
    assert_eq!(app.screen.focus, Pane::Files);
    fixture.key(&mut app, key(Key::Char('q')));
    // The buffer is dirty, so quitting asks first rather than discarding.
    assert!(!app.screen.quit);
    assert_eq!(app.screen.prompt, Some(Prompt::Quit));
    fixture.key(&mut app, key(Key::Char('y')));
    assert!(app.screen.quit);
}

#[test]
fn tab_only_indents_and_shift_tab_only_cycles() {
    let fixture = Fixture::new("a\n", "b\n");
    let mut app = fixture.app();
    open_buffer(&mut app).move_cursor_to(0, 1);
    fixture.key(&mut app, key(Key::Tab));
    // Nothing in the file to detect from, so one indent is the config's.
    assert_eq!(app.new_lines(), ["b  "]);
    assert_eq!(app.screen.focus, Pane::New);

    // `Tab` never moves focus, so it cannot change meaning under the user.
    app.screen.focus = Pane::Files;
    fixture.key(&mut app, key(Key::Tab));
    assert_eq!(app.screen.focus, Pane::Files);

    // `Shift+Tab` reaches every pane from every pane.
    for expected in [Pane::Old, Pane::New, Pane::Files] {
        fixture.key(&mut app, key(Key::BackTab));
        assert_eq!(app.screen.focus, expected);
    }
}

#[test]
fn the_wheel_focuses_the_pane_under_the_pointer() {
    let fixture = Fixture::new("a\n", "one\ntwo\nthree\nfour\nfive\n");
    let mut app = fixture.app();
    app.screen.viewport_height = 2;
    app.screen.panes = [
        rect(0, 0, 10, 10),
        rect(10, 0, 20, 10),
        rect(30, 0, 20, 10),
    ];

    let wheel = |pane: Pane, kind: MouseKind| mouse(kind, app_column(pane), 3);
    fn app_column(pane: Pane) -> u16 {
        match pane {
            Pane::Files => 2,
            Pane::Old => 12,
            Pane::New => 32,
        }
    }

    app.screen.focus = Pane::Files;
    fixture.mouse(&mut app, wheel(Pane::New, MouseKind::ScrollDown));
    assert_eq!(app.screen.focus, Pane::New);
    assert_eq!(app.screen.scroll, 3);

    fixture.mouse(&mut app, wheel(Pane::Old, MouseKind::ScrollUp));
    assert_eq!(app.screen.focus, Pane::Old);
    assert_eq!(app.screen.scroll, 0);

    // Over the file list the wheel moves the selection, and focus follows
    // so the arrow keys keep doing the same thing.
    fixture.mouse(&mut app, wheel(Pane::Files, MouseKind::ScrollDown));
    assert_eq!(app.screen.focus, Pane::Files);
}

#[test]
fn the_wheel_step_comes_from_the_config() {
    let fixture = Fixture::new("a\n", "one\ntwo\nthree\nfour\nfive\nsix\n");
    let config = Config {
        scroll_lines: 1,
        ..Config::default()
    };
    let mut app = fixture.app_with(config);
    app.screen.viewport_height = 2;
    app.screen.panes[2] = rect(30, 0, 20, 10);

    let notch = mouse(MouseKind::ScrollDown, 32, 3);
    fixture.mouse(&mut app, notch);
    assert_eq!(app.screen.scroll, 1);
    fixture.mouse(&mut app, notch);
    assert_eq!(app.screen.scroll, 2);
}

#[test]
fn hunk_navigation_moves_the_cursor_while_editing() {
    let fixture = Fixture::new("a\nb\nc\nd\ne\n", "a\nX\nc\nd\nY\n");
    let mut app = fixture.app();
    app.screen.viewport_height = 2;
    app.screen.scroll = 0;

    fixture.key(&mut app, alt(Key::Down));
    let row = app.diff.changed_row_after(0).unwrap();
    assert_eq!(
        app.buffer().unwrap().cursor().0,
        app.diff.new_line_at_or_after(row).unwrap()
    );
}

#[test]
fn editing_updates_the_diff_without_saving() {
    let fixture = Fixture::new("timeout = 3000\n", "timeout = 5000\n");
    let mut app = fixture.app();
    let buffer = open_buffer(&mut app);
    buffer.move_cursor_to(0, 11);
    fixture.key(&mut app, key(Key::Backspace));
    fixture.type_str(&mut app, "4");

    assert_eq!(app.new_lines(), ["timeout = 4000"]);
    assert_eq!(app.diff.old, ["timeout = 3000"]);
    assert_eq!(fixture.read(), "timeout = 5000\n");
}

#[test]
fn editing_a_line_back_to_head_clears_the_change() {
    let fixture = Fixture::new("a\n", "b\n");
    let mut app = fixture.app();
    open_buffer(&mut app).move_cursor_to(0, 1);
    fixture.key(&mut app, key(Key::Backspace));
    fixture.type_str(&mut app, "a");
    assert!(
        app.diff
            .rows
            .iter()
            .all(|r| r.kind == RowKind::Equal)
    );
}

#[test]
fn inserting_a_line_adds_a_phantom_row_and_keeps_later_rows_paired() {
    let fixture = Fixture::new("a\nb\n", "a\nb\nc\n");
    let mut app = fixture.app();
    open_buffer(&mut app).move_cursor_to(0, 1);
    fixture.key(&mut app, key(Key::Enter));
    fixture.type_str(&mut app, "X");

    assert_eq!(app.new_lines(), ["a", "X", "b", "c"]);
    let shape: Vec<_> = app
        .diff
        .rows
        .iter()
        .map(|r| (r.old_line, r.new_line))
        .collect();
    assert_eq!(
        shape,
        [
            (Some(0), Some(0)),
            (None, Some(1)),
            (Some(1), Some(2)),
            (None, Some(3)),
        ]
    );
}

#[test]
fn the_cursor_keeps_its_line_across_a_rebuild() {
    let fixture = Fixture::new("a\nb\nc\n", "a\nb\nc\nd\n");
    let mut app = fixture.app();
    let before = app.diff.row_of_new_line(3).unwrap();

    // Insert above, which shifts every row below it.
    open_buffer(&mut app).move_cursor_to(0, 1);
    fixture.key(&mut app, key(Key::Enter));
    assert_eq!(app.new_lines().len(), 5);
    assert_eq!(app.buffer().unwrap().cursor(), (1, 0));
    // The line that was buffer line 3 is now line 4, one row further down,
    // and the mapping reflects the rebuild rather than the old model.
    assert_eq!(app.diff.row_of_new_line(4), Some(before + 1));
}

#[test]
fn saving_writes_the_file_and_leaves_the_index_alone() {
    let fixture = Fixture::new("a\n", "b\n");
    let mut app = fixture.app();
    open_buffer(&mut app).move_cursor_to(0, 1);
    fixture.type_str(&mut app, "!");
    assert!(app.is_dirty("file.txt"));

    fixture.key(&mut app, ctrl('s'));
    assert_eq!(fixture.read(), "b!\n");
    assert!(!app.is_dirty("file.txt"));
    assert_eq!(app.notice.as_deref(), Some("Saved file.txt"));
}

#[test]
fn saving_preserves_line_endings_and_trailing_newline() {
    let fixture = Fixture::new("a\r\nb\r\n", "a\r\nb\r\nc\r\n");
    let mut app = fixture.app();
    open_buffer(&mut app).move_cursor_to(1, 1);
    fixture.type_str(&mut app, "!");
    fixture.key(&mut app, ctrl('s'));
    // Only line 2 was touched; the rest come back byte for byte.
    assert_eq!(fixture.read(), "a\r\nb!\r\nc\r\n");

    let fixture = Fixture::new("a\nb", "a\nb\nc");
    let mut app = fixture.app();
    open_buffer(&mut app).move_cursor_to(1, 1);
    fixture.type_str(&mut app, "!");
    fixture.key(&mut app, ctrl('s'));
    assert_eq!(fixture.read(), "a\nb!\nc");
}

#[test]
fn a_save_is_refused_after_the_file_changes_on_disk() {
    let fixture = Fixture::new("a\n", "b\n");
    let mut app = fixture.app();
    open_buffer(&mut app).move_cursor_to(0, 1);
    fixture.type_str(&mut app, "!");

    fixture.write("another process wrote this\n");
    fixture.key(&mut app, ctrl('s'));

    assert_eq!(fixture.read(), "another process wrote this\n");
    assert_eq!(app.new_lines(), ["b!"]);
    assert!(app.notice.as_ref().unwrap().contains("changed on disk"));
}

#[test]
fn an_external_write_is_picked_up_when_the_buffer_is_clean() {
    let fixture = Fixture::new("a\n", "b\n");
    let mut app = fixture.app();
    assert_eq!(app.new_lines(), ["b"]);

    // Stamps have second granularity on some filesystems; the size differs
    // here, which is the other half of the check.
    fixture.write("another process wrote this\n");
    fixture.poll(&mut app);
    assert_eq!(app.new_lines(), ["another process wrote this"]);
    assert!(!app.screen.stale);
}

#[test]
fn an_external_write_only_flags_a_dirty_buffer() {
    let fixture = Fixture::new("a\n", "b\n");
    let mut app = fixture.app();
    open_buffer(&mut app).move_cursor_to(0, 1);
    fixture.type_str(&mut app, "!");

    fixture.write("another process wrote this\n");
    fixture.poll(&mut app);
    assert_eq!(app.new_lines(), ["b!"]);
    assert!(app.screen.stale);
}

#[test]
fn reloading_confirms_before_discarding_edits() {
    let fixture = Fixture::new("a\n", "b\n");
    let mut app = fixture.app();
    open_buffer(&mut app).move_cursor_to(0, 1);
    fixture.type_str(&mut app, "!");
    fixture.key(&mut app, key(Key::Esc));

    fixture.key(&mut app, key(Key::Char('r')));
    assert_eq!(app.screen.prompt, Some(Prompt::Reload));
    fixture.key(&mut app, key(Key::Char('n')));
    assert_eq!(app.new_lines(), ["b!"]);

    fixture.key(&mut app, key(Key::Char('r')));
    fixture.key(&mut app, key(Key::Char('y')));
    assert_eq!(app.new_lines(), ["b"]);
}

#[test]
fn horizontal_scrolling_stops_at_the_longest_line() {
    let fixture = Fixture::new("short\n", "0123456789012345678901234\n");
    let mut app = fixture.app();
    app.screen.focus = Pane::Files;
    // Two borders plus a one-digit gutter and its space leaves 16 columns of
    // text, so a 25-column line can scroll 9 before its end is on screen.
    app.screen.panes[1] = rect(0, 0, 20, 10);
    app.screen.panes[2] = rect(20, 0, 20, 10);

    for _ in 0..20 {
        fixture.key(&mut app, key(Key::Right));
    }
    assert_eq!(app.screen.hscroll, 9);

    fixture.key(&mut app, key(Key::Left));
    assert_eq!(app.screen.hscroll, 5);

    // A sideways trackpad swipe is the same movement, from the mouse.
    let swipe = |app: &mut App, kind: MouseKind| {
        fixture.mouse(app, mouse(kind, 25, 3))
    };
    swipe(&mut app, MouseKind::ScrollLeft);
    assert_eq!(app.screen.hscroll, 1);
    swipe(&mut app, MouseKind::ScrollLeft);
    assert_eq!(app.screen.hscroll, 0);
    for _ in 0..5 {
        swipe(&mut app, MouseKind::ScrollRight);
    }
    assert_eq!(app.screen.hscroll, 9);
    // The gesture followed the pointer into the Current pane.
    assert_eq!(app.screen.focus, Pane::New);

    // Shift turns a vertical wheel sideways, for terminals with no
    // horizontal wheel to report.
    let scroll = app.screen.scroll;
    fixture.mouse(&mut app, Mouse { shift: true, ..mouse(MouseKind::ScrollUp, 25, 3) });
    assert_eq!(app.screen.hscroll, 5);
    assert_eq!(app.screen.scroll, scroll);

    // Nothing wider than the pane means no horizontal scrolling at all.
    let fixture = Fixture::new("a\n", "b\n");
    let mut app = fixture.app();
    app.screen.focus = Pane::Files;
    app.screen.panes[1] = rect(0, 0, 20, 10);
    app.screen.panes[2] = rect(20, 0, 20, 10);
    fixture.key(&mut app, key(Key::Right));
    assert_eq!(app.screen.hscroll, 0);
}

#[test]
fn typing_extends_how_far_horizontal_scrolling_reaches() {
    // `longest` must grow with a line the user types past every other
    // line's length, not just with a full rescan the next time a file is
    // opened — that rescan is exactly what `rebuild` must not do on every
    // keystroke.
    let fixture = Fixture::new("x\n", "short\n");
    let mut app = fixture.app();
    app.screen.panes[1] = rect(0, 0, 20, 10);
    app.screen.panes[2] = rect(20, 0, 20, 10);

    open_buffer(&mut app).move_cursor_to(0, 5);
    fixture.type_str(&mut app, "0123456789012345678901234");
    assert_eq!(app.new_lines(), ["short0123456789012345678901234"]);

    // Scrolling is a view-key command, not an edit-key one; see the
    // sibling test above for the 16-columns-of-text arithmetic. The line
    // is now 30 columns wide, so its end sits at column 30 - 16 = 14.
    app.screen.focus = Pane::Files;
    for _ in 0..20 {
        fixture.key(&mut app, key(Key::Right));
    }
    assert_eq!(app.screen.hscroll, 14);
}

#[test]
fn clamp_scroll_bounds_both_scrolls_to_the_current_viewport() {
    let fixture = Fixture::new("a\n", "one\ntwo\nthree\nfour\nfive\n");
    let mut app = fixture.app();
    // Not editing, so `follow_cursor` never runs: this covers the plain
    // clamp on its own.
    app.screen.focus = Pane::Files;
    app.screen.viewport_height = 2;
    app.screen.panes[1] = rect(0, 0, 20, 10);
    app.screen.panes[2] = rect(20, 0, 20, 10);
    // As if a resize shrank the terminal after these were set against a
    // larger one.
    app.screen.scroll = 100;
    app.screen.hscroll = 100;

    assert!(app.clamp_scroll(), "both scrolls moved");
    assert_eq!(app.screen.scroll, app.diff.rows.len() - app.screen.viewport_height);
    assert_eq!(app.screen.hscroll, 0, "no line here is wider than the pane");
    assert!(!app.clamp_scroll(), "already in bounds, nothing to do");
}

/// A resize while editing must still pull `hscroll` back into range —
/// nothing else will, until the next keystroke — but not so far back
/// that it clips the cursor's own cell, which `follow_cursor` normally
/// keeps one column more generous than a plain clamp allows.
#[test]
fn clamp_scroll_reclaims_hscroll_for_the_cursor_while_editing() {
    let fixture = Fixture::new("x\n", "AAAAAAAAAAAAAAAAAAAA\n");
    let mut app = fixture.app();
    app.screen.panes[1] = rect(0, 0, 20, 10);
    app.screen.panes[2] = rect(20, 0, 20, 10);

    open_buffer(&mut app).move_cursor_to(0, 20);
    app.follow_cursor();
    assert_eq!(app.screen.hscroll, 5, "the cursor's cell is one column past 4");

    // As if a resize (or a shrinking pane during a drag) left `hscroll`
    // stuck at a value from a wider viewport.
    app.screen.hscroll = 100;
    assert!(app.clamp_scroll());
    assert_eq!(
        app.screen.hscroll, 5,
        "clamped back to where the cursor is still visible, not one column short of it"
    );
}

/// `clamp_scroll` runs after every drawn frame, so calling the whole of
/// `follow_cursor` from it — rather than only the horizontal widen —
/// would drag the view back to the cursor's row on the very next frame,
/// undoing a deliberate scroll away from it while still editing: the
/// wheel over the Current pane, say. That is exactly what the
/// momentum-guard tests elsewhere protect against a keystroke doing;
/// `clamp_scroll` must not reopen it from the draw loop.
#[test]
fn clamp_scroll_does_not_snap_the_view_back_to_the_cursor_while_editing() {
    let body: String = (0..200).map(|i| format!("line {i}\n")).collect();
    let fixture = Fixture::new("x\n", &body);
    let mut app = fixture.app();
    app.screen.viewport_height = 20;
    app.screen.panes[1] = rect(0, 0, 20, 10);
    app.screen.panes[2] = rect(20, 0, 20, 10);

    // The cursor stays at line 0, but the reader scrolls the view away
    // from it with the wheel, still editing elsewhere.
    fixture.mouse(&mut app, mouse(MouseKind::ScrollDown, 30, 5));
    let scrolled = app.screen.scroll;
    assert!(scrolled > 0, "the wheel moved the view");

    assert!(!app.clamp_scroll(), "already in bounds, nothing to correct");
    assert_eq!(
        app.screen.scroll, scrolled,
        "the view must stay where it was scrolled to, not snap to the cursor"
    );
}

#[test]
fn pasting_widens_longest_from_the_line_the_paste_starts_on() {
    // `insert_str` leaves the cursor on the paste's last line, so a
    // widen that only looks at the pasted text or the cursor's line
    // misses the first line the paste touched — prefix plus the pasted
    // text's own first line — which is the widest line in the file here.
    let fixture = Fixture::new("x\n", "AAAAAAAAAAAAAAAAAAAA\n");
    let mut app = fixture.app();
    app.screen.panes[1] = rect(0, 0, 20, 10);
    app.screen.panes[2] = rect(20, 0, 20, 10);

    open_buffer(&mut app).move_cursor_to(0, 20);
    fixture.paste(&mut app, "BBBBBBBBBB\nC");
    assert_eq!(
        app.new_lines(),
        ["AAAAAAAAAAAAAAAAAAAABBBBBBBBBB", "C"],
        "the paste landed where it should"
    );

    // 16 columns of text (see the sibling tests for the arithmetic), and
    // the first line is now 30 columns wide, so its end sits at 30 - 16.
    app.screen.focus = Pane::Files;
    for _ in 0..20 {
        fixture.key(&mut app, key(Key::Right));
    }
    assert_eq!(app.screen.hscroll, 14);
}

/// Pasting over a selection made *downward* — shift-select or a
/// top-to-bottom drag — is where the naive "cursor's row before the
/// insert" reading of "where did this land" breaks: `insert_str` deletes
/// the selection first, which moves the cursor to the selection's
/// *start*, above where it was when the selection was made. The paste
/// lands there, not at the old cursor row.
#[test]
fn pasting_over_a_downward_selection_widens_from_where_it_actually_landed() {
    let fixture = Fixture::new("x\n",
        "l0\nl1\nXXXXXXXXXXXXXXXXXXXX\nl3\nl4\nl5\n",
    );
    let mut app = fixture.app();
    app.screen.panes[1] = rect(0, 0, 20, 10);
    app.screen.panes[2] = rect(20, 0, 20, 10);

    // Select from the end of the widest line down to the start of a
    // later one, then paste over it.
    {
        let buffer = open_buffer(&mut app);
        buffer.move_cursor_to(2, 20);
        buffer.start_selection();
        buffer.move_cursor_to_keeping_selection(5, 0);
    }
    fixture.paste(&mut app, "YYYYYYYYYYYYYYYYYYYY\nZ");

    assert_eq!(
        app.new_lines(),
        [
            "l0",
            "l1",
            "XXXXXXXXXXXXXXXXXXXXYYYYYYYYYYYYYYYYYYYY",
            "Zl5",
        ],
        "the paste landed on the row the selection started on"
    );

    // The row the selection started on is now 40 columns wide; its end
    // sits at 40 - 16 columns of visible text.
    app.screen.focus = Pane::Files;
    for _ in 0..20 {
        fixture.key(&mut app, key(Key::Right));
    }
    assert_eq!(app.screen.hscroll, 24);
}

#[test]
fn typing_past_the_right_edge_brings_the_view_with_it() {
    let fixture = Fixture::new("a\n", "short\n");
    let mut app = fixture.app();
    app.screen.panes[1] = rect(0, 0, 20, 10);
    app.screen.panes[2] = rect(20, 0, 20, 10);

    // 16 columns of text, so the cursor leaves the pane on the 17th.
    open_buffer(&mut app).move_cursor_to(0, 5);
    fixture.type_str(&mut app, "0123456789012345");
    assert!(app.screen.hscroll > 0, "the view followed the cursor");
    let cursor = app.buffer().unwrap().cursor().1;
    assert!(cursor >= app.screen.hscroll && cursor < app.screen.hscroll + 16);

    // And back again when the cursor returns to the start of the line.
    fixture.key(&mut app, key(Key::Home));
    assert_eq!(app.screen.hscroll, 0);
}

#[test]
fn a_click_resolves_through_scroll_and_horizontal_scroll() {
    let fixture = Fixture::new("a\n", "one\ntwo\nthree\nfour\n");
    let mut app = fixture.app();
    app.screen.panes[2] = rect(10, 2, 40, 10);
    app.screen.scroll = 1;
    app.screen.hscroll = 1;

    // Gutter is one digit wide plus a space, so text starts two cells in.
    let at = position(10 + 1 + 2 + 1, 2 + 1 + 1);
    assert_eq!(app.buffer_position(at), Some((2, 2)));
}

/// The HEAD side has no editor, but a reader still wants to lift text out
/// of it: drag to select, `Ctrl+C` copies it — and only then; with nothing
/// selected, `Ctrl+C` there still means quit.
#[test]
fn dragging_across_the_head_side_selects_and_copies_it() {
    let fixture = Fixture::new("one\ntwo\nthree\n", "one\nTWO\nthree\n");
    let mut app = fixture.app();
    app.screen.viewport_height = 10;
    app.screen.panes[1] = rect(0, 0, 20, 10);
    app.screen.panes[2] = rect(20, 0, 20, 10);
    // Gutter is one digit plus a space, so text starts at column 3 inside
    // the border. Press on "n" of "one", drag upward-left is sorted too:
    // release on "w" of "two".
    fixture.mouse(&mut app, mouse(MouseKind::Down(Button::Left), 4, 1));
    fixture.mouse(&mut app, mouse(MouseKind::Drag(Button::Left), 5, 2));
    fixture.mouse(&mut app, mouse(MouseKind::Up(Button::Left), 5, 2));
    assert_eq!(app.screen.focus, Pane::Old);
    assert_eq!(app.old_selection(), Some(((0, 1), (1, 2))));
    assert_eq!(app.old_selected_text().as_deref(), Some("ne\ntw"));

    fixture.key(&mut app, ctrl('c'));
    assert!(
        app.screen.prompt.is_none() && !app.screen.quit,
        "Ctrl+C copied, did not quit"
    );

    // A click without a drag selects nothing, so Ctrl+C is quit again.
    fixture.mouse(&mut app, mouse(MouseKind::Down(Button::Left), 4, 1));
    fixture.mouse(&mut app, mouse(MouseKind::Up(Button::Left), 4, 1));
    assert_eq!(app.old_selection(), None);
    fixture.key(&mut app, ctrl('c'));
    assert!(app.screen.quit);
}

/// A line wider than the pane can only be selected to its end if dragging
/// past the pane's edge scrolls the view, and keeps scrolling while the
/// button is held there — the terminal reports no drag that stands still.
#[test]
fn a_drag_held_past_the_edge_scrolls_until_the_line_ends() {
    let long = "abcdefghijklmnopqrstuvwxyz0123456789ABCD\n";
    let fixture = Fixture::new(long, "x\n");
    let mut app = fixture.app();
    app.screen.viewport_height = 8;
    // Inner width 18, gutter "1 " — 16 text columns for a 40-char line.
    app.screen.panes[1] = rect(0, 0, 20, 10);
    app.screen.panes[2] = rect(20, 0, 20, 10);
    fixture.mouse(&mut app, mouse(MouseKind::Down(Button::Left), 3, 1));
    // Into the New pane, past the Old pane's right border.
    fixture.mouse(&mut app, mouse(MouseKind::Drag(Button::Left), 25, 1));
    assert_eq!(
        app.screen.hscroll, HSCROLL_STEP as usize,
        "one step per drag event"
    );
    assert!(
        app.dragging_past_edge(),
        "held past the edge, so keep going"
    );
    // The head reaches just past the last visible column, not the line end.
    assert_eq!(
        app.old_selection().unwrap().1,
        (0, 16 + HSCROLL_STEP as usize)
    );

    let mut ticks = 0;
    while app.dragging_past_edge() {
        app.autoscroll();
        ticks += 1;
        assert!(ticks < 100, "must stop once the view cannot move");
    }
    assert_eq!(app.screen.hscroll, 24, "40 columns of text, 16 visible");
    assert_eq!(app.old_selected_text().as_deref(), Some(&long[..40]));

    // Back inside the pane: no more ticking.
    fixture.mouse(&mut app, mouse(MouseKind::Drag(Button::Left), 10, 1));
    assert!(!app.dragging_past_edge());
    fixture.mouse(&mut app, mouse(MouseKind::Up(Button::Left), 10, 1));
    assert_eq!(app.screen.edge_drag, None);
}

/// The editor pane has a cursor, and the frame's clamp widens the view by
/// one column for it at the right limit; the tick must not read that as
/// room to keep going.
#[test]
fn a_held_drag_in_the_editor_stops_at_the_limit_despite_the_clamp() {
    let long = "abcdefghijklmnopqrstuvwxyz0123456789ABCD\n";
    let fixture = Fixture::new("x\n", long);
    let mut app = fixture.app();
    app.screen.viewport_height = 8;
    app.screen.panes[1] = rect(0, 0, 20, 10);
    app.screen.panes[2] = rect(20, 0, 20, 10);
    fixture.mouse(&mut app, mouse(MouseKind::Down(Button::Left), 23, 1));
    fixture.mouse(&mut app, mouse(MouseKind::Drag(Button::Left), 39, 1));
    assert!(app.dragging_past_edge());
    let mut ticks = 0;
    while app.dragging_past_edge() {
        app.autoscroll();
        app.clamp_scroll();
        ticks += 1;
        assert!(ticks < 100, "must stop once the view cannot move");
    }
    assert_eq!(
        app.buffer().unwrap().selected_text().as_deref(),
        Some(&long[..40])
    );

    // Focus moving mid-drag does not move the selection to another pane.
    fixture.key(&mut app, key(Key::Esc));
    fixture.mouse(&mut app, mouse(MouseKind::Drag(Button::Left), 30, 1));
    assert_eq!(app.old_selection(), None);
    fixture.mouse(&mut app, mouse(MouseKind::Up(Button::Left), 30, 1));
}

/// Right-click on the file list is "take this path": copied, confirmed in
/// the footer, and the confirmation fades on its own — without moving the
/// selection, which is what a left click is for.
#[test]
fn right_click_copies_a_listed_path_and_the_notice_fades() {
    let fixture = Fixture::new("a\n", "b\n");
    let mut app = fixture.app();
    app.screen.panes[0] = rect(0, 0, 20, 10);
    app.screen.panes[1] = rect(20, 0, 20, 10);
    app.screen.panes[2] = rect(40, 0, 20, 10);
    let selected = app.selected;
    let path = app.files[0].path.clone();

    fixture.mouse(&mut app, mouse(MouseKind::Down(Button::Right), 5, 1));
    assert_eq!(
        app.notice.as_deref(),
        Some(format!("Copied {path}").as_str())
    );
    assert_eq!(app.selected, selected, "selection untouched");
    let wait = app.next_tick(fixture.now()).expect("a fade is scheduled");
    assert!(wait <= NOTICE_TTL && wait > NOTICE_TTL / 2);

    // Not due yet: a tick leaves it. Due: a tick clears it.
    app.tick(fixture.now());
    assert!(app.notice.is_some());
    app.screen.notice_until = Some(fixture.now());
    app.tick(fixture.now());
    assert_eq!(app.notice, None);
    assert_eq!(app.next_tick(fixture.now()), None, "idle again");

    // Right-click on a diff pane copies nothing.
    fixture.mouse(&mut app, mouse(MouseKind::Down(Button::Right), 30, 1));
    assert_eq!(app.notice, None);
}

#[test]
fn dragging_a_divider_moves_width_between_two_panes() {
    let fixture = Fixture::new("a\n", "b\n");
    let mut app = fixture.app();
    app.screen.body = rect(0, 0, 90, 10);
    app.screen.panes = [
        rect(0, 0, 26, 10),
        rect(26, 0, 32, 10),
        rect(58, 0, 32, 10),
    ];

    let drag = |app: &mut App, x: u16, kind: MouseKind| {
        fixture.mouse(app, mouse(kind, x, 5))
    };

    // Grabbing the shared border and dragging right widens Files and
    // narrows Old; the third pane is untouched.
    drag(&mut app, 26, MouseKind::Down(Button::Left));
    drag(&mut app, 40, MouseKind::Drag(Button::Left));
    assert_eq!(app.screen.weights, [40, 18, 32]);

    // A drag past the far pane stops at the minimum rather than erasing it.
    drag(&mut app, 90, MouseKind::Drag(Button::Left));
    assert_eq!(app.screen.weights, [26 + 32 - MIN_PANE, MIN_PANE, 32]);

    drag(&mut app, 90, MouseKind::Up(Button::Left));
    // The button is up, so the same motion is no longer a resize.
    let weights = app.screen.weights;
    drag(&mut app, 30, MouseKind::Drag(Button::Left));
    assert_eq!(app.screen.weights, weights);
}

#[test]
fn hiding_the_file_list_keeps_focus_and_cycling_usable() {
    let fixture = Fixture::new("a\n", "b\n");
    let mut app = fixture.app();
    app.screen.focus = Pane::Files;

    fixture.key(&mut app, ctrl('b'));
    assert!(app.screen.files_hidden);
    // Focus cannot stay on a pane that is no longer drawn.
    assert_eq!(app.screen.focus, Pane::New);
    // Cycling and Esc skip the hidden pane.
    fixture.key(&mut app, key(Key::Esc));
    assert_eq!(app.screen.focus, Pane::Old);
    fixture.key(&mut app, key(Key::BackTab));
    assert_eq!(app.screen.focus, Pane::New);
    fixture.key(&mut app, key(Key::BackTab));
    assert_eq!(app.screen.focus, Pane::Old);

    // Ctrl+B works from inside the editor too, and showing the list focuses
    // it, since that is what it is being shown for.
    app.screen.focus = Pane::New;
    fixture.key(&mut app, ctrl('b'));
    assert!(!app.screen.files_hidden);
    assert_eq!(app.screen.focus, Pane::Files);
}

#[test]
fn the_settings_panel_edits_the_live_config_and_swallows_keys() {
    let fixture = Fixture::new("a\n", "b\n");
    let mut app = fixture.app();
    app.has_config = true;
    app.screen.focus = Pane::Files;
    fixture.key(&mut app, key(Key::Char(',')));
    assert_eq!(app.screen.settings, Some(0));

    // `q` would quit and `↓` would change file, but the panel has the keys.
    fixture.key(&mut app, key(Key::Down));
    assert_eq!(app.screen.settings, Some(1));
    assert_eq!(app.selected, Some(0));

    // Row 1 is indent_width. Every change is live and lands on disk with no
    // save step of its own.
    assert!(fixture.config().is_none());
    assert_eq!(app.config.indent_width, 2);
    fixture.key(&mut app, key(Key::Right));
    assert_eq!(app.config.indent_width, 3);
    assert!(
        fixture.config()
            .unwrap()
            .contains("indent_width = 3")
    );

    fixture.key(&mut app, key(Key::Left));
    fixture.key(&mut app, key(Key::Left));
    assert_eq!(app.config.indent_width, 1);
    assert!(
        fixture.config()
            .unwrap()
            .contains("indent_width = 1")
    );

    // At the bottom of its range the key changes nothing, so it writes
    // nothing either.
    let writes = fixture.config_writes();
    fixture.key(&mut app, key(Key::Left));
    assert_eq!(fixture.config_writes(), writes);
    assert!(app.notice.is_none());

    fixture.key(&mut app, key(Key::Esc));
    assert_eq!(app.screen.settings, None);
    assert!(!app.screen.quit);
    fixture.key(&mut app, key(Key::Char('q')));
    assert!(app.screen.quit);
}

#[test]
fn the_momentum_guard_holds_the_view_and_can_be_turned_off() {
    let body: String = (0..200).map(|i| format!("line {i}\n")).collect();
    let fixture = Fixture::new(&body, &body.replace("line 3\n", "LINE 3\n"));
    let mut app = fixture.app();
    app.screen.viewport_height = 20;
    app.screen.panes[2] = rect(76, 0, 44, 22);
    let wheel = |app: &mut App| {
        fixture.mouse(app, mouse(MouseKind::ScrollDown, 80, 5))
    };

    for _ in 0..30 {
        wheel(&mut app);
    }
    assert!(app.screen.scroll > 0);
    fixture.type_str(&mut app, "X");
    assert_eq!(app.screen.scroll, 0, "typing jumps back to the cursor");

    // Inside the window, the tail of the flick is ignored.
    wheel(&mut app);
    assert_eq!(app.screen.scroll, 0);

    // Outside it, the wheel is the user's again.
    app.screen.typed_at =
        Some(fixture.now() - app.config.momentum_delay_ms * MILLI);
    wheel(&mut app);
    assert_eq!(app.screen.scroll, app.config.scroll_lines);

    // And with the guard off there is no window at all.
    app.config.momentum_delay_ms = 0;
    fixture.type_str(&mut app, "Y");
    assert_eq!(app.screen.scroll, 0);
    wheel(&mut app);
    assert_eq!(app.screen.scroll, app.config.scroll_lines);
}

/// An overlay owns the mouse the way it owns the keyboard. Without that, a
/// click on the panel reaches the pane drawn underneath and moves the edit
/// cursor somewhere the user never saw.
#[test]
fn an_open_overlay_swallows_the_mouse_but_not_its_own_button() {
    let fixture = Fixture::new("a\n", "one\ntwo\nthree\nfour\n");
    let mut app = fixture.app();
    app.screen.body = rect(0, 0, 90, 12);
    app.screen.panes = [
        rect(0, 0, 26, 12),
        rect(26, 0, 32, 12),
        rect(58, 0, 32, 12),
    ];
    app.screen.buttons = [rect(1, 12, 12, 1), rect(14, 12, 8, 1)];
    open_buffer(&mut app).move_cursor_to(3, 0);
    let before = app.buffer().unwrap().cursor();

    let click = |app: &mut App, x: u16, y: u16| {
        fixture.mouse(app, mouse(MouseKind::Down(Button::Left), x, y))
    };

    // Clicking the footer opens the panel, and clicking it again closes it.
    click(&mut app, 3, 12);
    assert_eq!(app.screen.settings, Some(0));

    // A click over the Current pane, where the panel is drawn, changes
    // nothing at all: not the cursor, not the focus, not the scroll.
    let focus = app.screen.focus;
    click(&mut app, 70, 4);
    assert_eq!(app.buffer().unwrap().cursor(), before);
    assert_eq!(app.screen.focus, focus);

    // Nor does the wheel reach the diff underneath.
    fixture.mouse(&mut app, mouse(MouseKind::ScrollDown, 70, 4));
    assert_eq!(app.screen.scroll, 0);

    // The other button still swaps panels, and its own click closes it.
    click(&mut app, 16, 12);
    assert!(app.screen.help);
    assert_eq!(app.screen.settings, None);
    click(&mut app, 16, 12);
    assert!(!app.screen.help);

    // With both closed the same click on the pane works normally again.
    click(&mut app, 70, 4);
    assert_eq!(app.screen.focus, Pane::New);
    assert_ne!(app.buffer().unwrap().cursor(), before);
}

#[test]
fn a_divider_can_be_grabbed_by_either_of_its_two_border_cells() {
    let fixture = Fixture::new("a\n", "b\n");
    let mut app = fixture.app();
    app.screen.body = rect(0, 0, 90, 10);
    app.screen.panes = [
        rect(0, 0, 26, 10),
        rect(26, 0, 32, 10),
        rect(58, 0, 32, 10),
    ];

    // The Files pane's right border and the Old pane's left one are two
    // cells that mean the same divider.
    assert_eq!(app.screen.divider_at(position(25, 5)), Some(0));
    assert_eq!(app.screen.divider_at(position(26, 5)), Some(0));
    assert_eq!(app.screen.divider_at(position(57, 5)), Some(1));
    assert_eq!(app.screen.divider_at(position(40, 5)), None);
    // Outside the panes there is nothing to grab.
    assert_eq!(app.screen.divider_at(position(26, 11)), None);

    // A hidden file list leaves no divider where its border used to be.
    app.screen.panes[0] = rect(0, 0, 0, 0);
    app.screen.panes[1] = rect(0, 0, 45, 10);
    app.screen.panes[2] = rect(45, 0, 45, 10);
    assert_eq!(app.screen.divider_at(position(0, 5)), None);
    assert_eq!(app.screen.divider_at(position(45, 5)), Some(1));
}

/// Refinement changes how many rows sit above the viewport, so the row at
/// the top has to be found again by the line it shows, or the view jumps.
#[test]
fn refining_under_the_viewport_keeps_the_top_line_where_it_was() {
    let committed: String = (0..200).map(|i| format!("line {i}\n")).collect();
    let mut lines: Vec<String> = committed.lines().map(str::to_string).collect();
    lines.remove(20);
    lines.insert(100, "inserted".into());
    lines[189] = "changed".into();
    let fixture = Fixture::new(&committed, &(lines.join("\n") + "\n"));
    let mut app = fixture.app();
    app.screen.viewport_height = 20;

    // Stand in for a build that ran out of time on the stretch between
    // the edits.
    let head = app.diff.old.clone();
    let current = app.new_lines().to_vec();
    app.diff = DiffModel::build_coarse(head, &current);
    assert_eq!(app.diff.coarse.len(), 1);

    // Above the stretch there is nothing to refine.
    app.screen.scroll = 0;
    assert!(!app.wants_refine());

    // Inside it there is. The line at the top of the view stays at the
    // top, even though a row was added above it.
    app.screen.scroll = 150;
    assert!(app.wants_refine());
    let top = app.diff.rows[150].new_line;
    assert_eq!(top, Some(150));
    app.refine();
    assert!(!app.wants_refine());
    assert_eq!(app.diff.rows[app.screen.scroll].new_line, top);
    assert_eq!(app.screen.scroll, 151, "the delete and the insert each took a row");
    let changed = app
        .diff
        .rows
        .iter()
        .filter(|r| r.kind != RowKind::Equal)
        .count();
    assert_eq!(changed, 3);
}

/// A deletion has no row on the New side, so a viewport that happens to
/// scroll to one at the top must still resolve to the real line just
/// below it, or the anchor silently does nothing and the view jumps.
#[test]
fn refining_under_the_viewport_survives_a_phantom_top_row() {
    let committed: String = (0..200).map(|i| format!("line {i}\n")).collect();
    let mut lines: Vec<String> = committed.lines().map(str::to_string).collect();
    lines.remove(21);
    lines.remove(20);
    lines.insert(100, "inserted".into());
    let fixture = Fixture::new(&committed, &(lines.join("\n") + "\n"));
    let mut app = fixture.app();
    app.screen.viewport_height = 20;

    // Two deletes and one insert don't cancel out, so the coarse stretch's
    // last row is a lone Delete: a phantom on the New side.
    let head = app.diff.old.clone();
    let current = app.new_lines().to_vec();
    app.diff = DiffModel::build_coarse(head, &current);
    app.screen.scroll = 101;
    assert_eq!(
        app.diff.rows[app.screen.scroll],
        DiffRow {
            old_line: Some(101),
            new_line: None,
            kind: RowKind::Delete,
        }
    );
    assert!(app.wants_refine());

    // The line actually shown at the top is the next real one, line 101.
    let top = app.diff.new_line_at_or_after(app.screen.scroll);
    assert_eq!(top, Some(101));
    app.refine();
    assert!(!app.wants_refine());
    assert_eq!(app.diff.rows[app.screen.scroll].new_line, top);
    assert_eq!(app.screen.scroll, 103, "two deletes and an insert each took a row");
}

#[test]
fn a_binary_file_is_not_editable() {
    let fixture = Fixture::new("a\n", "a\n");
    fixture.write_bytes(&[0x00, 0x01, 0x02]);
    let mut app = fixture.app();
    assert!(app.buffer().is_none());
    assert!(!app.editing());

    // Focus alone cannot make it editable, so keys stay view commands.
    fixture.key(&mut app, key(Key::Char('q')));
    assert!(app.screen.quit);
}

/// Going to another file and back keeps what was typed, and drops what was not.
#[test]
fn navigation_keeps_unsaved_edits() {
    let fixture = Fixture::new("a\n", "b\n");
    *fixture.names.borrow_mut() = vec!["file.txt", "other.txt"];
    let mut app = fixture.app();
    fixture.type_str(&mut app, "x");
    assert_eq!(app.dirty_files(), vec!["file.txt"]);
    fixture.key(&mut app, key(Key::Esc));
    fixture.key(&mut app, key(Key::Down));
    assert_eq!(app.selected, Some(1));
    assert_eq!(app.new_lines(), ["b"]);
    assert!(app.is_dirty("file.txt"));
    assert!(!app.is_dirty("other.txt"));
    // The list ends here.
    fixture.key(&mut app, key(Key::Down));
    assert_eq!(app.selected, Some(1));
    fixture.key(&mut app, key(Key::Up));
    assert_eq!(app.new_lines(), ["xb"]);
    assert_eq!(app.buffers.len(), 1);
}

/// Opening asks for the file that was named, where it is listed.
#[test]
fn opening_on_a_file_selects_it() {
    let files = || vec![listed("a.txt"), listed("b.txt")];
    let layout = Some([1, 2, 3]);
    let app = App::new(files(), Some("b.txt"), Config::default(), true, layout);
    assert_eq!(app.selected, Some(1));
    assert!(app.loading);
    assert_eq!(app.screen.weights, [1, 2, 3]);
    let app = App::new(files(), Some("c.txt"), Config::default(), true, None);
    assert_eq!(app.selected, Some(0));
    assert_eq!(app.screen.weights, [26, 37, 37]);
    let forget = Config { remember_layout: false, ..Config::default() };
    let app = App::new(files(), None, forget, true, layout);
    assert_eq!(app.screen.weights, [26, 37, 37]);
    let app = App::new(Vec::new(), Some("b.txt"), Config::default(), true, None);
    assert_eq!(app.selected, None);
    assert!(!app.loading && app.selected_file().is_none());
}

/// A file rewritten while the view is scrolled is read again without moving the
/// view, as far as there is text.
#[test]
fn reading_again_keeps_the_view() {
    let body: String = (0..200).map(|i| format!("line {i}\n")).collect();
    let fixture = Fixture::new("x\n", &body);
    let mut app = fixture.app();
    app.screen.scroll = 50;
    fixture.write(&body.replace("line 3\n", "LINE 3\n"));
    fixture.poll(&mut app);
    assert_eq!(app.screen.scroll, 50);
    assert_eq!(app.new_lines()[3], "LINE 3");
    fixture.write("one\n");
    fixture.poll(&mut app);
    assert_eq!(app.screen.scroll, 0);
    // The same stamp is no news.
    fixture.poll(&mut app);
    assert_eq!(app.new_lines(), ["one"]);
}

/// A failure to list the files is shown and changes nothing; an empty list leaves
/// nothing to show.
#[test]
fn a_refresh_fails_or_empties() {
    let fixture = Fixture::new("a\n", "b\n");
    let mut app = fixture.app();
    assert!(matches!(app.refreshed(Err("no git".to_string())), Task::Nothing));
    assert_eq!(app.error.as_deref(), Some("no git"));
    assert_eq!(app.new_lines(), ["b"]);
    assert!(matches!(app.refreshed(Ok(Vec::new())), Task::Nothing));
    assert_eq!(app.error, None);
    assert!(app.new_lines().is_empty() && app.diff.rows.is_empty());
    assert_eq!(app.selected, None);
    fixture.key(&mut app, key(Key::Down));
    assert_eq!(app.selected, None);
}

/// What a failed write says, and that it leaves the edits unsaved.
#[test]
fn a_failed_save_says_why() {
    let fixture = Fixture::new("a\n", "b\n");
    let mut app = fixture.app();
    fixture.type_str(&mut app, "x");
    let content = FileContent::decode(b"b\n".to_vec());
    let write = app.save(&content).unwrap();
    assert_eq!((write.path.as_str(), write.body.as_str()), ("file.txt", "xb\n"));
    app.saved(Some("disk full".to_string()), None);
    assert_eq!(app.notice.as_deref(), Some("Save failed: disk full"));
    assert!(app.is_dirty("file.txt"));
    app.config_not_saved("read-only");
    assert_eq!(app.notice.as_deref(), Some("Could not save the config: read-only"));
}

/// Without a config file the settings last for the run, and it says so.
#[test]
fn settings_without_a_file_last_for_the_run() {
    let fixture = Fixture::new("a\n", "b\n");
    let mut app = fixture.app();
    app.screen.focus = Pane::Files;
    fixture.key(&mut app, key(Key::Char(',')));
    fixture.key(&mut app, key(Key::End));
    assert_eq!(app.screen.settings, Some(7));
    fixture.key(&mut app, key(Key::Down));
    assert_eq!(app.screen.settings, Some(7));
    fixture.key(&mut app, key(Key::Home));
    fixture.key(&mut app, key(Key::Up));
    assert_eq!(app.screen.settings, Some(0));
    fixture.key(&mut app, key(Key::Enter));
    assert!(!app.config.detect_indent);
    assert!(app.notice.as_deref().unwrap().starts_with("No config file to save to"));
    assert_eq!(fixture.config_writes(), 0);
}

/// Cut copies what it takes, and paste puts it back.
#[test]
fn cut_and_paste_go_through_the_clipboard() {
    let fixture = Fixture::new("a\n", "hello world\n");
    let mut app = fixture.app();
    fixture.key(&mut app, ctrl('x'));
    assert_eq!(fixture.clipboard.borrow().as_deref(), None);
    let buffer = open_buffer(&mut app);
    buffer.move_cursor_to(0, 0);
    buffer.start_selection();
    buffer.move_cursor_to_keeping_selection(0, 6);
    fixture.key(&mut app, ctrl('c'));
    assert_eq!(fixture.clipboard.borrow().as_deref(), Some("hello "));
    assert_eq!(app.new_lines(), ["hello world"]);
    fixture.key(&mut app, ctrl('x'));
    assert_eq!(app.new_lines(), ["world"]);
    assert_eq!(app.diff.row_of_new_line(0), Some(0));
    fixture.key(&mut app, key(Key::End));
    fixture.key(&mut app, ctrl('v'));
    assert_eq!(app.new_lines(), ["worldhello "]);
    fixture.key(&mut app, ctrl('z'));
    fixture.key(&mut app, ctrl('z'));
    assert_eq!(app.new_lines(), ["hello world"]);
    fixture.key(&mut app, ctrl('y'));
    assert_eq!(app.new_lines(), ["world"]);
}

/// Pasting nothing over a selection takes the selection out, and the diff goes with
/// the text.
#[test]
fn pasting_nothing_over_a_selection_keeps_the_diff_in_step() {
    let fixture = Fixture::new("a\n", "one\ntwo\nthree\n");
    let mut app = fixture.app();
    let buffer = open_buffer(&mut app);
    buffer.move_cursor_to(0, 0);
    buffer.start_selection();
    buffer.move_cursor_to_keeping_selection(2, 0);
    fixture.paste(&mut app, "");
    assert_eq!(app.new_lines(), ["three"]);
    assert_eq!(app.diff.new_line_to_row.len(), 1);
}

/// The key list scrolls with the arrows and closes on anything else.
#[test]
fn the_key_list_is_a_reminder() {
    let fixture = Fixture::new("a\n", "b\n");
    let mut app = fixture.app();
    app.screen.focus = Pane::Old;
    fixture.key(&mut app, key(Key::Char('?')));
    assert!(app.screen.help);
    fixture.key(&mut app, key(Key::Down));
    fixture.key(&mut app, key(Key::Down));
    fixture.key(&mut app, key(Key::Up));
    assert_eq!((app.screen.help_scroll, app.screen.scroll), (1, 0));
    fixture.key(&mut app, key(Key::Char('q')));
    assert!(!app.screen.help && !app.screen.quit);
    assert_eq!(app.screen.help_scroll, 0);
}

/// A page, the ends, and back: never past either end.
#[test]
fn scrolling_stays_within_the_rows() {
    let body: String = (0..50).map(|i| format!("line {i}\n")).collect();
    let fixture = Fixture::new("x\n", &body);
    let mut app = fixture.app();
    app.screen.focus = Pane::Old;
    let last = app.diff.rows.len() - 20;
    fixture.key(&mut app, key(Key::PageDown));
    assert_eq!(app.screen.scroll, 20);
    fixture.key(&mut app, key(Key::End));
    assert_eq!(app.screen.scroll, last);
    fixture.key(&mut app, key(Key::Down));
    assert_eq!(app.screen.scroll, last);
    fixture.key(&mut app, key(Key::PageUp));
    assert_eq!(app.screen.scroll, last - 20);
    fixture.key(&mut app, key(Key::Home));
    fixture.key(&mut app, key(Key::Up));
    assert_eq!(app.screen.scroll, 0);
}

/// What is due decides how long to wait: a held drag first, then the sooner of a
/// notice and a pause.
#[test]
fn the_soonest_thing_due_is_waited_for() {
    let fixture = Fixture::new("a\n", "b\n");
    let mut app = fixture.app();
    assert_eq!(app.next_tick(fixture.now()), None);
    assert_eq!(app.turn(false, fixture.now()), Turn::Wait(None));
    assert_eq!(app.turn(true, fixture.now()), Turn::Draw);
    app.screen.notice_until = Some(fixture.now() + 5);
    assert_eq!(app.next_tick(fixture.now()), Some(5));
    app.screen.selecting = Some(Pane::New);
    app.screen.edge_drag = Some(position(0, 0));
    assert_eq!(app.next_tick(fixture.now()), Some(AUTOSCROLL_TICK));
    app.screen.quit = true;
    assert_eq!(app.turn(true, fixture.now()), Turn::Stop);

    let body: String = (0..200).map(|i| format!("line {i}\n")).collect();
    let fixture = Fixture::new(&body, &body.replace("line", "LINE"));
    let mut app = fixture.app();
    let head = app.diff.old.clone();
    let current = app.new_lines().to_vec();
    app.diff = DiffModel::build_coarse(head, &current);
    assert_eq!(app.next_tick(fixture.now()), Some(REFINE_PAUSE));
    app.screen.notice_until = Some(fixture.now() + NOTICE_TTL);
    assert_eq!(app.next_tick(fixture.now()), Some(REFINE_PAUSE));
}

/// Motion with no button down costs no redraw.
#[test]
fn idle_motion_costs_no_redraw() {
    assert!(!redraw_after(Happened::Mouse(MouseKind::Moved)));
    assert!(redraw_after(Happened::Mouse(MouseKind::ScrollUp)));
    assert!(redraw_after(Happened::Key) && redraw_after(Happened::Resize));
    assert!(redraw_after(Happened::Paste) && redraw_after(Happened::Timeout));
    assert!(!redraw_after(Happened::Other));
}

/// The footer's questions.
#[test]
fn a_prompt_says_what_it_asks() {
    assert_eq!(Prompt::Quit.text(), "Unsaved changes. Quit anyway? (y/n)");
    assert_eq!(Prompt::Reload.text(), "Unsaved changes. Discard and reload? (y/n)");
}

/// A hidden pane keeps its share when the others are resized.
#[test]
fn a_hidden_pane_is_scaled_with_the_others() {
    let fixture = Fixture::new("a\n", "b\n");
    let mut app = fixture.app();
    app.screen.weights = [26, 37, 37];
    app.screen.panes = [rect(0, 0, 0, 0), rect(0, 0, 74, 10), rect(74, 0, 74, 10)];
    app.screen.drag_divider(1, 50);
    assert_eq!(app.screen.weights, [52, 50, 98]);
    // Too narrow a pair has nothing to give.
    app.screen.panes = [rect(0, 0, 0, 0), rect(0, 0, 8, 10), rect(8, 0, 7, 10)];
    app.screen.drag_divider(1, 3);
    assert_eq!(app.screen.weights, [52, 50, 98]);

    // A share that grows past what a weight holds stops there.
    app.screen.weights = [65535, 1, 1];
    app.screen.panes = [rect(0, 0, 0, 0), rect(0, 0, 74, 10), rect(74, 0, 74, 10)];
    app.screen.drag_divider(1, 50);
    assert_eq!(app.screen.weights, [65535, 50, 98]);
}

/// A revision on the right is read-only: its text is shown and keys stay view commands.
#[test]
fn a_revision_on_the_right_is_not_editable() {
    let mut app = App::with(vec![listed("file.txt")], Config::default(), false);
    let content = FileContent::decode(b"one\ntwo\n".to_vec());
    app.load_diff("one\n", &content, false, None);
    app.screen.focus = Pane::New;
    assert_eq!(app.new_lines(), ["one", "two"]);
    assert!(app.buffer().is_none() && !app.editing());
    assert!(app.save(&content).is_none());
    app.on_key(key(Key::Char('x')), 0);
    assert_eq!(app.new_lines(), ["one", "two"]);
    app.on_key(key(Key::Char('q')), 0);
    assert!(app.screen.quit);
}

/// A wanted reload drops the edits at once, also where the files cannot be listed then.
#[test]
fn a_reload_that_fails_has_dropped_the_edits() {
    let fixture = Fixture::new("a\n", "b\n");
    let mut app = fixture.app();
    open_buffer(&mut app).move_cursor_to(0, 1);
    fixture.type_str(&mut app, "!");
    fixture.key(&mut app, key(Key::Esc));
    fixture.key(&mut app, key(Key::Char('r')));
    let task = app.on_key(key(Key::Char('y')), fixture.now());
    assert!(matches!(task, Task::Refresh));
    assert!(app.buffers.is_empty());
    assert!(matches!(app.refreshed(Err("git failed".to_string())), Task::Nothing));
    assert_eq!(app.error.as_deref(), Some("git failed"));
    assert!(app.dirty_files().is_empty());
    assert!(!app.editing());
}

//! What the keys and the mouse do to what is on screen, stated of the whole program:
//! what was there, what was pressed, and what there is then.

use vstd::prelude::*;

use crate::app::{App, Task};
use crate::git::{ChangedFile, FileContent};
use crate::input::{Button, Key, KeyPress, Mouse, MouseKind};
use crate::screen::{Pane, Prompt, Screen};
use crate::ui::Shown;

verus! {

/// Nothing is open above the panes.
pub open spec fn nothing_open(app: App) -> bool {
    app.screen.prompt is None && !app.screen.help && app.screen.settings is None
}

/// The rows below the last that can be at the top: none where all fit.
pub open spec fn rows_hidden(app: App) -> int {
    if app.diff.rows@.len() > app.screen.viewport_height {
        app.diff.rows@.len() - app.screen.viewport_height
    } else {
        0
    }
}

/// A notch of the wheel over the diff scrolls it by as many rows as are set, down or up,
/// as far as there are rows.
pub proof fn a_notch_scrolls_the_rows_that_are_set(
    app: App,
    after: App,
    mouse: Mouse,
    now: u64,
    task: Task,
)
    requires
        app.ready(),
        app.moused(after, mouse, now, task),
        nothing_open(app),
        !app.guarded(now),
        mouse.kind == MouseKind::ScrollDown || mouse.kind == MouseKind::ScrollUp,
        !mouse.shift && !mouse.alt,
        app.screen.pane_under(mouse.at) == Some(Pane::Old) || app.screen.pane_under(mouse.at)
            == Some(Pane::New),
    ensures
        task is Nothing,
        after.screen.hscroll == app.screen.hscroll,
        mouse.kind == MouseKind::ScrollDown && app.screen.scroll + app.config.scroll_lines
            <= rows_hidden(app) ==> after.screen.scroll == app.screen.scroll
            + app.config.scroll_lines,
        mouse.kind == MouseKind::ScrollUp && app.config.scroll_lines <= app.screen.scroll
            <= rows_hidden(app) ==> after.screen.scroll == app.screen.scroll
            - app.config.scroll_lines,
        after.screen.scroll <= rows_hidden(app),
        Some(after.screen.focus) == app.screen.pane_under(mouse.at),
{
    assert(app.diff.rows.len() == app.diff.rows@.len());
}

/// A notch sideways, or one with shift or alt held, scrolls both sides four columns.
pub proof fn a_notch_sideways_scrolls_four_columns(
    app: App,
    after: App,
    mouse: Mouse,
    now: u64,
    task: Task,
)
    requires
        app.ready(),
        app.moused(after, mouse, now, task),
        nothing_open(app),
        !app.guarded(now),
        App::scrolls(mouse.kind),
        mouse.kind is ScrollLeft || mouse.kind is ScrollRight || mouse.shift || mouse.alt,
    ensures
        ({
            let right = mouse.kind is ScrollRight || mouse.kind is ScrollDown;
            &&& task is Nothing
            &&& after.screen.scroll == app.screen.scroll
            &&& right && app.screen.hscroll + 4 + app.text_cols() <= app.screen.longest
                ==> after.screen.hscroll == app.screen.hscroll + 4
            &&& !right && 4 <= app.screen.hscroll && app.screen.hscroll - 4 + app.text_cols()
                <= app.screen.longest ==> after.screen.hscroll == app.screen.hscroll - 4
            &&& !right && app.screen.hscroll < 4 ==> after.screen.hscroll == 0
        }),
{
}

/// A notch of the wheel over the file list goes to the next file or to the one before.
pub proof fn a_notch_over_the_list_goes_one_file_on(
    app: App,
    after: App,
    mouse: Mouse,
    now: u64,
    task: Task,
)
    requires
        app.ready(),
        app.moused(after, mouse, now, task),
        nothing_open(app),
        !app.guarded(now),
        mouse.kind == MouseKind::ScrollDown || mouse.kind == MouseKind::ScrollUp,
        !mouse.shift && !mouse.alt,
        app.screen.pane_under(mouse.at) == Some(Pane::Files),
        app.selected is Some,
    ensures
        ({
            let row = app.selected->0;
            &&& mouse.kind == MouseKind::ScrollDown && row + 1 < app.files@.len() ==> after.selected
                == Some((row + 1) as usize) && task is Load
            &&& mouse.kind == MouseKind::ScrollUp && row > 0 ==> after.selected == Some(
                (row - 1) as usize,
            ) && task is Load
            &&& after.files == app.files
        }),
{
    assert(app.files.len() == app.files@.len());
}

/// A right click on a file of the list copies its path and leaves the selection.
pub proof fn a_right_click_copies_the_path(
    app: App,
    after: App,
    mouse: Mouse,
    now: u64,
    task: Task,
    row: int,
)
    requires
        app.ready(),
        app.moused(after, mouse, now, task),
        nothing_open(app),
        mouse.kind == MouseKind::Down(Button::Right),
        app.screen.pane_under(mouse.at) == Some(Pane::Files),
        app.screen.panes@[0].y < mouse.at.y,
        row == app.screen.list_offset + mouse.at.y - app.screen.panes@[0].y - 1,
        row < app.files@.len(),
    ensures
        task is Copy,
        task->Copy_0@ == app.files@[row].path@,
        after.selected == app.selected,
        after.buffers == app.buffers,
        after.notice is Some,
        after.screen.notice_until is Some,
        now + 2_000_000_000 <= u64::MAX ==> after.screen.notice_until->0 == now + 2_000_000_000,
{
    assert(app.files.len() == app.files@.len());
}

/// A click on a file of the list opens that file.
pub proof fn a_click_opens_the_file_under_it(
    app: App,
    after: App,
    mouse: Mouse,
    now: u64,
    task: Task,
    row: int,
)
    requires
        app.ready(),
        app.moused(after, mouse, now, task),
        nothing_open(app),
        mouse.kind == MouseKind::Down(Button::Left),
        app.screen.button_under(mouse.at) is None,
        app.screen.divider(mouse.at) is None,
        app.screen.pane_under(mouse.at) == Some(Pane::Files),
        app.screen.panes@[0].y < mouse.at.y,
        row == app.screen.list_offset + mouse.at.y - app.screen.panes@[0].y - 1,
        row < app.files@.len(),
    ensures
        after.selected == Some(row as usize),
        after.files == app.files,
        task is Load <==> app.selected != Some(row as usize),
        after.screen.focus == Pane::Files,
{
    assert(app.files.len() == app.files@.len());
}

/// The place of a printable ASCII text that a cell of a pane shows.
proof fn pointed_place(
    app: App,
    side: Pane,
    x: int,
    y: int,
    found: Option<(usize, usize)>,
    row: int,
    line: usize,
)
    requires
        side == Pane::Old || side == Pane::New,
        app.pointed(side, x, y, found),
        app.screen.area_of(side).y < y,
        app.screen.area_of(side).x < x,
        row == app.screen.scroll + y - app.screen.area_of(side).y - 1,
        0 <= row < app.diff.rows@.len(),
        side == Pane::Old ==> app.diff.rows@[row].old_line == Some(line),
        side == Pane::New ==> app.diff.rows@[row].new_line == Some(line),
        crate::area::narrow(app.side_lines(side)[line as int]),
        x + app.screen.hscroll <= usize::MAX,
    ensures
        ({
            let gutter = crate::columns::gutter(app.side_lines(side).len() as int) + 1;
            let col = x - app.screen.area_of(side).x - 1 - gutter + app.screen.hscroll;
            let len = app.side_lines(side)[line as int].len();
            &&& found is Some
            &&& (found->0).0 == line
            &&& x - app.screen.area_of(side).x - 1 >= gutter ==> (found->0).1 == (if col < len {
                col
            } else {
                len as int
            })
        }),
{
    let of = if side == Pane::Old {
        crate::diff::Side::Old
    } else {
        crate::diff::Side::New
    };
    let rows = app.diff.rows@;
    assert(app.diff.rows.len() == rows.len());
    assert(crate::diff::line_on(rows[row], of) == Some(line));
    assert(crate::diff::stands_for(rows, row, of, Some(line)));
    let chosen = choose|line: Option<usize>| crate::diff::stands_for(rows, row, of, line);
    crate::diff::stands_for_one(rows, row, of, chosen, Some(line));
    let lines = app.side_lines(side);
    let gutter = crate::columns::gutter(lines.len() as int) + 1;
    let display = crate::columns::capped(
        crate::screen::at_least(x - (app.screen.area_of(side).x + 1) - gutter, 0)
            + app.screen.hscroll,
    );
    crate::columns::a_click_lands_on_its_column(
        lines[line as int],
        display,
        app.tab(),
        (found->0).1 as int,
    );
}

/// A click on a line of the Current side puts the cursor on the character under the
/// pointer, or at the end of the line, and starts a selection there. The line is one of
/// printable ASCII.
#[verifier::spinoff_prover]
pub proof fn a_click_puts_the_cursor_there(
    app: App,
    after: App,
    mouse: Mouse,
    now: u64,
    task: Task,
    row: int,
    line: usize,
)
    requires
        app.ready(),
        app.moused(after, mouse, now, task),
        nothing_open(app),
        mouse.kind == MouseKind::Down(Button::Left),
        app.screen.button_under(mouse.at) is None,
        app.screen.divider(mouse.at) is None,
        app.screen.pane_under(mouse.at) == Some(Pane::New),
        app.current() is Some,
        app.screen.panes@[2].y < mouse.at.y,
        row == app.screen.scroll + mouse.at.y - app.screen.panes@[2].y - 1,
        0 <= row < app.diff.rows@.len(),
        app.diff.rows@[row].new_line == Some(line),
        crate::area::narrow(app.shown()[line as int]),
        app.shown()[line as int].len() <= u16::MAX,
        line <= u16::MAX,
        mouse.at.x + app.screen.hscroll <= usize::MAX,
        app.screen.panes@[2].x + 1 + crate::columns::gutter(app.shown().len() as int) + 1
            <= mouse.at.x,
    ensures
        ({
            let buffer = after.buffers@[app.current()->0].buffer;
            let left = app.screen.panes@[2].x + 1 + crate::columns::gutter(
                app.shown().len() as int,
            ) + 1;
            let col = mouse.at.x - left + app.screen.hscroll;
            let len = app.shown()[line as int].len();
            &&& task is Nothing
            &&& buffer.at() == (line as int, if col < len {
                col
            } else {
                len as int
            })
            &&& buffer.anchor() == Some(buffer.at())
            &&& buffer.text() == app.buffers@[app.current()->0].buffer.text()
            &&& after.screen.focus == Pane::New
            &&& after.screen.selecting == Some(Pane::New)
        }),
{
    app.current_there();
    let free = Screen { drag: None, edge_drag: None, selecting: None, ..app.screen };
    let start = app.seen(Screen { focus: Pane::New, ..free });
    assert(start.current() == app.current());
    assert(start.shown() == app.shown());
    assert(start.tab() == app.tab());
    let found = choose|found: Option<(usize, usize)>| #[trigger]
        start.pressed_on(after, Pane::New, mouse.at, found);
    assert(start.pressed_on(after, Pane::New, mouse.at, found));
    assert(start.side_lines(Pane::New) == app.shown());
    crate::diff::rows_name_lines(&app.diff, app.shown());
    pointed_place(start, Pane::New, mouse.at.x as int, mouse.at.y as int, found, row, line);
}

/// Outside the editor and the file list the arrows scroll a row or four columns, the page
/// keys a screen, and Home and End to the first row and the last.
pub proof fn the_arrows_scroll(app: App, after: App, key: KeyPress, now: u64, task: Task)
    requires
        app.ready(),
        app.keyed(after, key, now, task),
        nothing_open(app),
        !app.edits(),
        app.screen.focus != Pane::Files,
        !key.alt && !key.ctrl,
    ensures
        ({
            let top = app.screen.scroll as int;
            let page = app.screen.viewport_height as int;
            let last = rows_hidden(app);
            &&& key.code == Key::Down && top < last ==> after.screen.scroll == top + 1
            &&& key.code == Key::Up && 0 < top <= last ==> after.screen.scroll == top - 1
            &&& key.code == Key::PageDown && page > 0 && top + page <= last ==> after.screen.scroll
                == top + page
            &&& key.code == Key::PageUp && 0 < page <= top <= last ==> after.screen.scroll == top
                - page
            &&& key.code == Key::Home ==> after.screen.scroll == 0
            &&& key.code == Key::End ==> after.screen.scroll == last
            &&& key.code == Key::Right && app.screen.hscroll + 4 + app.text_cols()
                <= app.screen.longest ==> after.screen.hscroll == app.screen.hscroll + 4
            &&& key.code == Key::Left && 4 <= app.screen.hscroll && app.screen.hscroll - 4
                + app.text_cols() <= app.screen.longest ==> after.screen.hscroll
                == app.screen.hscroll - 4
            &&& key.code == Key::Down || key.code == Key::Up || key.code == Key::PageDown
                || key.code == Key::PageUp || key.code == Key::Home || key.code == Key::End
                ==> after.screen.hscroll == app.screen.hscroll && task is Nothing
            &&& key.code == Key::Right || key.code == Key::Left ==> after.screen.scroll == top
                && task is Nothing
        }),
{
    assert(app.diff.rows.len() == app.diff.rows@.len());
}

/// In the file list the arrows go to the next file and to the one before.
pub proof fn the_arrows_go_through_the_files(
    app: App,
    after: App,
    key: KeyPress,
    now: u64,
    task: Task,
)
    requires
        app.ready(),
        app.keyed(after, key, now, task),
        nothing_open(app),
        app.screen.focus == Pane::Files,
        !key.alt,
        app.selected is Some,
    ensures
        ({
            let row = app.selected->0;
            &&& key.code == Key::Down && row + 1 < app.files@.len() ==> after.selected == Some(
                (row + 1) as usize,
            ) && task is Load
            &&& key.code == Key::Down && row + 1 == app.files@.len() ==> after.selected
                == app.selected && task is Nothing
            &&& key.code == Key::Up && row > 0 ==> after.selected == Some((row - 1) as usize)
                && task is Load
            &&& key.code == Key::Up && row == 0 ==> after.selected == app.selected
                && task is Nothing
        }),
{
    assert(app.files.len() == app.files@.len());
}

/// A row where a change begins: one that is changed, below one that is not.
pub open spec fn change_begins(app: App, row: int) -> bool {
    &&& 0 <= row < app.diff.rows@.len()
    &&& app.diff.rows@[row].kind != crate::diff::RowKind::Equal
    &&& row == 0 || app.diff.rows@[row - 1].kind == crate::diff::RowKind::Equal
}

/// Jumping down brings the first change that begins below the top of the view on screen,
/// jumping up the last that begins above it, and without one the view stays.
pub proof fn a_jump_shows_the_change(app: App, after: App, forward: bool, row: int)
    requires
        app.ready(),
        app.jumped(after, forward),
        app.screen.viewport_height > 3,
    ensures
        forward && app.screen.scroll < row && change_begins(app, row) && (forall|i: int|
            app.screen.scroll < i < row ==> !change_begins(app, i)) ==> after.screen.scroll <= row
            < after.screen.scroll + app.screen.viewport_height,
        !forward && row < app.screen.scroll && change_begins(app, row) && (forall|i: int|
            row < i < app.screen.scroll ==> !change_begins(app, i)) ==> after.screen.scroll <= row
            < after.screen.scroll + app.screen.viewport_height,
        forward && (forall|i: int| app.screen.scroll < i ==> !change_begins(app, i)) ==> after
            == app,
        !forward && (forall|i: int| i < app.screen.scroll ==> !change_begins(app, i)) ==> after
            == app,
{
    assert(app.diff.rows.len() == app.diff.rows@.len());
    let rows = app.diff.rows@;
    let found = choose|found: Option<usize>| #[trigger] app.jumped_to(after, forward, found);
    assert(app.jumped_to(after, forward, found));
    assert(forall|i: int|
        #![trigger crate::diff::hunk_start(rows, i)]
        #![trigger change_begins(app, i)]
        crate::diff::hunk_start(rows, i) <==> change_begins(app, i));
    if change_begins(app, row) {
        assert(crate::diff::hunk_start(rows, row));
    }
    if found is Some {
        assert(change_begins(app, found->0 as int));
        assert(crate::diff::hunk_start(rows, found->0 as int));
    }
}

/// When the files are listed anew, the one that was selected stays selected where it is
/// still listed, and is read again; a failure leaves everything and is reported.
pub proof fn the_selected_file_stays_selected(
    app: App,
    after: App,
    found: Result<Vec<ChangedFile>, String>,
    task: Task,
    row: int,
)
    requires
        app.ready(),
        app.relisted(after, found, task),
        found is Ok ==> app.here() is Some && 0 <= row < found->Ok_0@.len()
            && found->Ok_0@[row].path@ == app.here()->0,
    ensures
        found is Ok ==> {
            &&& task is Load
            &&& after.files == found->Ok_0
            &&& after.selected is Some
            &&& after.selected->0 < after.files@.len()
            &&& after.files@[after.selected->0 as int].path@ == app.files@[app.selected->0 as int].path@
        },
        found is Err ==> {
            &&& task is Nothing
            &&& after.files == app.files
            &&& after.selected == app.selected
            &&& after.buffers == app.buffers
            &&& after.error == Some(found->Err_0)
        },
{
    if let Ok(files) = found {
        assert(files.len() == files@.len());
        let all = crate::app::names(files@);
        assert(all[row] == app.here()->0);
        assert(all.contains(app.here()->0));
        all.index_of_first_ensures(app.here()->0);
    }
}

/// A file that was rewritten and is read again without edits of it keeps its place: the
/// same row and column first, as far as there are any.
pub proof fn a_file_read_again_keeps_its_place(
    app: App,
    asked: App,
    after: App,
    stamp: Option<(u64, u64)>,
    task: Task,
    before_side: Seq<char>,
    content: FileContent,
    editable: bool,
    later: Option<(u64, u64)>,
)
    requires
        app.ready(),
        app.here() is Some,
        stamp != app.screen.disk_stamp,
        app.current() is Some ==> !app.buffers@[app.current()->0].buffer.changed(),
        app.polled(asked, stamp, task),
        asked.loaded(after, before_side, content, editable, later),
    ensures
        task is Load,
        after.selected == app.selected,
        after.screen.disk_stamp == later,
        !after.screen.stale,
        app.screen.scroll + app.screen.viewport_height <= after.diff.rows@.len()
            ==> after.screen.scroll == app.screen.scroll,
        after.screen.scroll == app.screen.scroll || after.screen.scroll == rows_hidden(after),
        after.screen.scroll <= app.screen.scroll,
        after.screen.hscroll <= app.screen.hscroll,
{
    assert(after.diff.rows.len() == after.diff.rows@.len());
}

/// A file that was picked is shown from its first row and column.
pub proof fn a_picked_file_is_shown_from_the_top(
    app: App,
    picked: App,
    after: App,
    index: int,
    task: Task,
    before_side: Seq<char>,
    content: FileContent,
    editable: bool,
    stamp: Option<(u64, u64)>,
)
    requires
        app.ready(),
        app.picked(picked, index, task),
        task is Load,
        picked.loaded(after, before_side, content, editable, stamp),
        0 <= index < app.files@.len(),
    ensures
        after.selected == Some(index as usize),
        after.screen.scroll == 0,
        after.screen.hscroll == 0,
        crate::text::views(after.diff.old@) == crate::editor::reading(before_side),
        after.screen.old_selection is None,
{
    assert(app.files.len() == app.files@.len());
}

/// A save that failed leaves every edit unsaved and says why.
pub proof fn a_failed_save_keeps_the_edits(
    app: App,
    after: App,
    message: Seq<char>,
    stamp: Option<(u64, u64)>,
)
    requires
        app.ready(),
        app.stored(after, Some(message), stamp),
    ensures
        after.buffers == app.buffers,
        after.screen == app.screen,
        after.notice is Some,
        after.notice->0@.len() >= message.len(),
        after.notice->0@.skip(after.notice->0@.len() - message.len()) == message,
{
    let text = "Save failed: "@ + message;
    assert(text.skip(text.len() - message.len()) =~= message);
}

/// A question is answered by yes, which does what was asked about, by no, which does not,
/// and by no other key.
pub proof fn a_question_is_answered_by_yes_or_no(
    app: App,
    after: App,
    key: KeyPress,
    now: u64,
    task: Task,
)
    requires
        app.ready(),
        app.screen.prompt is Some,
        !app.screen.quit,
        app.keyed(after, key, now, task),
    ensures
        ({
            let yes = key.code == Key::Char('y') || key.code == Key::Char('Y');
            let no = key.code == Key::Char('n') || key.code == Key::Char('N') || key.code
                == Key::Esc;
            &&& after.screen.quit <==> yes && app.screen.prompt == Some(Prompt::Quit)
            &&& task is Refresh <==> yes && app.screen.prompt == Some(Prompt::Reload)
            &&& after.screen.prompt is None <==> yes || no
            &&& no ==> after.buffers == app.buffers && task is Nothing
            &&& !yes && !no ==> after.screen.prompt == app.screen.prompt && after.buffers
                == app.buffers
        }),
{
}

/// The keys of the program outside the editor open what they are for, and `q` leaves
/// where nothing is unsaved.
pub proof fn the_shortcuts_do_what_they_say(
    app: App,
    after: App,
    key: KeyPress,
    now: u64,
    task: Task,
)
    requires
        app.ready(),
        app.keyed(after, key, now, task),
        nothing_open(app),
        !app.edits(),
        !key.ctrl && !key.alt,
    ensures
        key.code == Key::Char('?') ==> after.screen.help,
        key.code == Key::Char(',') ==> after.screen.settings == Some(0usize),
        key.code == Key::Char('q') && !app.has_unsaved() ==> after.screen.quit,
        key.code == Key::Char('q') && app.has_unsaved() ==> after.screen.prompt == Some(
            Prompt::Quit,
        ),
        key.code == Key::Char('r') && !app.has_unsaved() ==> task is Refresh,
        key.code == Key::Char('r') && app.has_unsaved() ==> after.screen.prompt == Some(
            Prompt::Reload,
        ) && task is Nothing,
        key.code == Key::BackTab ==> after.screen.focus == app.screen.cycled().focus,
        key.code == Key::Esc ==> after.screen.focus == app.screen.home(),
        after.buffers == app.buffers || task is Load,
{
    let cleared = App {
        notice: None,
        screen: Screen { notice_until: None, ..app.screen },
        ..app
    };
    assert(cleared.buffers == app.buffers);
    assert(cleared.has_unsaved() == app.has_unsaved()) by {
        if app.has_unsaved() {
            let k = choose|k: int|
                0 <= k < app.buffers@.len() && #[trigger] app.buffers@[k].buffer.changed();
            assert(cleared.buffers@[k].buffer.changed());
        }
        if cleared.has_unsaved() {
            let k = choose|k: int|
                0 <= k < cleared.buffers@.len() && #[trigger] cleared.buffers@[k].buffer.changed();
            assert(app.buffers@[k].buffer.changed());
        }
    }
}

/// The text of the selected file's buffer as one text.
pub open spec fn whole(app: App) -> Seq<char> {
    crate::text::joined(app.shown(), "\n"@)
}

/// Where the cursor is.
pub open spec fn cursor(app: App) -> (int, int) {
    app.buffers@[app.current()->0].buffer.at()
}

/// Where the selection was started, if one was.
pub open spec fn anchor(app: App) -> Option<(int, int)> {
    app.buffers@[app.current()->0].buffer.anchor()
}

proof fn ends_are_inside(app: App)
    requires
        app.ready(),
        app.current() is Some,
    ensures
        crate::area::inside(app.shown(), cursor(app)),
        anchor(app) is Some ==> crate::area::inside(app.shown(), anchor(app)->0),
{
    app.current_there();
    assert(app.buffers@[app.current()->0].buffer.sound());
}

proof fn same_current(app: App, after: App)
    requires
        app.ready(),
        app.current() is Some,
        app.kept_but(after, app.current()->0),
        after.files == app.files,
        after.selected == app.selected,
    ensures
        after.current() == app.current(),
        after.shown() == after.buffers@[app.current()->0].buffer.text(),
{
    app.current_there();
    assert(crate::app::paths(after.buffers@) =~= crate::app::paths(app.buffers@));
}

/// Copying takes what lies between the two ends of the selection and changes nothing.
pub proof fn a_copy_takes_what_is_selected(
    app: App,
    after: App,
    key: KeyPress,
    now: u64,
    task: Task,
)
    requires
        app.ready(),
        app.keyed(after, key, now, task),
        nothing_open(app),
        app.edits(),
        anchor(app) is Some,
        key.code == Key::Char('c') && key.ctrl,
    ensures
        ({
            let (from, to) = if crate::area::earlier(anchor(app)->0, cursor(app)) {
                (anchor(app)->0, cursor(app))
            } else {
                (cursor(app), anchor(app)->0)
            };
            &&& task is Copy
            &&& crate::editor::text_before(app.shown(), from) + task->Copy_0@
                + crate::editor::text_behind(app.shown(), to) == whole(app)
            &&& after.buffers == app.buffers
        }),
{
    ends_are_inside(app);
    let (from, to) = crate::area::ordered(anchor(app)->0, cursor(app));
    crate::editor::a_selection_is_what_lies_between(app.shown(), from, to);
}

/// Cutting takes what lies between the two ends of the selection, and leaves what is
/// before it and behind it.
pub proof fn a_cut_takes_what_is_selected(
    app: App,
    after: App,
    key: KeyPress,
    now: u64,
    task: Task,
)
    requires
        app.ready(),
        app.keyed(after, key, now, task),
        nothing_open(app),
        app.edits(),
        anchor(app) is Some,
        key.code == Key::Char('x') && key.ctrl,
    ensures
        ({
            let (from, to) = if crate::area::earlier(anchor(app)->0, cursor(app)) {
                (anchor(app)->0, cursor(app))
            } else {
                (cursor(app), anchor(app)->0)
            };
            &&& task is Copy
            &&& crate::editor::text_before(app.shown(), from) + task->Copy_0@
                + crate::editor::text_behind(app.shown(), to) == whole(app)
            &&& whole(after) == crate::editor::text_before(app.shown(), from)
                + crate::editor::text_behind(app.shown(), to)
        }),
{
    ends_are_inside(app);
    app.current_there();
    let (from, to) = crate::area::ordered(anchor(app)->0, cursor(app));
    crate::editor::a_selection_is_what_lies_between(app.shown(), from, to);
    let nothing = seq![Seq::<char>::empty()];
    crate::editor::a_replacement_goes_between(app.shown(), from, to, nothing);
    assert(crate::text::joined(nothing, "\n"@) =~= Seq::<char>::empty());
    same_current(app, after);
    assert(crate::area::target(cursor(app), anchor(app)) == (from, to));
    assert(crate::editor::text_before(app.shown(), from) + Seq::<char>::empty()
        =~= crate::editor::text_before(app.shown(), from));
}

/// A text that is pasted stands in the place of the selection, or at the cursor. The text
/// has no carriage returns.
pub proof fn a_paste_goes_in_as_it_is(app: App, after: App, text: Seq<char>, now: u64)
    requires
        app.ready(),
        app.edits(),
        app.pasted(after, text, now),
        !text.contains('\r'),
    ensures
        anchor(app) is None ==> whole(after) == crate::editor::text_before(
            app.shown(),
            cursor(app),
        ) + text + crate::editor::text_behind(app.shown(), cursor(app)),
        anchor(app) is Some ==> {
            let (from, to) = if crate::area::earlier(anchor(app)->0, cursor(app)) {
                (anchor(app)->0, cursor(app))
            } else {
                (cursor(app), anchor(app)->0)
            };
            whole(after) == crate::editor::text_before(app.shown(), from) + text
                + crate::editor::text_behind(app.shown(), to)
        },
        anchor(after) is None,
{
    ends_are_inside(app);
    app.current_there();
    let (from, to) = crate::area::target(cursor(app), anchor(app));
    crate::editor::a_text_is_its_lines(text);
    crate::editor::a_replacement_goes_between(
        app.shown(),
        from,
        to,
        crate::area::text_lines(text),
    );
    same_current(app, after);
}

/// A character that is typed stands where the cursor was, and the cursor goes behind it.
pub proof fn a_typed_character_goes_in_at_the_cursor(
    app: App,
    after: App,
    key: KeyPress,
    now: u64,
    task: Task,
    ch: char,
)
    requires
        app.ready(),
        app.keyed(after, key, now, task),
        nothing_open(app),
        app.edits(),
        anchor(app) is None,
        key.code == Key::Char(ch),
        !key.ctrl && !key.alt,
        ch != '\n' && ch != '\r',
    ensures
        whole(after) == crate::editor::text_before(app.shown(), cursor(app)).push(ch)
            + crate::editor::text_behind(app.shown(), cursor(app)),
        cursor(after) == (cursor(app).0, cursor(app).1 + 1),
        after.screen.typed_at == Some(now),
        task is Nothing,
{
    ends_are_inside(app);
    app.current_there();
    let cleared = App {
        notice: None,
        screen: Screen { notice_until: None, ..app.screen },
        ..app
    };
    assert(cleared.current() == app.current());
    assert(cleared.edited(after, key, now, task));
    assert(cleared.typed(after, key, now));
    let changed = choose|changed: bool| #[trigger] cleared.typed_in(after, key, now, changed);
    assert(cleared.typed_in(after, key, now, changed));
    let piece = seq![seq![ch]];
    crate::editor::a_replacement_goes_between(app.shown(), cursor(app), cursor(app), piece);
    assert(crate::text::joined(piece, "\n"@) =~= seq![ch]);
    same_current(app, after);
    let before = crate::editor::text_before(app.shown(), cursor(app));
    assert(before + seq![ch] =~= before.push(ch));
}

/// Just after a key was typed the wheel moves nothing, for as many milliseconds as are
/// set.
pub proof fn the_wheel_waits_after_a_key(
    app: App,
    after: App,
    mouse: Mouse,
    now: u64,
    task: Task,
    typed: u64,
)
    requires
        app.ready(),
        app.moused(after, mouse, now, task),
        app.edits(),
        app.screen.typed_at == Some(typed),
        typed <= now,
        App::scrolls(mouse.kind),
        now - typed < app.config.momentum_delay_ms * 1_000_000,
    ensures
        after == app,
        task is Nothing,
{
}

/// The wheel scrolls again once that time is over, and at once where none is set or where
/// nothing is being edited.
pub proof fn the_wheel_scrolls_again(app: App, now: u64, typed: u64)
    requires
        app.screen.typed_at == Some(typed),
        typed <= now,
        now - typed >= app.config.momentum_delay_ms * 1_000_000 || !app.edits(),
    ensures
        !app.guarded(now),
{
}

/// A notice that was to go by a time is gone once that time has come.
pub proof fn a_notice_goes_when_it_is_due(app: App, after: App, now: u64, until: u64)
    requires
        app.ready(),
        app.screen.notice_until == Some(until),
        app.screen.edge_drag is None,
        app.ticked(after, now),
    ensures
        until <= now ==> after.notice is None && after.screen.notice_until is None,
        until <= now ==> after.buffers == app.buffers,
        until > now ==> after.notice == app.notice,
        until > now ==> app.due(now) is Some && app.due(now)->0 <= until - now,
{
}

/// The widest line is as wide as the program measures it: none is wider, and one is just
/// as wide.
pub proof fn no_line_is_wider_than_the_widest(lines: Seq<Seq<char>>, tab: usize)
    ensures
        forall|i: int|
            0 <= i < lines.len() ==> crate::columns::capped(
                crate::columns::columns(#[trigger] lines[i], tab),
            ) <= crate::app::widest(lines, tab),
        lines.len() > 0 && crate::app::widest(lines, tab) > 0 ==> exists|i: int|
            0 <= i < lines.len() && crate::columns::capped(
                crate::columns::columns(#[trigger] lines[i], tab),
            ) == crate::app::widest(lines, tab),
    decreases lines.len(),
{
    if lines.len() > 0 {
        let init = lines.drop_last();
        no_line_is_wider_than_the_widest(init, tab);
        assert forall|i: int| 0 <= i < lines.len() implies crate::columns::capped(
            crate::columns::columns(#[trigger] lines[i], tab),
        ) <= crate::app::widest(lines, tab) by {
            if i < init.len() {
                assert(init[i] == lines[i]);
            }
        }
        let last = crate::columns::capped(crate::columns::columns(lines.last(), tab));
        if crate::app::widest(lines, tab) == last {
            assert(crate::columns::capped(crate::columns::columns(lines[lines.len() - 1], tab))
                == last);
        } else if crate::app::widest(lines, tab) > 0 {
            if init.len() == 0 {
                assert(crate::app::widest(init, tab) == 0);
            }
            let i = choose|i: int|
                0 <= i < init.len() && crate::columns::capped(
                    crate::columns::columns(#[trigger] init[i], tab),
                ) == crate::app::widest(init, tab);
            assert(lines[i] == init[i]);
        }
    }
}

/// Dragging over a line of the Current side takes the cursor along and leaves the other
/// end of the selection. The pointer is inside the pane, and the line is one of printable
/// ASCII.
#[verifier::spinoff_prover]
pub proof fn a_drag_takes_the_cursor_along(
    app: App,
    after: App,
    mouse: Mouse,
    now: u64,
    task: Task,
    row: int,
    line: usize,
)
    requires
        app.ready(),
        app.moused(after, mouse, now, task),
        nothing_open(app),
        mouse.kind == MouseKind::Drag(Button::Left),
        app.screen.drag is None,
        app.screen.selecting == Some(Pane::New),
        app.current() is Some,
        app.screen.panes@[2].y < mouse.at.y,
        mouse.at.y + 2 <= app.screen.panes@[2].y + app.screen.panes@[2].height,
        app.screen.panes@[2].x + 1 + crate::columns::gutter(app.shown().len() as int) + 1
            <= mouse.at.x,
        mouse.at.x + 2 <= app.screen.panes@[2].x + app.screen.panes@[2].width,
        row == app.screen.scroll + mouse.at.y - app.screen.panes@[2].y - 1,
        0 <= row < app.diff.rows@.len(),
        app.diff.rows@[row].new_line == Some(line),
        crate::area::narrow(app.shown()[line as int]),
        app.shown()[line as int].len() <= u16::MAX,
        line <= u16::MAX,
        mouse.at.x + app.screen.hscroll <= usize::MAX,
    ensures
        ({
            let left = app.screen.panes@[2].x + 1 + crate::columns::gutter(
                app.shown().len() as int,
            ) + 1;
            let col = mouse.at.x - left + app.screen.hscroll;
            let len = app.shown()[line as int].len();
            &&& cursor(after) == (line as int, if col < len {
                col
            } else {
                len as int
            })
            &&& anchor(after) == anchor(app)
            &&& after.screen.scroll == app.screen.scroll
            &&& after.screen.hscroll == app.screen.hscroll
            &&& whole(after) == whole(app)
        }),
{
    app.current_there();
    let found = choose|found: Option<(usize, usize)>| #[trigger]
        app.extended_to(after, Pane::New, mouse.at, found);
    assert(app.extended(after, Pane::New, mouse.at));
    assert(app.extended_to(after, Pane::New, mouse.at, found));
    let pulled = app.pulled(Pane::New, mouse.at);
    assert(app.side_lines(Pane::New) == app.shown());
    assert(pulled == app.seen(Screen { edge_drag: None, ..app.screen }));
    assert(pulled.current() == app.current());
    assert(pulled.shown() == app.shown());
    assert(pulled.tab() == app.tab());
    let cell = app.nearest(Pane::New, mouse.at);
    assert(cell.0 == mouse.at.x && cell.1 == mouse.at.y);
    crate::diff::rows_name_lines(&app.diff, app.shown());
    pointed_place(pulled, Pane::New, mouse.at.x as int, mouse.at.y as int, found, row, line);
    same_current(app, after);
}

/// What runs say, one after the other.
pub open spec fn said(runs: Seq<Shown>) -> Seq<char>
    decreases runs.len(),
{
    if runs.len() == 0 {
        Seq::empty()
    } else {
        said(runs.drop_last()) + runs.last().text
    }
}

proof fn tinted_says_its_cells(parts: Seq<(String, bool)>, paper: crate::ui::Paper)
    ensures
        said(crate::ui::tinted(parts, paper)) == crate::columns::flat(parts).map_values(
            |cell: (char, bool)| cell.0,
        ),
    decreases parts.len(),
{
    let all = crate::ui::tinted(parts, paper);
    if parts.len() == 0 {
        assert(said(all) =~= crate::columns::flat(parts).map_values(|cell: (char, bool)| cell.0));
    } else {
        let init = parts.drop_last();
        tinted_says_its_cells(init, paper);
        assert(all.drop_last() =~= crate::ui::tinted(init, paper));
        assert(said(all) =~= crate::columns::flat(parts).map_values(|cell: (char, bool)| cell.0));
    }
}

/// A row shows the number of its line on a side, counted from one, and behind it the line
/// as it is from the column the view is scrolled to, as far as there is room. The line is
/// one of printable ASCII, and nothing on the side is selected.
pub proof fn a_row_shows_its_line(
    app: App,
    shown: Seq<Shown>,
    i: int,
    old_side: bool,
    width: int,
    line: usize,
)
    requires
        app.ready(),
        0 <= i < app.diff.rows@.len(),
        crate::ui::row_shows(app, shown, app.diff.rows@[i], old_side, width, None),
        old_side ==> app.diff.rows@[i].old_line == Some(line),
        !old_side ==> app.diff.rows@[i].new_line == Some(line),
        0 <= width,
        app.screen.hscroll + width <= usize::MAX,
        ({
            let text = if old_side {
                app.diff.old@[line as int]@
            } else {
                app.shown()[line as int]
            };
            crate::area::narrow(text)
        }),
    ensures
        ({
            let text = if old_side {
                app.diff.old@[line as int]@
            } else {
                app.shown()[line as int]
            };
            let count = if old_side {
                app.diff.old@.len()
            } else {
                app.shown().len()
            };
            let digits = crate::columns::gutter(count as int);
            let room = if width > digits + 1 {
                width - (digits + 1)
            } else {
                0
            };
            let from = app.screen.hscroll as int;
            let to = if from + room < text.len() {
                from + room
            } else {
                text.len() as int
            };
            &&& shown.len() > 0
            &&& shown[0].text.len() > 0
            &&& is_number(shown[0].text.drop_last(), line + 1)
            &&& shown[0].text.last() == ' '
            &&& from <= to ==> said(shown.skip(1)) == text.subrange(from, to)
            &&& from > to ==> said(shown.skip(1)).len() == 0
        }),
{
    crate::diff::rows_name_lines(&app.diff, app.shown());
    let pane = if old_side {
        Pane::Old
    } else {
        Pane::New
    };
    let lines = app.side_lines(pane);
    let text = lines[line as int];
    let gutter = crate::columns::gutter(lines.len() as int);
    let room = crate::screen::at_least(width - (gutter + 1), 0);
    let hscroll = app.screen.hscroll as int;
    let paper = crate::ui::row_paper(app.diff.rows@[i].kind, old_side);
    let digits = crate::text::decimal(line + 1);
    let number = Shown {
        text: crate::text::right_set(digits, gutter).push(' '),
        style: crate::ui::styled(crate::ui::Ink::Gutter, crate::ui::Paper::Plain),
    };
    let seen = crate::columns::visible(
        text,
        hscroll,
        crate::columns::capped(hscroll + room),
        app.tab(),
        None,
    );
    let parts = choose|parts: Seq<(String, bool)>|
        #![trigger crate::ui::tinted(parts, paper)]
        crate::columns::maximal(parts) && crate::columns::flat(parts) == seen && shown == seq![
            number,
        ] + crate::ui::tinted(parts, paper);
    assert(shown == seq![number] + crate::ui::tinted(parts, paper));
    assert(shown.skip(1) =~= crate::ui::tinted(parts, paper));
    tinted_says_its_cells(parts, paper);
    crate::text::a_number_reads_back(line + 1);
    let field = number.text.drop_last();
    assert(field =~= crate::text::run(' ', gutter - digits.len()) + digits);
    assert(field.skip(field.len() - digits.len()) =~= digits);
    assert forall|i: int| field.len() - digits.len() <= i < field.len() implies '0'
        <= #[trigger] field[i] && field[i] <= '9' by {
        assert(field[i] == digits[i - (field.len() - digits.len())]);
    }
    assert(is_number(field, line + 1));
    crate::columns::a_plain_line_is_shown_as_it_is(
        text,
        hscroll,
        hscroll + room,
        app.tab(),
        None,
    );
    crate::columns::a_plain_line_fills_its_columns(text, hscroll, hscroll + room, app.tab());
    let to = if hscroll + room < text.len() {
        hscroll + room
    } else {
        text.len() as int
    };
    let cells = seen.map_values(|cell: (char, bool)| cell.0);
    if hscroll <= to {
        assert(cells =~= text.subrange(hscroll, to));
    }
}

/// A text is blanks and then the digits of a number.
pub open spec fn is_number(text: Seq<char>, n: int) -> bool {
    exists|k: int|
        #![trigger text.skip(k)]
        0 <= k <= text.len() && (forall|i: int| 0 <= i < k ==> text[i] == ' ')
            && crate::text::spelled(text.skip(k)) == n && forall|i: int|
            k <= i < text.len() ==> '0' <= #[trigger] text[i] && text[i] <= '9'
}

/// The cursor of the terminal is put on the cell that a click would put the cursor of the
/// text on: the cell shows the place of the cursor. Its line is one of printable ASCII.
pub proof fn the_cursor_is_drawn_where_a_click_finds_it(
    app: App,
    found: Option<(usize, usize)>,
)
    requires
        app.ready(),
        app.edits(),
        crate::ui::cursor_cell_at(app, app.screen.panes@[2]) is Some,
        ({
            let (x, y) = crate::ui::cursor_cell_at(app, app.screen.panes@[2])->0;
            app.pointed(Pane::New, x, y, found)
        }),
        crate::area::narrow(app.shown()[cursor(app).0]),
        app.screen.hscroll + u16::MAX <= usize::MAX,
    ensures
        found is Some,
        (found->0).0 == cursor(app).0,
        (found->0).1 == cursor(app).1,
{
    app.current_there();
    ends_are_inside(app);
    let (x, y) = crate::ui::cursor_cell_at(app, app.screen.panes@[2])->0;
    let row = app.row_of(cursor(app).0);
    assert(app.diff.new_line_to_row.len() == app.diff.new_line_to_row@.len());
    assert(app.diff.new_line_to_row@[cursor(app).0] is Some);
    let line = cursor(app).0 as usize;
    assert(app.diff.rows@[row].new_line == Some(line));
    pointed_place(app, Pane::New, x, y, found, row, line);
    crate::columns::a_plain_place_is_its_column(app.shown()[line as int], cursor(app).1, app.tab());
}

/// The list names each file by the letter of its status and its path, with a star before
/// it where it has unsaved edits and an exclamation mark where it is the selected one and
/// was rewritten under them.
pub proof fn the_list_names_each_file(app: App, i: int)
    requires
        app.ready(),
        0 <= i < app.files@.len(),
    ensures
        ({
            let runs = crate::ui::file_lines(app)[i];
            let file = app.files@[i];
            let open = exists|k: int|
                0 <= k < app.buffers@.len() && (#[trigger] app.buffers@[k]).path@ == file.path@
                    && app.buffers@[k].buffer.changed();
            let here = app.selected is Some && app.files@[app.selected->0 as int].path@
                == file.path@;
            &&& crate::ui::file_lines(app).len() == app.files@.len()
            &&& runs.len() == 3
            &&& runs[2].text == file.path@
            &&& runs[1].text == seq![
                match file.status {
                    crate::git::Status::Modified => 'M',
                    crate::git::Status::Added => 'A',
                    crate::git::Status::Deleted => 'D',
                    crate::git::Status::Renamed => 'R',
                },
                ' ',
            ]
            &&& runs[0].text == (if app.screen.stale && here {
                "!"@
            } else if open {
                "*"@
            } else {
                " "@
            })
        }),
{
    let file = app.files@[i];
    let all = crate::app::paths(app.buffers@);
    all.index_of_first_ensures(file.path@);
    let open = exists|k: int|
        0 <= k < app.buffers@.len() && (#[trigger] app.buffers@[k]).path@ == file.path@
            && app.buffers@[k].buffer.changed();
    if open {
        let k = choose|k: int|
            0 <= k < app.buffers@.len() && (#[trigger] app.buffers@[k]).path@ == file.path@
                && app.buffers@[k].buffer.changed();
        assert(all[k] == file.path@);
        assert(all.contains(file.path@));
        let j = all.index_of_first(file.path@)->0;
        assert(all[j] == all[k]);
        assert(j == k);
    }
    if all.index_of_first(file.path@) is Some {
        let j = all.index_of_first(file.path@)->0;
        assert(all.contains(file.path@));
        assert(all[j] == file.path@);
        assert(app.buffers@[j].path@ == file.path@);
    }
}

/// The Current side is titled by what it shows, with a star before it while it has edits
/// that are not saved; the Before side never has one.
pub proof fn a_title_tells_of_unsaved_edits(app: App, label: Seq<char>)
    requires
        app.ready(),
        label.len() > 0,
    ensures
        ({
            let edited = app.current() is Some && app.shown() != crate::text::views(
                app.buffers@[app.current()->0].buffer.loaded@,
            );
            &&& crate::ui::side_title(app, true, label) == label + " / Before"@
            &&& edited && !crate::text::white('*') ==> crate::ui::side_title(app, false, label)
                == "* "@ + label + " / Current"@
            &&& !edited && crate::text::white(' ') && !crate::text::white(label[0])
                ==> crate::ui::side_title(app, false, label) == label + " / Current"@
        }),
{
    app.current_there();
    reveal_strlit("*");
    reveal_strlit("");
    reveal_strlit(" ");
    reveal_strlit("* ");
    let rest = label + " / Current"@;
    assert("*"@ + " "@ + label + " / Current"@ =~= "* "@ + label + " / Current"@);
    assert(("* "@ + label + " / Current"@)[0] == '*');
    let plain = ""@ + " "@ + label + " / Current"@;
    assert(plain[0] == ' ');
    assert(plain.skip(1) =~= rest);
    assert(rest[0] == label[0]);
    reveal_with_fuel(crate::text::trimmed_start, 2);
}

/// A row of the history shows its commit: the short id and the start of the subject, or
/// the working tree above them all, with a mark before the one that is compared.
pub proof fn a_row_of_history_shows_its_commit(
    commits: crate::commits::Commits,
    row: int,
    width: int,
    focused: bool,
)
    requires
        0 <= row <= commits.rows@.len(),
        row > 0 ==> commits.rows@[row - 1].short@.len() > 0,
        row > 0 ==> crate::area::narrow(commits.rows@[row - 1].subject@),
    ensures
        ({
            let runs = crate::ui::commit_line(commits, row, width, focused);
            &&& row > 0 ==> runs.len() == 3 && runs[1].text == commits.rows@[row - 1].short@.push(
                ' ',
            )
            &&& row > 0 ==> {
                let said = runs[2].text;
                said.len() <= commits.rows@[row - 1].subject@.len() && said
                    == commits.rows@[row - 1].subject@.take(said.len() as int)
            }
            &&& row == 0 ==> runs.len() == 2
            &&& runs[0].text == (if commits.targets(row) {
                ">"@
            } else {
                " "@
            })
        }),
{
    reveal_strlit(" ");
    reveal_strlit("");
    if row > 0 {
        let id = commits.rows@[row - 1].short@;
        let subject = commits.rows@[row - 1].subject@;
        assert(id + " "@ =~= id.push(' '));
        let room = crate::screen::at_least(width - (1 + crate::columns::text_cells(id) + 1), 0);
        crate::columns::a_plain_text_is_cut_to_its_start(subject, room);
    }
}

/// A panel has as much of the body on its left as on its right, and as much above it as
/// below, but for one cell.
pub proof fn a_panel_is_in_the_middle(body: crate::input::Rect, width: int, rows: int)
    requires
        0 <= width,
        0 <= rows,
        body.x + body.width <= u16::MAX,
        body.y + body.height <= u16::MAX,
    ensures
        ({
            let area = crate::ui::centred(body, width, rows);
            let left = area.x - body.x;
            let right = body.x + body.width - (area.x + area.width);
            let above = area.y - body.y;
            let below = body.y + body.height - (area.y + area.height);
            &&& 0 <= left <= right <= left + 1
            &&& 0 <= above <= below <= above + 1
            &&& width <= body.width ==> area.width == width
            &&& rows + 2 <= body.height ==> area.height == rows + 2
        }),
{
}

/// Dragging past an edge of a pane scrolls toward the pointer, a row or four columns at a
/// time, as far as there is text that way, and not at all inside the pane.
pub proof fn a_drag_past_an_edge_scrolls(app: App, pane: Pane, at: crate::input::Position)
    requires
        app.ready(),
        pane == Pane::Old || pane == Pane::New,
        app.screen.area_of(pane).height >= 2,
        app.screen.area_of(pane).width >= 2,
    ensures
        ({
            let area = app.screen.area_of(pane);
            let after = app.pulled(pane, at);
            let above = at.y <= area.y;
            let below = at.y + 1 >= area.y + area.height;
            let beyond = at.x + 1 >= area.x + area.width;
            &&& above && app.screen.scroll > 0 && app.screen.scroll <= rows_hidden(app)
                ==> after.screen.scroll == app.screen.scroll - 1
            &&& !above && below && app.screen.scroll < rows_hidden(app) ==> after.screen.scroll
                == app.screen.scroll + 1
            &&& !above && !below ==> after.screen.scroll == app.screen.scroll
            &&& at.x <= area.x && app.screen.hscroll < 4 ==> after.screen.hscroll == 0
            &&& at.x <= area.x && 4 <= app.screen.hscroll && app.screen.hscroll - 4
                + app.text_cols() <= app.screen.longest ==> after.screen.hscroll
                == app.screen.hscroll - 4
            &&& beyond && area.x + 1 + crate::columns::gutter(app.side_lines(pane).len() as int)
                + 1 <= at.x && app.screen.hscroll + 4 + app.text_cols() <= app.screen.longest
                ==> after.screen.hscroll == app.screen.hscroll + 4
            &&& after.buffers == app.buffers
            &&& after.screen.selecting == app.screen.selecting
        }),
{
    assert(app.diff.rows.len() == app.diff.rows@.len());
    let lines = app.side_lines(pane).len() as int;
    if lines >= 1 {
        crate::columns::the_gutter_holds_the_largest_number(lines);
    }
}

/// In the settings panel the arrows go through the settings, right and left change the
/// one they are on by a step, and it is left by Esc and by `q`.
pub proof fn the_settings_are_walked(
    app: App,
    after: App,
    key: KeyPress,
    now: u64,
    task: Task,
    row: usize,
)
    requires
        app.ready(),
        app.keyed(after, key, now, task),
        app.screen.prompt is None,
        !app.screen.help,
        app.screen.settings == Some(row),
    ensures
        key.code == Key::Down && row < 7 ==> after.screen.settings == Some((row + 1) as usize),
        key.code == Key::Down && row == 7 ==> after.screen.settings == Some(7usize),
        key.code == Key::Up && row > 0 ==> after.screen.settings == Some((row - 1) as usize),
        key.code == Key::Up && row == 0 ==> after.screen.settings == Some(0usize),
        key.code == Key::Home ==> after.screen.settings == Some(0usize),
        key.code == Key::End ==> after.screen.settings == Some(7usize),
        key.code == Key::Esc || key.code == Key::Char('q') ==> after.screen.settings is None
            && !after.screen.quit == !app.screen.quit,
        key.code == Key::Right ==> crate::settings::ALL@[row as int].adjusted(
            app.config,
            after.config,
            1,
        ) && after.screen.settings == Some(row),
        key.code == Key::Left ==> crate::settings::ALL@[row as int].adjusted(
            app.config,
            after.config,
            -1,
        ) && after.screen.settings == Some(row),
        key.code != Key::Right && key.code != Key::Left && key.code != Key::Enter && key.code
            != Key::Char(' ') ==> after.config == app.config,
        task is SaveConfig ==> app.has_config && after.config@ != app.config@,
        after.config@ != app.config@ && app.has_config ==> task is SaveConfig,
{
}

/// The list of keys is scrolled by the arrows and closed by any other key, which does
/// nothing else.
pub proof fn the_key_list_is_closed_by_any_key(
    app: App,
    after: App,
    key: KeyPress,
    now: u64,
    task: Task,
)
    requires
        app.ready(),
        app.keyed(after, key, now, task),
        app.screen.prompt is None,
        app.screen.help,
    ensures
        task is Nothing,
        after.screen.help <==> key.code == Key::Down || key.code == Key::Up,
        key.code == Key::Down && app.screen.help_scroll < usize::MAX ==> after.screen.help_scroll
            == app.screen.help_scroll + 1,
        key.code == Key::Up && app.screen.help_scroll > 0 ==> after.screen.help_scroll
            == app.screen.help_scroll - 1,
        after.buffers == app.buffers,
        after.screen.quit == app.screen.quit,
{
}

/// In the editor the chords of the program go before the text: undo and redo walk the
/// history a step back and a step on, and saving and pasting are asked for.
pub proof fn the_chords_go_before_the_text(
    app: App,
    after: App,
    key: KeyPress,
    now: u64,
    task: Task,
)
    requires
        app.ready(),
        app.keyed(after, key, now, task),
        nothing_open(app),
        app.edits(),
        key.ctrl,
    ensures
        ({
            let k = app.current()->0;
            let before = app.buffers@[k].buffer;
            let buffer = after.buffers@[k].buffer;
            &&& key.code == Key::Char('s') ==> task is Save && after.buffers == app.buffers
            &&& key.code == Key::Char('v') ==> task is Paste && after.buffers == app.buffers
            &&& key.code == Key::Char('z') && before.index > 0 ==> buffer.text()
                == before.history()[before.index - 1].lines && buffer.index == before.index - 1
            &&& key.code == Key::Char('z') && before.index == 0 ==> after.buffers == app.buffers
            &&& key.code == Key::Char('y') && before.index + 1 < before.history().len()
                ==> buffer.text() == before.history()[before.index + 1].lines && buffer.index
                == before.index + 1
            &&& key.code == Key::Char('y') && before.index + 1 == before.history().len()
                ==> after.buffers == app.buffers
            &&& key.code == Key::Char('b') ==> after.screen.files_hidden
                != app.screen.files_hidden && after.buffers == app.buffers
        }),
{
    app.current_there();
}

/// Copying from the Before side takes what lies between the two ends of its selection,
/// whichever was first.
pub proof fn a_copy_from_the_before_side_takes_what_is_selected(
    app: App,
    after: App,
    key: KeyPress,
    now: u64,
    task: Task,
    a: (usize, usize),
    b: (usize, usize),
)
    requires
        app.ready(),
        app.keyed(after, key, now, task),
        nothing_open(app),
        app.screen.focus == Pane::Old,
        key.code == Key::Char('c') && key.ctrl,
        app.screen.old_selection == Some((a, b)) || app.screen.old_selection == Some((b, a)),
        a.0 < b.0 || (a.0 == b.0 && a.1 < b.1),
        crate::area::inside(
            crate::text::views(app.diff.old@),
            (a.0 as int, a.1 as int),
        ),
        crate::area::inside(
            crate::text::views(app.diff.old@),
            (b.0 as int, b.1 as int),
        ),
    ensures
        ({
            let lines = crate::text::views(app.diff.old@);
            &&& task is Copy
            &&& crate::editor::text_before(lines, (a.0 as int, a.1 as int)) + task->Copy_0@
                + crate::editor::text_behind(lines, (b.0 as int, b.1 as int))
                == crate::text::joined(lines, "\n"@)
            &&& after.buffers == app.buffers
            &&& !after.screen.quit == !app.screen.quit
        }),
{
    let lines = crate::text::views(app.diff.old@);
    crate::editor::a_selection_is_what_lies_between(
        lines,
        (a.0 as int, a.1 as int),
        (b.0 as int, b.1 as int),
    );
    assert(crate::screen::covering(app.screen.old_selection) == Some((a, b)));
}

/// A divider that is pressed on follows the pointer until the button is let go, and the
/// text stays.
pub proof fn a_divider_is_dragged(
    app: App,
    held: App,
    moved: App,
    free: App,
    at: (crate::input::Position, crate::input::Position, crate::input::Position),
    times: (u64, u64, u64),
    tasks: (Task, Task, Task),
    mods: (bool, bool, bool),
    index: usize,
)
    requires
        app.ready(),
        nothing_open(app),
        app.screen.button_under(at.0) is None,
        app.screen.divider(at.0) == Some(index),
        app.moused(
            held,
            Mouse {
                kind: MouseKind::Down(Button::Left),
                at: at.0,
                ctrl: mods.0,
                alt: mods.1,
                shift: mods.2,
            },
            times.0,
            tasks.0,
        ),
        held.moused(
            moved,
            Mouse {
                kind: MouseKind::Drag(Button::Left),
                at: at.1,
                ctrl: mods.0,
                alt: mods.1,
                shift: mods.2,
            },
            times.1,
            tasks.1,
        ),
        moved.moused(
            free,
            Mouse {
                kind: MouseKind::Up(Button::Left),
                at: at.2,
                ctrl: mods.0,
                alt: mods.1,
                shift: mods.2,
            },
            times.2,
            tasks.2,
        ),
    ensures
        moved.screen.weights@ == app.screen.dragged(index as int, at.1.x as int),
        free.screen.weights == moved.screen.weights,
        free.screen.drag is None,
        free.buffers == app.buffers,
        free.screen.scroll == app.screen.scroll,
        tasks.0 is Nothing && tasks.1 is Nothing && tasks.2 is Nothing,
{
}

/// A file that is opened for editing has tabs as wide as its own lines indent, where the
/// config asks for that and they tell, and as wide as the config says else.
pub proof fn a_file_has_its_own_tabs(
    app: App,
    after: App,
    before_side: Seq<char>,
    file: crate::git::TextFile,
    stamp: Option<(u64, u64)>,
)
    requires
        app.sane(),
        app.selected is Some,
        app.current() is None,
        app.loaded(after, before_side, FileContent::Text(file), true, stamp),
    ensures
        ({
            let lines = crate::editor::lines_in(file.body@);
            &&& after.shown() == lines
            &&& !app.config.detect_indent ==> after.tab() == app.config.indent_width
            &&& app.config.detect_indent ==> (exists|tabs: bool|
                #[trigger] crate::config::detects(
                    lines,
                    Some(crate::config::Indent { width: after.tab(), tabs }),
                )) || (crate::config::detects(lines, None) && after.tab()
                == app.config.indent_width)
            &&& after.readonly@.len() == 0
            &&& after.screen.disk_stamp == stamp
        }),
{
    app.current_there();
    let path = app.here()->0;
    let all = crate::app::paths(after.buffers@);
    assert(all[after.buffers@.len() - 1] == path);
    assert(all.contains(path));
    all.index_of_first_ensures(path);
    let k = all.index_of_first(path)->0;
    if k < app.buffers@.len() {
        assert(after.buffers@.drop_last()[k] == after.buffers@[k]);
        assert(crate::app::paths(app.buffers@)[k] == path);
        assert(crate::app::paths(app.buffers@).contains(path));
    }
    assert(after.current() == Some(k));
    let buffer = after.buffers@.last().buffer;
    assert(app.config.indents(lines_of(file), buffer.indent));
}

spec fn lines_of(file: crate::git::TextFile) -> Seq<Seq<char>> {
    crate::editor::lines_in(file.body@)
}

/// The text has what its pane has left beside the borders and the line numbers: the pane
/// is the narrower of the two, and the numbers are as wide as the largest of either side
/// and a blank.
pub proof fn the_text_has_the_rest_of_the_pane(app: App)
    requires
        app.ready(),
        app.diff.old@.len() > 0,
        app.shown().len() > 0,
    ensures
        ({
            let old = crate::text::decimal(app.diff.old@.len() as int).len();
            let new = crate::text::decimal(app.shown().len() as int).len();
            let digits = if old >= new {
                old as int
            } else {
                new as int
            };
            let left = app.screen.panes@[1].width as int;
            let right = app.screen.panes@[2].width as int;
            &&& left <= right && left >= digits + 3 ==> app.text_cols() + digits + 3 == left
            &&& right <= left && right >= digits + 3 ==> app.text_cols() + digits + 3 == right
            &&& left < digits + 3 || right < digits + 3 ==> app.text_cols() == 0
        }),
{
}

/// A stretch that a diff had no time for is refined while one of its rows is on screen,
/// and not before.
pub proof fn what_is_on_screen_is_refined(app: App, k: int, row: int)
    requires
        app.ready(),
        0 <= k < app.diff.coarse@.len(),
        app.screen.scroll + app.screen.viewport_height <= usize::MAX,
    ensures
        app.diff.span_start(k) <= row < app.diff.span_end(k) && app.screen.scroll <= row
            < app.screen.scroll + app.screen.viewport_height ==> app.shows_coarse(),
        app.shows_coarse() ==> exists|j: int|
            0 <= j < app.diff.coarse@.len() && #[trigger] on_screen(app, j),
        app.shows_coarse() && app.screen.selecting is None && app.screen.notice_until is None
            ==> app.due(0) == Some(300_000_000int),
{
    let view = app.view_from(app.screen.scroll);
    if app.diff.span_start(k) <= row < app.diff.span_end(k) && app.screen.scroll <= row
        < app.screen.scroll + app.screen.viewport_height {
        assert(app.diff.meets(k, view));
    }
    if app.shows_coarse() {
        let j = choose|j: int| 0 <= j < app.diff.coarse@.len() && #[trigger] app.diff.meets(j, view);
        app.diff.span_facts(app.shown(), j);
        let first = app.diff.span_start(j);
        let shown = if first >= app.screen.scroll {
            first
        } else {
            app.screen.scroll as int
        };
        assert(is_row_of(app, j, shown));
        assert(on_screen(app, j));
    }
}

/// A row of a stretch that is on screen.
pub open spec fn is_row_of(app: App, k: int, row: int) -> bool {
    app.diff.span_start(k) <= row < app.diff.span_end(k) && app.screen.scroll <= row
        < app.screen.scroll + app.screen.viewport_height
}

/// Some row of a stretch is on screen.
pub open spec fn on_screen(app: App, k: int) -> bool {
    exists|row: int| is_row_of(app, k, row)
}

/// The footer counts the rows on screen from one: the first, the last and how many there
/// are.
pub proof fn the_footer_counts_the_rows(app: App)
    requires
        app.ready(),
        app.screen.scroll < app.diff.rows@.len(),
        app.screen.viewport_height > 0,
    ensures
        exists|first: Seq<char>, last: Seq<char>, all: Seq<char>|
            #![trigger crate::text::spelled(first), crate::text::spelled(last), crate::text::spelled(all)]
            crate::text::spelled(first) == app.screen.scroll + 1 && crate::text::spelled(last) == (
            if app.screen.scroll + app.screen.viewport_height <= app.diff.rows@.len() {
                app.screen.scroll + app.screen.viewport_height
            } else {
                app.diff.rows@.len() as int
            }) && crate::text::spelled(all) == app.diff.rows@.len() && crate::ui::position_text(
                app,
                None,
            ) == first + seq!['-'] + last + seq!['/'] + all + seq![' '],
{
    reveal_strlit("-");
    reveal_strlit("/");
    reveal_strlit(" ");
    let rows = app.diff.rows@.len() as int;
    let end = crate::screen::at_most(app.screen.scroll + app.screen.viewport_height, rows);
    crate::text::a_number_reads_back(app.screen.scroll + 1);
    crate::text::a_number_reads_back(end);
    crate::text::a_number_reads_back(rows);
    let first = crate::text::decimal(app.screen.scroll + 1);
    let last = crate::text::decimal(end);
    let all = crate::text::decimal(rows);
    assert(crate::ui::position_text(app, None) =~= first + seq!['-'] + last + seq!['/'] + all
        + seq![' ']);
    assert(crate::text::spelled(first) == app.screen.scroll + 1);
    assert(crate::text::spelled(last) == end);
    assert(crate::text::spelled(all) == rows);
}

/// While the history has the focus, the footer counts its rows from one instead, with a
/// plus where there may be more.
pub proof fn the_footer_counts_the_history(app: App, commits: &crate::commits::Commits)
    requires
        commits.countable(),
    ensures
        exists|at: Seq<char>, all: Seq<char>|
            #![trigger crate::text::spelled(at), crate::text::spelled(all)]
            crate::text::spelled(at) == commits.cursor + 1 && crate::text::spelled(all)
                == commits.rows@.len() + 1 && crate::ui::position_text(app, Some(commits)) == at
                + seq!['/'] + all + (if commits.exhausted {
                seq![' ']
            } else {
                seq!['+', ' ']
            }),
{
    reveal_strlit("/");
    reveal_strlit("+");
    reveal_strlit("");
    reveal_strlit(" ");
    crate::text::a_number_reads_back(commits.cursor + 1);
    crate::text::a_number_reads_back(commits.rows@.len() as int + 1);
    let at = crate::text::decimal(commits.cursor + 1);
    let all = crate::text::decimal(commits.rows@.len() as int + 1);
    assert(crate::ui::position_text(app, Some(commits)) =~= at + seq!['/'] + all + (
    if commits.exhausted {
        seq![' ']
    } else {
        seq!['+', ' ']
    }));
    assert(crate::text::spelled(at) == commits.cursor + 1);
    assert(crate::text::spelled(all) == commits.rows@.len() + 1);
}

/// The footer says an error before a notice, and a notice before the warning of a file
/// that was rewritten; and the question that is open, alone.
pub proof fn the_footer_says_what_matters_most(app: App, area: crate::input::Rect)
    requires
        app.ready(),
        app.screen.prompt is None,
    ensures
        ({
            let line = crate::ui::footer_line(app, area, None);
            &&& app.error is None && app.notice is None && !app.screen.stale ==> line.len() == 4
            &&& app.error is Some || app.notice is Some || app.screen.stale ==> line.len() == 5
            &&& app.error is Some ==> line[4].style.ink == crate::ui::Ink::Red && is_start_of(
                line[4].text,
                app.error->0@,
            )
            &&& app.error is None && app.notice is Some ==> line[4].style.ink
                == crate::ui::Ink::Yellow && is_start_of(line[4].text, app.notice->0@)
        }),
{
    reveal_strlit("  ");
    let line = crate::ui::footer_line(app, area, None);
    if let Some((text, ink)) = crate::ui::message(app) {
        let said = line[4].text.skip(2);
        assert(said =~= text.take(said.len() as int));
    }
}

/// A text is two blanks and the start of another.
pub open spec fn is_start_of(said: Seq<char>, text: Seq<char>) -> bool {
    &&& 2 <= said.len() <= text.len() + 2
    &&& said[0] == ' ' && said[1] == ' '
    &&& said.skip(2) == text.take(said.len() - 2)
}

/// A view that shows the cursor stays where it is when it follows the cursor.
pub proof fn a_view_that_shows_the_cursor_stays(app: App)
    requires
        app.ready(),
        app.current() is Some,
        app.screen.scroll <= app.row_of(cursor(app).0) < app.screen.scroll
            + app.screen.viewport_height,
        app.screen.scroll <= rows_hidden(app),
        app.screen.hscroll <= app.cursor_cell() < app.screen.hscroll + app.text_cols(),
    ensures
        app.followed() == app,
{
    assert(app.diff.rows.len() == app.diff.rows@.len());
}

/// A view within its limits is left alone, and one past them goes to the furthest there
/// is. While a text is edited the column of the cursor stays in view.
pub proof fn a_view_within_its_limits_is_left_alone(app: App)
    requires
        app.ready(),
    ensures
        app.clamped().screen.scroll == (if app.screen.scroll <= rows_hidden(app) {
            app.screen.scroll as int
        } else {
            rows_hidden(app)
        }),
        !app.edits() && app.screen.hscroll + app.text_cols() <= app.screen.longest
            ==> app.clamped().screen.hscroll == app.screen.hscroll,
        !app.edits() && app.screen.longest <= app.text_cols() ==> app.clamped().screen.hscroll == 0,
        !app.edits() && app.text_cols() <= app.screen.longest < app.screen.hscroll
            + app.text_cols() ==> app.clamped().screen.hscroll == app.screen.longest
            - app.text_cols(),
        app.clamped().buffers == app.buffers,
{
    assert(app.diff.rows.len() == app.diff.rows@.len());
}

/// While a text is edited, a jump takes the cursor to the start of the line that the first
/// row of the change shows.
pub proof fn a_jump_takes_the_cursor_along(
    app: App,
    after: App,
    forward: bool,
    row: usize,
    line: usize,
)
    requires
        app.ready(),
        app.edits(),
        app.jumped_to(after, forward, Some(row)),
        row < app.diff.rows@.len(),
        app.diff.rows@[row as int].new_line == Some(line),
        line <= u16::MAX,
    ensures
        cursor(after) == (line as int, 0int),
        anchor(after) is None,
        whole(after) == whole(app),
{
    app.current_there();
    let rows = app.diff.rows@;
    let of = crate::diff::Side::New;
    assert(crate::diff::line_on(rows[row as int], of) == Some(line));
    assert(crate::diff::stands_for(rows, row as int, of, Some(line)));
    let chosen = choose|line: Option<usize>| crate::diff::stands_for(rows, row as int, of, line);
    crate::diff::stands_for_one(rows, row as int, of, chosen, Some(line));
    crate::diff::rows_name_lines(&app.diff, app.shown());
    same_current(app, after);
}

/// A press on a line of the Before side starts a selection on the character under the
/// pointer, and a drag takes its other end along. The line is one of printable ASCII.
#[verifier::spinoff_prover]
pub proof fn a_selection_on_the_before_side_follows_the_pointer(
    app: App,
    after: App,
    mouse: Mouse,
    now: u64,
    task: Task,
    row: int,
    line: usize,
)
    requires
        app.ready(),
        app.moused(after, mouse, now, task),
        nothing_open(app),
        app.screen.panes@[1].y < mouse.at.y,
        mouse.at.y + 2 <= app.screen.panes@[1].y + app.screen.panes@[1].height,
        app.screen.panes@[1].x + 1 + crate::columns::gutter(app.diff.old@.len() as int) + 1
            <= mouse.at.x,
        mouse.at.x + 2 <= app.screen.panes@[1].x + app.screen.panes@[1].width,
        row == app.screen.scroll + mouse.at.y - app.screen.panes@[1].y - 1,
        0 <= row < app.diff.rows@.len(),
        app.diff.rows@[row].old_line == Some(line),
        crate::area::narrow(crate::text::views(app.diff.old@)[line as int]),
        mouse.at.x + app.screen.hscroll <= usize::MAX,
        mouse.kind == MouseKind::Down(Button::Left) || mouse.kind == MouseKind::Drag(Button::Left),
        mouse.kind == MouseKind::Down(Button::Left) ==> app.screen.button_under(mouse.at) is None
            && app.screen.divider(mouse.at) is None && app.screen.pane_under(mouse.at) == Some(
            Pane::Old,
        ),
        mouse.kind == MouseKind::Drag(Button::Left) ==> app.screen.drag is None
            && app.screen.selecting == Some(Pane::Old) && app.screen.old_selection is Some,
    ensures
        ({
            let left = app.screen.panes@[1].x + 1 + crate::columns::gutter(
                app.diff.old@.len() as int,
            ) + 1;
            let col = mouse.at.x - left + app.screen.hscroll;
            let len = crate::text::views(app.diff.old@)[line as int].len();
            let place = (
                line,
                (if col < len {
                    col
                } else {
                    len as int
                }) as usize,
            );
            &&& mouse.kind == MouseKind::Down(Button::Left) ==> after.screen.old_selection == Some(
                (place, place),
            ) && after.screen.selecting == Some(Pane::Old) && after.screen.focus == Pane::Old
            &&& mouse.kind == MouseKind::Drag(Button::Left) ==> after.screen.old_selection == Some(
                ((app.screen.old_selection->0).0, place),
            )
            &&& after.buffers == app.buffers
            &&& task is Nothing
        }),
{
    app.current_there();
    let old = app.side_lines(Pane::Old);
    assert(old == crate::text::views(app.diff.old@));
    if mouse.kind == MouseKind::Down(Button::Left) {
        let free = Screen { drag: None, edge_drag: None, selecting: None, ..app.screen };
        let start = app.seen(Screen { focus: Pane::Old, ..free });
        assert(start.current() == app.current());
        assert(start.tab() == app.tab());
        let found = choose|found: Option<(usize, usize)>| #[trigger]
            start.pressed_on(after, Pane::Old, mouse.at, found);
        assert(start.pressed_on(after, Pane::Old, mouse.at, found));
        pointed_place(start, Pane::Old, mouse.at.x as int, mouse.at.y as int, found, row, line);
    } else {
        let found = choose|found: Option<(usize, usize)>| #[trigger]
            app.extended_to(after, Pane::Old, mouse.at, found);
        assert(app.extended(after, Pane::Old, mouse.at));
        assert(app.extended_to(after, Pane::Old, mouse.at, found));
        let pulled = app.pulled(Pane::Old, mouse.at);
        assert(pulled == app.seen(Screen { edge_drag: None, ..app.screen }));
        assert(pulled.current() == app.current());
        assert(pulled.tab() == app.tab());
        let cell = app.nearest(Pane::Old, mouse.at);
        assert(cell.0 == mouse.at.x && cell.1 == mouse.at.y);
        pointed_place(pulled, Pane::Old, mouse.at.x as int, mouse.at.y as int, found, row, line);
    }
}

/// The cell that a drag goes by is the one under the pointer where that shows text, and
/// else the nearest that does, or one column past the last where the pointer is beyond it.
pub proof fn the_nearest_cell_shows_text(app: App, pane: Pane, at: crate::input::Position)
    requires
        app.ready(),
        pane == Pane::Old || pane == Pane::New,
        app.side_lines(pane).len() > 0,
        app.screen.area_of(pane).height >= 3,
        app.screen.area_of(pane).width >= 3 + crate::columns::gutter(
            app.side_lines(pane).len() as int,
        ) + 1,
    ensures
        ({
            let area = app.screen.area_of(pane);
            let first = area.x + 1 + crate::columns::gutter(app.side_lines(pane).len() as int) + 1;
            let last = area.x + area.width - 2;
            let top = area.y + 1;
            let bottom = area.y + area.height - 2;
            let (x, y) = app.nearest(pane, at);
            &&& first <= at.x <= last ==> x == at.x
            &&& at.x < first ==> x == first
            &&& at.x > last ==> x == last + 1
            &&& top <= at.y <= bottom ==> y == at.y
            &&& at.y < top ==> y == top
            &&& at.y > bottom ==> y == bottom
        }),
{
}

/// A message that there is room for beside the buttons and the position is said whole.
pub proof fn a_message_that_fits_is_said_whole(app: App, area: crate::input::Rect)
    requires
        app.ready(),
        app.screen.prompt is None,
        app.error is Some,
        crate::ui::buttons_end(area) - area.x + crate::ui::position_text(app, None).len() + 2
            + app.error->0@.len() <= area.width,
    ensures
        crate::ui::footer_line(app, area, None)[4].text.skip(2) == app.error->0@,
{
    reveal_strlit("  ");
    assert(("  "@ + app.error->0@).skip(2) =~= app.error->0@);
}

/// A drag that is held past an edge goes on by itself where it just moved the view, and
/// not where the view cannot move or the pointer is inside the pane.
pub proof fn a_drag_goes_on_where_it_moved_the_view(
    app: App,
    pane: Pane,
    at: crate::input::Position,
)
    requires
        app.ready(),
        app.screen.scroll <= rows_hidden(app),
        app.screen.hscroll == 0 || app.screen.hscroll + app.text_cols() <= app.screen.longest,
        app.screen.area_of(pane).height >= 3,
        app.screen.area_of(pane).width >= 3 + crate::columns::gutter(
            app.side_lines(pane).len() as int,
        ) + 1,
    ensures
        ({
            let after = app.pulled(pane, at);
            &&& after.screen.edge_drag is Some <==> after.screen.scroll != app.screen.scroll
                || after.screen.hscroll != app.screen.hscroll
            &&& after.screen.edge_drag is Some ==> after.screen.edge_drag == Some(at)
        }),
{
    assert(app.diff.rows.len() == app.diff.rows@.len());
}

/// The view follows the cursor by the smallest move that shows it: to the row and the
/// column of the cursor where it is before them, and just far enough where it is behind.
pub proof fn the_view_follows_by_the_smallest_move(app: App)
    requires
        app.ready(),
        app.current() is Some,
        app.text_cols() > 0,
        app.screen.viewport_height > 0,
        app.screen.scroll <= rows_hidden(app),
    ensures
        ({
            let after = app.followed();
            let row = app.row_of(cursor(app).0);
            let column = app.cursor_cell();
            &&& row < app.screen.scroll ==> after.screen.scroll == row
            &&& row >= app.screen.scroll + app.screen.viewport_height ==> after.screen.scroll
                + app.screen.viewport_height == row + 1
            &&& app.screen.scroll <= row < app.screen.scroll + app.screen.viewport_height
                ==> after.screen.scroll == app.screen.scroll
            &&& column < app.screen.hscroll ==> after.screen.hscroll == column
            &&& column >= app.screen.hscroll + app.text_cols() ==> after.screen.hscroll
                + app.text_cols() == column + 1
            &&& app.screen.hscroll <= column < app.screen.hscroll + app.text_cols()
                ==> after.screen.hscroll == app.screen.hscroll
            &&& after.buffers == app.buffers
        }),
{
    app.current_there();
    ends_are_inside(app);
    crate::app::the_cursor_is_on_screen(app);
    assert(app.diff.rows.len() == app.diff.rows@.len());
    let at = cursor(app);
    crate::columns::column_bounds(app.shown()[at.0], at.1, app.tab());
    assert(app.diff.new_line_to_row@[at.0] is Some);
    assert(app.row_of(at.0) < app.diff.rows@.len());
}

/// The buttons are where the footer writes their labels, and as wide.
pub proof fn the_buttons_are_where_their_labels_are(app: App, area: crate::input::Rect)
    requires
        app.ready(),
        app.screen.prompt is None,
        crate::ui::buttons_end(area) < u16::MAX,
    ensures
        ({
            let line = crate::ui::footer_line(app, area, None);
            let areas = crate::ui::button_areas(area);
            &&& areas[0].x == area.x + said(line.take(1)).len()
            &&& areas[0].width == line[1].text.len()
            &&& areas[1].x == area.x + said(line.take(3)).len()
            &&& areas[1].width == line[3].text.len()
            &&& areas[0].y == area.y && areas[1].y == area.y
        }),
{
    reveal_strlit(" ");
    reveal_strlit("[settings ,]");
    reveal_strlit("[help ?]");
    reveal_with_fuel(said, 4);
    let line = crate::ui::footer_line(app, area, None);
    assert(line.take(3).drop_last() =~= line.take(2));
    assert(line.take(2).drop_last() =~= line.take(1));
    assert(line.take(1).drop_last() =~= Seq::<Shown>::empty());
}

/// A drag that is held past an edge goes on twenty times a second.
pub proof fn a_held_drag_goes_on(app: App, now: u64)
    requires
        app.screen.selecting is Some,
        app.screen.edge_drag is Some,
    ensures
        app.due(now) == Some(50_000_000int),
{
}

/// Where another file is picked, what stays open is what has unsaved edits.
pub proof fn only_unsaved_edits_stay_open(app: App, after: App, index: int, task: Task)
    requires
        app.ready(),
        app.picked(after, index, task),
        task is Load,
    ensures
        forall|k: int|
            0 <= k < after.buffers@.len() ==> (#[trigger] after.buffers@[k]).buffer.changed()
                && app.buffers@.contains(after.buffers@[k]),
{
    unsaved_are_changed(app.buffers@);
}

proof fn unsaved_are_changed(buffers: Seq<crate::app::OpenFile>)
    ensures
        forall|k: int|
            0 <= k < crate::app::unsaved(buffers).len() ==> (#[trigger] crate::app::unsaved(
                buffers,
            )[k]).buffer.changed() && buffers.contains(crate::app::unsaved(buffers)[k]),
    decreases buffers.len(),
{
    if buffers.len() > 0 {
        let init = buffers.drop_last();
        unsaved_are_changed(init);
        let kept = crate::app::unsaved(buffers);
        assert forall|k: int| 0 <= k < kept.len() implies (#[trigger] kept[k]).buffer.changed()
            && buffers.contains(kept[k]) by {
            if k < crate::app::unsaved(init).len() {
                assert(kept[k] == crate::app::unsaved(init)[k]);
                let i = choose|i: int| 0 <= i < init.len() && init[i] == kept[k];
                assert(buffers[i] == kept[k]);
            } else {
                assert(buffers[buffers.len() - 1] == kept[k]);
            }
        }
    }
}

/// Reading one file again drops no edit of another.
pub proof fn reading_again_drops_no_other_file(
    app: App,
    after: App,
    stamp: Option<(u64, u64)>,
    task: Task,
    k: int,
)
    requires
        app.ready(),
        app.polled(after, stamp, task),
        0 <= k < app.buffers@.len(),
        app.buffers@[k].buffer.changed() || app.here() is None || app.buffers@[k].path@
            != app.here()->0,
    ensures
        after.buffers@.contains(app.buffers@[k]),
{
    app.current_there();
    if task is Load && app.current() is Some {
        let c = app.current()->0;
        assert(k != c);
        if k < c {
            assert(after.buffers@[k] == app.buffers@[k]);
        } else {
            assert(after.buffers@[k - 1] == app.buffers@[k]);
        }
    } else {
        assert(after.buffers@[k] == app.buffers@[k]);
    }
}

/// Only where the Current side has the focus does a key change a text or a paste go in.
pub proof fn only_the_side_in_focus_is_edited(
    app: App,
    after: App,
    key: KeyPress,
    now: u64,
    task: Task,
    text: Seq<char>,
    pasted: App,
)
    requires
        app.ready(),
        app.screen.focus != Pane::New,
        nothing_open(app),
        app.keyed(after, key, now, task),
        app.pasted(pasted, text, now),
    ensures
        after.buffers == app.buffers || (task is Load && after.buffers@ == crate::app::unsaved(
            app.buffers@,
        )),
        pasted == app,
{
}

/// The view that follows the cursor stays within its limits.
pub proof fn a_view_that_follows_stays_within_its_limits(app: App)
    requires
        app.ready(),
        app.current() is Some,
    ensures
        app.followed().screen.scroll <= rows_hidden(app),
{
    app.current_there();
    ends_are_inside(app);
    assert(app.diff.rows.len() == app.diff.rows@.len());
    assert(app.diff.new_line_to_row@[cursor(app).0] is Some);
}

/// The settings panel shows each setting by its name and its value between two arrows,
/// the selected one in bold.
pub proof fn the_panel_shows_each_setting(config: crate::config::Config, selected: int, i: int)
    requires
        0 <= i < 8,
    ensures
        ({
            let runs = crate::ui::setting_lines(config, selected)[i];
            let name = crate::settings::ALL@[i].name_text();
            let value = crate::settings::ALL@[i].value_text(config);
            &&& crate::ui::setting_lines(config, selected).len() == 8
            &&& runs.len() == 2
            &&& runs[0].text.len() > name.len()
            &&& runs[0].text[0] == ' '
            &&& runs[0].text.subrange(1, 1 + name.len() as int) == name
            &&& runs[1].text == seq!['<', ' '] + value + seq![' ', '>']
            &&& runs[0].style.bold <==> i == selected
            &&& runs[1].style.bold <==> i == selected
        }),
{
    reveal_strlit(" ");
    reveal_strlit("< ");
    reveal_strlit(" >");
    let runs = crate::ui::setting_lines(config, selected)[i];
    let name = crate::settings::ALL@[i].name_text();
    let value = crate::settings::ALL@[i].value_text(config);
    assert(runs[0].text.subrange(1, 1 + name.len() as int) =~= name);
    assert("< "@ + value + " >"@ =~= seq!['<', ' '] + value + seq![' ', '>']);
}

} // verus!

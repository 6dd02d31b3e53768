//! The program's state and what keys, the mouse, the clock and the disk do to it.
//!
//! Everything here decides; nothing here reads or writes. Where something outside is
//! due, a method returns it as a `Task`, and what came of it is handed back.
use crate::columns::{capped_col, capped_width, char_index_at, gutter_width};
use crate::config::Config;
use crate::diff::DiffModel;
use crate::editor::{reading_lines, slice_selection, EditorBuffer, Selection};
use crate::git::{ChangedFile, FileContent};
use crate::input::{Button, Key, KeyPress, Mouse, MouseKind, Position};
use crate::screen::{sorted_selection, step, Pane, Prompt, Screen};
use crate::settings::{Setting, ALL};
use crate::text::{owned, same, same_str};
use std::ops::Range;
use std::time::Instant;
use vstd::prelude::*;

verus! {

/// What is due outside.
pub enum Task {
    Nothing,
    /// Read both sides of the selected file and hand them to `load_diff`.
    Load,
    /// List the changed files and hand them to `refreshed`.
    Refresh,
    /// Put a text on the clipboard.
    Copy(String),
    /// Hand what is on the clipboard to `paste`.
    Paste,
    /// Read the selected file from the disk and hand it to `save`.
    Save,
    /// Write the config.
    SaveConfig,
}

/// A buffer of a file that has been opened.
pub struct OpenFile {
    pub path: String,
    pub buffer: EditorBuffer,
}

pub struct App {
    pub config: Config,
    pub files: Vec<ChangedFile>,
    /// The selected row of the file list.
    pub selected: Option<usize>,
    pub diff: DiffModel,
    /// Buffers for files the user has opened, one for a path. Only the current file
    /// and files with unsaved edits are kept, so memory tracks the working set.
    pub buffers: Vec<OpenFile>,
    /// The Current side when the file cannot be edited: deleted, binary, or not
    /// valid UTF-8.
    pub readonly: Vec<String>,
    pub error: Option<String>,
    pub notice: Option<String>,
    /// There is a config file to write to.
    pub has_config: bool,
    /// Another file was selected and its content is still to come.
    pub loading: bool,
    /// Where the view goes back to when the content comes, if it is only read again.
    pub resume: Option<(usize, usize)>,
    pub screen: Screen,
}

/// How long the user has to be idle before a coarse stretch under the viewport is
/// refined, in nanoseconds: after typing that outran the budget, or after scrolling
/// into a stretch that did. Only armed while there is one on screen.
pub const REFINE_PAUSE: u64 = 300_000_000;

/// How often the view moves while a drag is held past a pane edge, in nanoseconds.
pub const AUTOSCROLL_TICK: u64 = 50_000_000;

/// How long a self-clearing footer notice stays, in nanoseconds.
pub const NOTICE_TTL: u64 = 2_000_000_000;

/// Nanoseconds in a millisecond.
pub const MILLI: u64 = 1_000_000;

// ---- What the state says ---------------------------------------------------

pub open spec fn paths(buffers: Seq<OpenFile>) -> Seq<Seq<char>> {
    Seq::new(buffers.len(), |k: int| buffers[k].path@)
}

/// The widest line, in columns.
pub open spec fn widest(lines: Seq<Seq<char>>, tab: usize) -> int
    decreases lines.len(),
{
    if lines.len() == 0 {
        0
    } else {
        crate::screen::at_least(
            widest(lines.drop_last(), tab),
            crate::columns::capped(crate::columns::columns(lines.last(), tab)),
        )
    }
}

/// The buffers with unsaved edits.
pub open spec fn unsaved(buffers: Seq<OpenFile>) -> Seq<OpenFile>
    decreases buffers.len(),
{
    if buffers.len() == 0 {
        buffers
    } else if buffers.last().buffer.changed() {
        unsaved(buffers.drop_last()).push(buffers.last())
    } else {
        unsaved(buffers.drop_last())
    }
}

impl App {
    /// The path of the selected file.
    pub open spec fn here(self) -> Option<Seq<char>> {
        match self.selected {
            Some(i) => if i < self.files@.len() {
                Some(self.files@[i as int].path@)
            } else {
                None
            },
            None => None,
        }
    }

    /// Which buffer holds the selected file.
    pub open spec fn current(self) -> Option<int> {
        match self.here() {
            Some(path) => paths(self.buffers@).index_of_first(path),
            None => None,
        }
    }

    /// The lines of the Current side.
    pub open spec fn shown(self) -> Seq<Seq<char>> {
        match self.current() {
            Some(k) => self.buffers@[k].buffer.text(),
            None => crate::text::views(self.readonly@),
        }
    }

    /// How wide a tab is.
    pub open spec fn tab(self) -> usize {
        match self.current() {
            Some(k) => self.buffers@[k].buffer.indent.width,
            None => self.config.indent_width,
        }
    }

    /// Keys go to the buffer.
    pub open spec fn edits(self) -> bool {
        self.screen.focus == Pane::New && self.current() is Some
    }

    /// Some file has unsaved edits.
    pub open spec fn has_unsaved(self) -> bool {
        exists|k: int| 0 <= k < self.buffers@.len() && #[trigger] self.buffers@[k].buffer.changed()
    }

    /// A file is selected whenever there is one, no path has two buffers, each
    /// buffer is sound, and the diff describes the text that is shown.
    pub open spec fn sane(self) -> bool {
        &&& match self.selected {
            Some(i) => i < self.files@.len(),
            None => self.files@.len() == 0,
        }
        &&& paths(self.buffers@).no_duplicates()
        &&& forall|k: int|
            0 <= k < self.buffers@.len() ==> (#[trigger] self.buffers@[k]).buffer.sound()
                && self.buffers@[k].buffer.indent.width > 0
        &&& self.config.indent_width > 0
        &&& self.screen.settings is Some ==> self.screen.settings->0 < 8
        &&& self.screen.drag is Some ==> self.screen.drag->0 < 2
        &&& self.loading ==> self.selected is Some
        &&& !self.loading ==> self.diff.fits(self.shown())
        &&& !self.loading && self.screen.old_selection is Some ==> {
            let (a, b) = self.screen.old_selection->0;
            a.0 < self.diff.old@.len() && b.0 < self.diff.old@.len()
        }
    }

    /// The state is sane and the selected file is loaded.
    pub open spec fn ready(self) -> bool {
        self.sane() && !self.loading
    }

    /// The buffer of the selected file is one of the buffers.
    pub proof fn current_there(self)
        ensures
            match self.current() {
                Some(k) => {
                    &&& 0 <= k < self.buffers@.len()
                    &&& self.here() is Some
                    &&& self.buffers@[k].path@ == self.here()->0
                },
                None => self.here() is Some ==> !paths(self.buffers@).contains(self.here()->0),
            },
    {
        if self.here() is Some {
            paths(self.buffers@).index_of_first_ensures(self.here()->0);
        }
    }

    pub fn selected_file(&self) -> (file: Option<&ChangedFile>)
        ensures
            match file {
                Some(file) => self.selected is Some && self.selected->0 < self.files@.len()
                    && *file == self.files@[self.selected->0 as int],
                None => self.here() is None,
            },
    {
        match self.selected {
            Some(i) => if i < self.files.len() {
                Some(&self.files[i])
            } else {
                None
            },
            None => None,
        }
    }

    /// The first buffer of a path.
    fn find(&self, path: &str) -> (found: Option<usize>)
        ensures
            match found {
                Some(k) => k < self.buffers@.len() && paths(self.buffers@).index_of_first(path@)
                    == Some(k as int),
                None => paths(self.buffers@).index_of_first(path@) is None,
            },
    {
        let ghost all = paths(self.buffers@);
        proof {
            all.index_of_first_ensures(path@);
        }
        let mut k: usize = 0;
        while k < self.buffers.len()
            invariant
                0 <= k <= self.buffers@.len(),
                all == paths(self.buffers@),
                forall|j: int| 0 <= j < k ==> all[j] != path@,
                match all.index_of_first(path@) {
                    Some(index) => {
                        &&& 0 <= index < all.len()
                        &&& all[index] == path@
                        &&& forall|j: int| 0 <= j < index < all.len() ==> all[j] != path@
                    },
                    None => !all.contains(path@),
                },
            decreases self.buffers@.len() - k,
        {
            assert(all[k as int] == self.buffers@[k as int].path@);
            if same_str(self.buffers[k].path.as_str(), path) {
                assert(all.contains(path@));
                return Some(k);
            }
            k += 1;
        }
        None
    }

    fn current_index(&self) -> (found: Option<usize>)
        ensures
            match found {
                Some(k) => k < self.buffers@.len() && self.current() == Some(k as int),
                None => self.current() is None,
            },
    {
        match self.selected_file() {
            Some(file) => self.find(file.path.as_str()),
            None => None,
        }
    }

    pub fn buffer(&self) -> (buffer: Option<&EditorBuffer>)
        ensures
            match buffer {
                Some(buffer) => self.current() is Some && *buffer
                    == self.buffers@[self.current()->0].buffer,
                None => self.current() is None,
            },
    {
        match self.current_index() {
            Some(k) => Some(&self.buffers[k].buffer),
            None => None,
        }
    }

    /// The Current side, whether it is editable or not.
    pub fn new_lines(&self) -> (lines: &[String])
        ensures
            crate::text::views(lines@) == self.shown(),
            lines@.len() == self.shown().len(),
    {
        match self.buffer() {
            Some(buffer) => {
                let lines = buffer.lines();
                proof {
                    assert(crate::text::views(lines@).len() == lines@.len());
                }
                lines
            },
            None => self.readonly.as_slice(),
        }
    }

    pub fn editing(&self) -> (editing: bool)
        ensures
            editing == self.edits(),
    {
        self.screen.focus == Pane::New && self.buffer().is_some()
    }

    /// The selection on the Before side, sorted, or none when it covers nothing.
    pub fn old_selection(&self) -> (selection: Option<Selection>)
        ensures
            selection == crate::screen::covering(self.screen.old_selection),
    {
        sorted_selection(self.screen.old_selection)
    }

    /// The text of the selection on the Before side.
    pub open spec fn old_text(self) -> Option<Seq<char>> {
        match crate::screen::covering(self.screen.old_selection) {
            Some(range) => Some(
                crate::editor::stretch(
                    crate::text::views(self.diff.old@),
                    crate::area::span_ints(range),
                ),
            ),
            None => None,
        }
    }

    pub fn old_selected_text(&self) -> (text: Option<String>)
        requires
            self.ready(),
        ensures
            crate::document::opt_view(text) == self.old_text(),
    {
        match self.old_selection() {
            Some(range) => Some(slice_selection(self.diff.old.as_slice(), range)),
            None => None,
        }
    }

    /// The paths of the files with unsaved edits.
    pub fn dirty_files(&self) -> (dirty: Vec<String>)
        ensures
            crate::text::views(dirty@) == paths(unsaved(self.buffers@)),
            dirty@.len() == 0 <==> !self.has_unsaved(),
    {
        let mut dirty: Vec<String> = Vec::new();
        let mut k: usize = 0;
        while k < self.buffers.len()
            invariant
                0 <= k <= self.buffers@.len(),
                crate::text::views(dirty@) == paths(unsaved(self.buffers@.take(k as int))),
                dirty@.len() == 0 <==> forall|j: int|
                    0 <= j < k ==> !#[trigger] self.buffers@[j].buffer.changed(),
            decreases self.buffers@.len() - k,
        {
            let ghost before = unsaved(self.buffers@.take(k as int));
            let ghost held = dirty@;
            proof {
                assert(self.buffers@.take(k + 1).drop_last() =~= self.buffers@.take(k as int));
            }
            if self.buffers[k].buffer.dirty() {
                dirty.push(self.buffers[k].path.clone());
                proof {
                    assert(paths(before.push(self.buffers@[k as int])) =~= paths(before).push(
                        self.buffers@[k as int].path@,
                    ));
                    assert(crate::text::views(dirty@) =~= crate::text::views(held).push(
                        self.buffers@[k as int].path@,
                    ));
                }
            }
            k += 1;
        }
        proof {
            assert(self.buffers@.take(k as int) =~= self.buffers@);
        }
        dirty
    }

    /// Whether a file has unsaved edits.
    pub fn is_dirty(&self, path: &str) -> (dirty: bool)
        ensures
            dirty == (match paths(self.buffers@).index_of_first(path@) {
                Some(k) => self.buffers@[k].buffer.changed(),
                None => false,
            }),
    {
        match self.find(path) {
            Some(k) => self.buffers[k].buffer.dirty(),
            None => false,
        }
    }

    pub fn tab_width(&self) -> (width: usize)
        ensures
            width == self.tab(),
    {
        match self.buffer() {
            Some(buffer) => buffer.tab_width(),
            None => self.config.indent_width,
        }
    }
}

/// The widest of some lines, in columns.
fn widest_of(lines: &[String], tab: usize) -> (width: usize)
    ensures
        width == widest(crate::text::views(lines@), tab),
{
    let ghost all = crate::text::views(lines@);
    let mut width: usize = 0;
    let mut i: usize = 0;
    while i < lines.len()
        invariant
            0 <= i <= lines@.len(),
            all == crate::text::views(lines@),
            width == widest(all.take(i as int), tab),
        decreases lines@.len() - i,
    {
        proof {
            assert(all.take(i + 1).drop_last() =~= all.take(i as int));
        }
        let next = capped_width(lines[i].as_str(), tab);
        if next > width {
            width = next;
        }
        i += 1;
    }
    proof {
        assert(all.take(i as int) =~= all);
    }
    width
}

// ---- Limits and scrolling ----------------------------------------------------

impl App {
    /// The last row that can be at the top.
    pub open spec fn furthest(self) -> int {
        crate::screen::at_least(self.diff.rows@.len() - self.screen.viewport_height, 0)
    }

    /// Columns of text one pane shows. The gutter and the borders are not
    /// scrollable, so they do not count, and the narrower side decides, or its last
    /// column is unreachable.
    pub open spec fn text_cols(self) -> int {
        let gutter = crate::screen::at_least(
            crate::columns::gutter(self.diff.old@.len() as int),
            crate::columns::gutter(self.shown().len() as int),
        ) + 1;
        let pane = crate::screen::at_most(
            self.screen.panes@[1].width as int,
            self.screen.panes@[2].width as int,
        );
        crate::screen::at_least(pane - (2 + gutter), 0)
    }

    /// The furthest right that still shows text. Both sides scroll together, so the
    /// longest line on either of them sets it.
    pub open spec fn furthest_right(self) -> int {
        crate::screen::at_least(self.screen.longest - self.text_cols(), 0)
    }

    fn max_scroll(&self) -> (row: usize)
        ensures
            row == self.furthest(),
    {
        self.diff.rows.len().saturating_sub(self.screen.viewport_height)
    }

    fn text_width(&self) -> (width: usize)
        ensures
            width == self.text_cols(),
    {
        let old: usize = gutter_width(self.diff.old.len());
        let new: usize = gutter_width(self.new_lines().len());
        let gutter: usize = if old >= new {
            old
        } else {
            new
        };
        let left: usize = self.screen.panes[1].width as usize;
        let right: usize = self.screen.panes[2].width as usize;
        let pane: usize = if left <= right {
            left
        } else {
            right
        };
        if pane < 3 || pane - 3 < gutter {
            0
        } else {
            pane - 3 - gutter
        }
    }

    fn max_hscroll(&self) -> (column: usize)
        ensures
            column == self.furthest_right(),
    {
        self.screen.longest.saturating_sub(self.text_width())
    }

    pub open spec fn scrolled(self, delta: int) -> App {
        let row = crate::screen::stepped(self.screen.scroll as int, delta, self.furthest());
        App { screen: Screen { scroll: row as usize, ..self.screen }, ..self }
    }

    fn scroll_by(&mut self, delta: i128)
        requires
            -0x1_0000_0000_0000_0000 <= delta <= 0x1_0000_0000_0000_0000,
        ensures
            *final(self) == old(self).scrolled(delta as int),
    {
        self.screen.scroll = step(self.screen.scroll, delta, self.max_scroll());
    }

    pub open spec fn scrolled_sideways(self, columns: int) -> App {
        let column = crate::screen::stepped(
            self.screen.hscroll as int,
            columns,
            self.furthest_right(),
        );
        App { screen: Screen { hscroll: column as usize, ..self.screen }, ..self }
    }

    fn scroll_sideways(&mut self, columns: i128)
        requires
            -0x1_0000_0000_0000_0000 <= columns <= 0x1_0000_0000_0000_0000,
        ensures
            *final(self) == old(self).scrolled_sideways(columns as int),
    {
        self.screen.hscroll = step(self.screen.hscroll, columns, self.max_hscroll());
    }

    /// A row a few rows in from the top, so context stays visible.
    pub open spec fn scrolled_to(self, row: int) -> App {
        let top = crate::screen::at_most(crate::screen::at_least(row - 3, 0), self.furthest());
        App { screen: Screen { scroll: top as usize, ..self.screen }, ..self }
    }

    fn scroll_to(&mut self, row: usize)
        ensures
            *final(self) == old(self).scrolled_to(row as int),
    {
        let top: usize = row.saturating_sub(3);
        let max: usize = self.max_scroll();
        self.screen.scroll = if top <= max {
            top
        } else {
            max
        };
    }

    /// The column the cursor is in.
    pub open spec fn cursor_cell(self) -> int {
        let buffer = self.buffers@[self.current()->0].buffer;
        crate::columns::capped(
            crate::columns::column_of(buffer.text()[buffer.at().0], buffer.at().1, self.tab()),
        )
    }

    /// The cursor's display column, in the buffer being edited.
    fn cursor_column(&self) -> (column: Option<usize>)
        ensures
            column is Some <==> self.current() is Some,
            column is Some ==> column->0 == self.cursor_cell(),
    {
        match self.buffer() {
            Some(buffer) => {
                let (line, col) = buffer.cursor();
                let lines = buffer.lines();
                proof {
                    assert(lines@.len() == crate::text::views(lines@).len());
                }
                Some(capped_col(lines[line].as_str(), col, self.tab_width()))
            },
            None => None,
        }
    }

    /// The first column shown, moved right just enough that a column is on screen.
    pub open spec fn reaching(self, hscroll: int, column: int) -> int {
        let width = self.text_cols();
        if width > 0 && column >= hscroll + width {
            column + 1 - width
        } else {
            hscroll
        }
    }

    /// Widen `hscroll`, never narrow it, just enough that the cursor's own cell is
    /// on screen.
    fn widen_hscroll_for_cursor(&mut self)
        ensures
            match old(self).current() {
                Some(_) => *final(self) == (App {
                    screen: Screen {
                        hscroll: old(self).reaching(
                            old(self).screen.hscroll as int,
                            old(self).cursor_cell(),
                        ) as usize,
                        ..old(self).screen
                    },
                    ..*old(self)
                }),
                None => *final(self) == *old(self),
            },
    {
        if let Some(column) = self.cursor_column() {
            let width: usize = self.text_width();
            if width > 0 && column >= self.screen.hscroll && column - self.screen.hscroll >= width {
                self.screen.hscroll = column - (width - 1);
            }
        }
    }

    /// The row that shows a line of the Current side.
    pub open spec fn row_of(self, line: int) -> int {
        self.diff.new_line_to_row@[line]->0 as int
    }

    /// The view with the cursor on screen, sideways as well as down.
    pub open spec fn followed(self) -> App {
        match self.current() {
            Some(k) => {
                let column = self.cursor_cell();
                let hscroll = if column < self.screen.hscroll {
                    column
                } else {
                    self.reaching(self.screen.hscroll as int, column)
                };
                let row = self.row_of(self.buffers@[k].buffer.at().0);
                let top = if row < self.screen.scroll {
                    row
                } else if row >= self.screen.scroll + self.screen.viewport_height {
                    row + 1 - self.screen.viewport_height
                } else {
                    self.screen.scroll as int
                };
                App {
                    screen: Screen {
                        hscroll: hscroll as usize,
                        scroll: crate::screen::at_most(top, self.furthest()) as usize,
                        ..self.screen
                    },
                    ..self
                }
            },
            None => self,
        }
    }

    /// Keep the cursor on screen after it moves or after rows shift under it,
    /// sideways as well as down: typing past the right edge would otherwise put
    /// text somewhere the cursor cannot be drawn.
    pub fn follow_cursor(&mut self)
        requires
            old(self).diff.fits(old(self).shown()),
        ensures
            *final(self) == old(self).followed(),
    {
        proof {
            self.current_there();
        }
        let line: usize = match self.buffer() {
            Some(buffer) => buffer.cursor().0,
            None => {
                return;
            },
        };
        let row: usize = match self.diff.row_of_new_line(line) {
            Some(row) => row,
            None => {
                proof {
                    assert(false);
                }
                return;
            },
        };
        let mut narrowed = false;
        if let Some(column) = self.cursor_column() {
            if column < self.screen.hscroll {
                self.screen.hscroll = column;
                narrowed = true;
            }
        }
        if !narrowed {
            self.widen_hscroll_for_cursor();
        }
        proof {
            assert(self.diff.rows.len() == self.diff.rows@.len());
        }
        let top: usize = if row < self.screen.scroll {
            row
        } else if row - self.screen.scroll >= self.screen.viewport_height {
            row - self.screen.viewport_height + 1
        } else {
            self.screen.scroll
        };
        let max: usize = self.max_scroll();
        self.screen.scroll = if top <= max {
            top
        } else {
            max
        };
    }

    /// The view within its limits, with room for the cursor while editing.
    pub open spec fn clamped(self) -> App {
        let hscroll = crate::screen::at_most(self.screen.hscroll as int, self.furthest_right());
        App {
            screen: Screen {
                scroll: crate::screen::at_most(
                    self.screen.scroll as int,
                    self.furthest(),
                ) as usize,
                hscroll: (if self.edits() {
                    self.reaching(hscroll, self.cursor_cell())
                } else {
                    hscroll
                }) as usize,
                ..self.screen
            },
            ..self
        }
    }

    /// Re-bound `scroll` and `hscroll` to the current viewport, and report whether
    /// either moved. `viewport_height` and the pane widths only become correct
    /// partway through a draw, so this is only meaningful called after one: a
    /// resize changes both, and without this the view can sit past its new maxima
    /// until the next scroll event, which reads as a blank pane.
    ///
    /// `scroll` is left purely clamped, deliberately never pulled to the cursor's
    /// row here: this runs after every drawn frame, and the cursor can be far
    /// outside a viewport the reader scrolled to on purpose. `hscroll` gets the
    /// same clamp, then, while editing, is widened by exactly the column the
    /// cursor's own cell needs: a plain clamp alone would sit one column short of
    /// the cursor at the end of the widest line.
    pub fn clamp_scroll(&mut self) -> (moved: bool)
        ensures
            *final(self) == old(self).clamped(),
            moved == (final(self).screen.scroll != old(self).screen.scroll
                || final(self).screen.hscroll != old(self).screen.hscroll),
    {
        let scroll: usize = self.screen.scroll;
        let hscroll: usize = self.screen.hscroll;
        let ghost before = *self;
        let lowest: usize = self.max_scroll();
        let right: usize = self.max_hscroll();
        if scroll > lowest {
            self.screen.scroll = lowest;
        }
        if hscroll > right {
            self.screen.hscroll = right;
        }
        proof {
            assert(self.text_cols() == before.text_cols());
            assert(self.current() == before.current());
        }
        if self.editing() {
            self.widen_hscroll_for_cursor();
        }
        scroll != self.screen.scroll || hscroll != self.screen.hscroll
    }
}

// ---- Files and their contents ------------------------------------------------

proof fn unsaved_paths(buffers: Seq<OpenFile>)
    requires
        paths(buffers).no_duplicates(),
    ensures
        paths(unsaved(buffers)).no_duplicates(),
        forall|k: int|
            0 <= k < unsaved(buffers).len() ==> buffers.contains(#[trigger] unsaved(buffers)[k]),
    decreases buffers.len(),
{
    if buffers.len() > 0 {
        let init = buffers.drop_last();
        assert(paths(init) =~= paths(buffers).drop_last());
        unsaved_paths(init);
        assert forall|k: int| 0 <= k < unsaved(buffers).len() implies buffers.contains(
            #[trigger] unsaved(buffers)[k],
        ) by {
            if k < unsaved(init).len() {
                assert(init.contains(unsaved(init)[k]));
                let j = choose|j: int| 0 <= j < init.len() && init[j] == unsaved(init)[k];
                assert(buffers[j] == unsaved(buffers)[k]);
            } else {
                assert(buffers[buffers.len() - 1] == unsaved(buffers)[k]);
            }
        }
        if buffers.last().buffer.changed() {
            let kept = unsaved(init);
            assert(paths(kept.push(buffers.last())) =~= paths(kept).push(buffers.last().path@));
            assert forall|k: int| 0 <= k < kept.len() implies paths(kept)[k]
                != buffers.last().path@ by {
                assert(init.contains(kept[k]));
                let j = choose|j: int| 0 <= j < init.len() && init[j] == kept[k];
                assert(paths(buffers)[j] == paths(kept)[k]);
                assert(paths(buffers)[buffers.len() - 1] == buffers.last().path@);
            }
        }
    }
}

proof fn unsaved_concat(a: Seq<OpenFile>, last: OpenFile)
    ensures
        unsaved(a.push(last)) == (if last.buffer.changed() {
            unsaved(a).push(last)
        } else {
            unsaved(a)
        }),
{
    assert(a.push(last).drop_last() =~= a);
}

/// Keep the buffers with unsaved edits.
fn keep_unsaved(buffers: &mut Vec<OpenFile>)
    ensures
        final(buffers)@ == unsaved(old(buffers)@),
{
    let ghost all = buffers@;
    let ghost mut done: int = 0;
    let mut k: usize = 0;
    while k < buffers.len()
        invariant
            0 <= k <= buffers@.len(),
            k <= done <= all.len(),
            buffers@ == unsaved(all.take(done)) + all.skip(done),
            unsaved(all.take(done)).len() == k,
        decreases buffers@.len() - k,
    {
        proof {
            assert(buffers@[k as int] == all[done]);
            assert(all.take(done + 1) =~= all.take(done).push(all[done]));
            unsaved_concat(all.take(done), all[done]);
        }
        let ghost kept = unsaved(all.take(done));
        if buffers[k].buffer.dirty() {
            k += 1;
            proof {
                assert(buffers@ =~= kept.push(all[done]) + all.skip(done + 1));
            }
        } else {
            let _gone = buffers.remove(k);
            proof {
                assert(buffers@ =~= kept + all.skip(done + 1));
            }
        }
        proof {
            done = done + 1;
        }
    }
    proof {
        assert(done == all.len());
        assert(all.take(done) =~= all);
        assert(buffers@ =~= unsaved(all));
    }
}

impl App {
    /// A state with a list of files and nothing loaded.
    pub fn with(files: Vec<ChangedFile>, config: Config, has_config: bool) -> (app: Self)
        requires
            config.indent_width > 0,
        ensures
            app.sane(),
            app.config == config,
            app.files == files,
            app.selected == (if files@.len() > 0 {
                Some(0usize)
            } else {
                None
            }),
            app.loading == (files@.len() > 0),
            app.diff.rows@.len() == 0,
            app.diff.old@.len() == 0,
            app.buffers@.len() == 0,
            app.readonly@.len() == 0,
            app.error is None,
            app.notice is None,
            app.has_config == has_config,
            app.resume is None,
            app.screen == Screen::starting(),
    {
        let any = files.len() > 0;
        let app = App {
            config,
            files,
            selected: if any {
                Some(0)
            } else {
                None
            },
            diff: DiffModel::empty(),
            buffers: Vec::new(),
            readonly: Vec::new(),
            error: None,
            notice: None,
            has_config,
            loading: any,
            resume: None,
            screen: Screen::start(),
        };
        proof {
            app.current_there();
            assert(app.shown() =~= Seq::empty());
        }
        app
    }

    /// The state at the start: on the file that was asked for where it is listed, and
    /// with the pane widths of the last run where they are remembered.
    pub fn new(
        files: Vec<ChangedFile>,
        file: Option<&str>,
        config: Config,
        has_config: bool,
        weights: Option<[u16; 3]>,
    ) -> (app: Self)
        requires
            config.indent_width > 0,
        ensures
            app.sane(),
            app.config == config,
            app.files == files,
            app.selected == (if files@.len() > 0 {
                Some(
                    Self::listed(
                        files@,
                        match file {
                            Some(file) => Some(file@),
                            None => None,
                        },
                    ) as usize,
                )
            } else {
                None
            }),
            app.loading == (files@.len() > 0),
            app.diff.rows@.len() == 0,
            app.buffers@.len() == 0,
            app.readonly@.len() == 0,
            app.error is None,
            app.notice is None,
            app.has_config == has_config,
            app.resume is None,
            app.screen == (Screen {
                weights: if config.remember_layout && weights is Some {
                    weights->0
                } else {
                    Screen::starting().weights
                },
                ..Screen::starting()
            }),
    {
        let remember = config.remember_layout;
        let mut app = Self::with(files, config, has_config);
        if let Some(file) = file {
            if app.files.len() > 0 {
                app.selected = Some(position(&app.files, file));
            }
        }
        if remember {
            if let Some(weights) = weights {
                app.screen.weights = weights;
            }
        }
        app
    }

    /// The state with the selected file loaded.
    pub open spec fn loaded(
        self,
        after: App,
        before_side: Seq<char>,
        content: FileContent,
        editable: bool,
        stamp: Option<(u64, u64)>,
    ) -> bool {
        &&& crate::text::views(after.diff.old@) == crate::editor::reading(before_side)
        &&& after.diff.fits(after.shown())
        &&& after.diff.built_within(after.shown(), crate::diff::BUDGET)
        &&& if editable && content is Text {
            &&& after.readonly@.len() == 0
            &&& if self.current() is Some {
                after.buffers@ == self.buffers@
            } else {
                &&& after.buffers@.len() == self.buffers@.len() + 1
                &&& after.buffers@.drop_last() == self.buffers@
                &&& after.buffers@.last().path@ == self.here()->0
                &&& after.buffers@.last().buffer.fresh(content->Text_0, self.config)
            }
        } else {
            &&& after.buffers@ == self.buffers@
            &&& crate::text::views(after.readonly@) == crate::editor::reading(content.words())
        }
        &&& after.screen == (Screen {
            disk_stamp: stamp,
            stale: false,
            old_selection: None,
            longest_old: widest(crate::text::views(after.diff.old@), after.tab()) as usize,
            longest: crate::screen::at_least(
                widest(crate::text::views(after.diff.old@), after.tab()),
                widest(after.shown(), after.tab()),
            ) as usize,
            scroll: (match self.resume {
                Some((scroll, _)) => crate::screen::at_most(scroll as int, after.furthest()),
                None => 0,
            }) as usize,
            hscroll: (match self.resume {
                Some((_, hscroll)) => crate::screen::at_most(
                    hscroll as int,
                    after.furthest_right(),
                ),
                None => 0,
            }) as usize,
            ..self.screen
        })
        &&& after.config == self.config
        &&& after.files == self.files
        &&& after.selected == self.selected
        &&& after.error == self.error
        &&& after.notice == self.notice
        &&& after.has_config == self.has_config
        &&& after.resume is None
        &&& !after.loading
    }

    /// Take up both sides of the selected file. Unsaved edits of it stay. A revision on
    /// the right is read-only; the working tree is not.
    pub fn load_diff(
        &mut self,
        before_side: &str,
        content: &FileContent,
        editable: bool,
        stamp: Option<(u64, u64)>,
    )
        requires
            old(self).sane(),
            old(self).loading,
        ensures
            final(self).ready(),
            old(self).loaded(*final(self), before_side@, *content, editable, stamp),
    {
        let ghost start = *self;
        proof {
            self.current_there();
        }
        let head = reading_lines(before_side);
        self.screen.disk_stamp = stamp;
        self.screen.stale = false;
        self.screen.old_selection = None;
        self.readonly = Vec::new();
        let text = if editable {
            content.editable()
        } else {
            None
        };
        match text {
            Some(file) => {
                if self.current_index().is_none() {
                    if let Some(selected) = self.selected_file() {
                        let path = selected.path.clone();
                        let buffer = EditorBuffer::new(file, &self.config);
                        proof {
                            opens_distinct(start.buffers@, path@);
                        }
                        self.buffers.push(OpenFile { path, buffer });
                        proof {
                            assert(self.buffers@.drop_last() =~= start.buffers@);
                            assert(paths(self.buffers@) =~= paths(start.buffers@).push(path@));
                        }
                    }
                }
            },
            None => {
                self.readonly = reading_lines(content.text());
            },
        }
        let ghost filled = *self;
        let model = DiffModel::build_bounded(head, self.new_lines());
        self.diff = model;
        proof {
            assert(self.current() == filled.current());
            assert(self.shown() == filled.shown());
        }
        self.loading = false;
        self.measure();
        self.screen.scroll = 0;
        self.screen.hscroll = 0;
        if let Some((scroll, hscroll)) = self.resume {
            let lowest: usize = self.max_scroll();
            let right: usize = self.max_hscroll();
            self.screen.scroll = if scroll <= lowest {
                scroll
            } else {
                lowest
            };
            self.screen.hscroll = if hscroll <= right {
                hscroll
            } else {
                right
            };
        }
        self.resume = None;
    }

    fn measure_old(&self) -> (width: usize)
        ensures
            width == widest(crate::text::views(self.diff.old@), self.tab()),
    {
        widest_of(self.diff.old.as_slice(), self.tab_width())
    }

    fn measure_new(&self) -> (width: usize)
        ensures
            width == widest(self.shown(), self.tab()),
    {
        widest_of(self.new_lines(), self.tab_width())
    }

    /// The widths taken anew.
    pub open spec fn measured(self) -> App {
        let old = widest(crate::text::views(self.diff.old@), self.tab());
        App {
            screen: Screen {
                longest_old: old as usize,
                longest: crate::screen::at_least(old, widest(self.shown(), self.tab())) as usize,
                ..self.screen
            },
            ..self
        }
    }

    /// The longest line on either side, in display columns. Kept rather than derived
    /// on demand: horizontal scrolling asks for it on every event, and only an edit
    /// or a reload can change it.
    fn measure(&mut self)
        ensures
            *final(self) == old(self).measured(),
    {
        let old: usize = self.measure_old();
        let new: usize = self.measure_new();
        self.screen.longest_old = old;
        self.screen.longest = if old >= new {
            old
        } else {
            new
        };
    }
}

proof fn opens_distinct(buffers: Seq<OpenFile>, path: Seq<char>)
    requires
        paths(buffers).no_duplicates(),
        !paths(buffers).contains(path),
    ensures
        paths(buffers).push(path).no_duplicates(),
{
    let all = paths(buffers);
    assert forall|i: int, j: int|
        0 <= i < all.push(path).len() && 0 <= j < all.push(path).len() && i != j implies all.push(
        path,
    )[i] != all.push(path)[j] by {
        if i < all.len() && j == all.len() {
            assert(all.contains(all[i]));
        }
        if j < all.len() && i == all.len() {
            assert(all.contains(all[j]));
        }
    }
}

impl App {
    /// The state with another file selected and its content still to come. Unsaved
    /// edits survive navigation; everything else is cheap to rebuild.
    pub open spec fn picked(self, after: App, index: int, task: Task) -> bool {
        if self.files@.len() == 0 || self.selected == Some(index as usize) {
            after == self && task is Nothing
        } else {
            &&& task is Load
            &&& after.buffers@ == unsaved(self.buffers@)
            &&& after == App {
                selected: Some(
                    crate::screen::at_most(index, self.files@.len() - 1) as usize,
                ),
                buffers: after.buffers,
                loading: true,
                resume: None,
                ..self
            }
        }
    }

    fn select(&mut self, index: usize) -> (task: Task)
        requires
            old(self).ready(),
        ensures
            final(self).sane(),
            old(self).picked(*final(self), index as int, task),
            final(self).loading == (task is Load),
    {
        let same_row = match self.selected {
            Some(i) => i == index,
            None => false,
        };
        if self.files.len() == 0 || same_row {
            return Task::Nothing;
        }
        let ghost before = *self;
        keep_unsaved(&mut self.buffers);
        let last: usize = self.files.len() - 1;
        self.selected = Some(
            if index <= last {
                index
            } else {
                last
            },
        );
        self.loading = true;
        self.resume = None;
        proof {
            unsaved_paths(before.buffers@);
            assert forall|k: int| 0 <= k < self.buffers@.len() implies (
            #[trigger] self.buffers@[k]).buffer.sound() && self.buffers@[k].buffer.indent.width
                > 0 by {
                assert(before.buffers@.contains(self.buffers@[k]));
            }
        }
        Task::Load
    }

    /// The file list moved by a number of rows, within the list.
    pub open spec fn moved(self, after: App, delta: int, task: Task) -> bool {
        match self.selected {
            Some(row) => self.picked(
                after,
                crate::screen::stepped(row as int, delta, self.files@.len() - 1),
                task,
            ),
            None => after == self && task is Nothing,
        }
    }

    fn move_selection(&mut self, delta: i128) -> (task: Task)
        requires
            old(self).ready(),
            -0x1_0000_0000_0000_0000 <= delta <= 0x1_0000_0000_0000_0000,
        ensures
            final(self).sane(),
            old(self).moved(*final(self), delta as int, task),
            final(self).loading == (task is Load),
    {
        match self.selected {
            Some(row) => {
                let next: usize = step(row, delta, self.files.len() - 1);
                self.select(next)
            },
            None => Task::Nothing,
        }
    }

    /// Where a path is in the list of files.
    pub open spec fn listed(files: Seq<ChangedFile>, path: Option<Seq<char>>) -> int {
        match path {
            Some(path) => match names(files).index_of_first(path) {
                Some(i) => i,
                None => 0,
            },
            None => 0,
        }
    }

    /// The state with the changed files listed anew: nothing that was open stays
    /// open, and the selected file stays selected where it is still listed. A
    /// failure leaves everything as it was and is reported.
    pub open spec fn relisted(
        self,
        after: App,
        found: Result<Vec<ChangedFile>, String>,
        task: Task,
    ) -> bool {
        match found {
            Ok(files) => {
                &&& after.files == files
                &&& after.error is None
                &&& after.buffers@.len() == 0
                &&& after.config == self.config
                &&& after.notice == self.notice
                &&& after.has_config == self.has_config
                &&& after.resume is None
                &&& if files@.len() == 0 {
                    &&& task is Nothing
                    &&& after.selected is None
                    &&& !after.loading
                    &&& after.diff.rows@.len() == 0
                    &&& after.diff.old@.len() == 0
                    &&& after.readonly@.len() == 0
                    &&& after.screen == Screen {
                        longest: 0,
                        longest_old: 0,
                        old_selection: None,
                        ..self.screen
                    }
                } else {
                    &&& task is Load
                    &&& after.selected == Some(Self::listed(files@, self.here()) as usize)
                    &&& after.loading
                    &&& after.diff == self.diff
                    &&& after.readonly == self.readonly
                    &&& after.screen == self.screen
                }
            },
            Err(message) => {
                &&& task is Nothing
                &&& after == App { error: Some(message), ..self }
            },
        }
    }

    /// Take up the changed files as they are now.
    pub fn refreshed(&mut self, found: Result<Vec<ChangedFile>, String>) -> (task: Task)
        requires
            old(self).ready(),
        ensures
            final(self).sane(),
            old(self).relisted(*final(self), found, task),
            final(self).loading == (task is Load),
    {
        let files = match found {
            Ok(files) => files,
            Err(message) => {
                self.error = Some(message);
                return Task::Nothing;
            },
        };
        let index: usize = match self.selected_file() {
            Some(file) => position(&files, file.path.as_str()),
            None => 0,
        };
        let any = files.len() > 0;
        self.files = files;
        self.error = None;
        self.buffers = Vec::new();
        self.resume = None;
        if any {
            self.selected = Some(index);
            self.loading = true;
            return Task::Load;
        }
        self.selected = None;
        self.diff = DiffModel::empty();
        self.readonly = Vec::new();
        self.screen.longest = 0;
        self.screen.longest_old = 0;
        self.screen.old_selection = None;
        proof {
            self.current_there();
            assert(self.shown() =~= Seq::empty());
        }
        Task::Nothing
    }
}

pub open spec fn names(files: Seq<ChangedFile>) -> Seq<Seq<char>> {
    Seq::new(files.len(), |k: int| files[k].path@)
}

/// Where a path is in a list of files, or the first row.
fn position(files: &Vec<ChangedFile>, path: &str) -> (row: usize)
    ensures
        row == App::listed(files@, Some(path@)),
        files@.len() > 0 ==> row < files@.len(),
{
    let ghost all = names(files@);
    proof {
        all.index_of_first_ensures(path@);
    }
    let mut k: usize = 0;
    while k < files.len()
        invariant
            0 <= k <= files@.len(),
            all == names(files@),
            forall|j: int| 0 <= j < k ==> all[j] != path@,
            match all.index_of_first(path@) {
                Some(index) => {
                    &&& 0 <= index < all.len()
                    &&& all[index] == path@
                    &&& forall|j: int| 0 <= j < index < all.len() ==> all[j] != path@
                },
                None => !all.contains(path@),
            },
        decreases files@.len() - k,
    {
        assert(all[k as int] == files@[k as int].path@);
        if same_str(files[k].path.as_str(), path) {
            assert(all.contains(path@));
            return k;
        }
        k += 1;
    }
    0
}

impl App {
    /// The state after a look at the selected file on the disk. Files are expected
    /// to move under the program: a formatter, a build, a rebase. A rewritten file
    /// is read again, unless it has unsaved edits, which are flagged instead.
    pub open spec fn polled(self, after: App, stamp: Option<(u64, u64)>, task: Task) -> bool {
        if self.here() is None || stamp == self.screen.disk_stamp {
            after == self && task is Nothing
        } else if self.current() is Some && self.buffers@[self.current()->0].buffer.changed() {
            &&& task is Nothing
            &&& after == App {
                screen: Screen { disk_stamp: stamp, stale: true, ..self.screen },
                ..self
            }
        } else {
            &&& task is Load
            &&& after.buffers@ == (match self.current() {
                Some(k) => self.buffers@.remove(k),
                None => self.buffers@,
            })
            &&& after == App {
                buffers: after.buffers,
                loading: true,
                resume: Some((self.screen.scroll, self.screen.hscroll)),
                screen: Screen { disk_stamp: stamp, ..self.screen },
                ..self
            }
        }
    }

    /// The files are expected to move under the program, so a concurrent write
    /// should surface as it happens rather than at save time. One look at one file
    /// per event.
    pub fn poll_disk(&mut self, stamp: Option<(u64, u64)>) -> (task: Task)
        requires
            old(self).ready(),
        ensures
            final(self).sane(),
            old(self).polled(*final(self), stamp, task),
            final(self).loading == (task is Load),
    {
        if self.selected_file().is_none() || same_stamp(stamp, self.screen.disk_stamp) {
            return Task::Nothing;
        }
        let ghost before = *self;
        self.screen.disk_stamp = stamp;
        proof {
            self.current_there();
        }
        if let Some(k) = self.current_index() {
            if self.buffers[k].buffer.dirty() {
                self.screen.stale = true;
                return Task::Nothing;
            }
            let _gone = self.buffers.remove(k);
            proof {
                removed_distinct(before.buffers@, k as int);
            }
        }
        // The buffer holds nothing the user would lose, so let the change show.
        self.resume = Some((self.screen.scroll, self.screen.hscroll));
        self.loading = true;
        Task::Load
    }
}

fn same_stamp(a: Option<(u64, u64)>, b: Option<(u64, u64)>) -> (equal: bool)
    ensures
        equal == (a == b),
{
    match (a, b) {
        (Some(a), Some(b)) => a.0 == b.0 && a.1 == b.1,
        (None, None) => true,
        _ => false,
    }
}

proof fn removed_distinct(buffers: Seq<OpenFile>, k: int)
    requires
        0 <= k < buffers.len(),
        paths(buffers).no_duplicates(),
    ensures
        paths(buffers.remove(k)).no_duplicates(),
{
    let all = paths(buffers);
    let left = paths(buffers.remove(k));
    assert forall|i: int, j: int| 0 <= i < left.len() && 0 <= j < left.len() && i != j implies left[i]
        != left[j] by {
        let a = if i < k {
            i
        } else {
            i + 1
        };
        let b = if j < k {
            j
        } else {
            j + 1
        };
        assert(left[i] == all[a]);
        assert(left[j] == all[b]);
    }
}

// ---- Saving ------------------------------------------------------------------

/// What is to be written, and where.
pub struct Write {
    pub path: String,
    pub body: String,
}

impl App {
    /// The disk still holds what the buffer was loaded from.
    pub open spec fn undisturbed(self, on_disk: FileContent) -> bool {
        match on_disk {
            FileContent::Text(file) => file.body@
                == self.buffers@[self.current()->0].buffer.loaded_body@,
            _ => false,
        }
    }

    /// What saving comes to: the selected file's text goes to its path where the disk
    /// holds what it was loaded from, and is held back with a notice where it does not.
    pub open spec fn saving(self, after: App, on_disk: FileContent, write: Option<Write>) -> bool {
        &&& match write {
            Some(write) => {
                &&& self.current() is Some
                &&& self.undisturbed(on_disk)
                &&& write.path@ == self.here()->0
                &&& write.body@ == self.buffers@[self.current()->0].buffer.written()
                &&& after == self
            },
            None => self.current() is None || !self.undisturbed(on_disk),
        }
        &&& self.current() is None ==> after == self
        &&& self.current() is Some && !self.undisturbed(on_disk) ==> {
            &&& after.notice is Some
            &&& after.notice->0@
                == "File changed on disk since it was opened — reload with `r` to see it"@
            &&& after == App { notice: after.notice, ..self }
        }
    }

    /// What saving writes, given what the disk holds. Contents are compared rather
    /// than timestamps: an mtime that has not moved, or a same-size rewrite, would
    /// let another process's work be destroyed.
    pub fn save(&mut self, on_disk: &FileContent) -> (write: Option<Write>)
        requires
            old(self).ready(),
        ensures
            final(self).ready(),
            old(self).saving(*final(self), *on_disk, write),
            match write {
                Some(write) => {
                    &&& old(self).current() is Some
                    &&& old(self).undisturbed(*on_disk)
                    &&& write.path@ == old(self).here()->0
                    &&& write.body@ == old(self).buffers@[old(self).current()->0].buffer.written()
                    &&& *final(self) == *old(self)
                },
                None => old(self).current() is None || !old(self).undisturbed(*on_disk),
            },
            old(self).current() is None ==> *final(self) == *old(self),
            old(self).current() is Some && !old(self).undisturbed(*on_disk) ==> {
                &&& final(self).notice is Some
                &&& final(self).notice->0@
                    == "File changed on disk since it was opened — reload with `r` to see it"@
                &&& *final(self) == App { notice: final(self).notice, ..*old(self) }
            },
    {
        proof {
            self.current_there();
        }
        let k: usize = match self.current_index() {
            Some(k) => k,
            None => {
                return None;
            },
        };
        let matches = match on_disk.editable() {
            Some(file) => same_str(file.body.as_str(), self.buffers[k].buffer.loaded_body()),
            None => false,
        };
        if !matches {
            self.notice = Some(
                owned("File changed on disk since it was opened — reload with `r` to see it"),
            );
            return None;
        }
        let path = self.buffers[k].path.clone();
        let body = self.buffers[k].buffer.body();
        Some(Write { path, body })
    }

    /// The state after a write. What was written is what counts as saved.
    pub open spec fn stored(
        self,
        after: App,
        failed: Option<Seq<char>>,
        stamp: Option<(u64, u64)>,
    ) -> bool {
        match failed {
            Some(message) => {
                &&& after.notice is Some
                &&& after.notice->0@ == "Save failed: "@ + message
                &&& after == App { notice: after.notice, ..self }
            },
            None => match self.current() {
                Some(k) => {
                    let buffer = after.buffers@[k].buffer;
                    &&& after.buffers@ == self.buffers@.update(
                        k,
                        OpenFile { path: self.buffers@[k].path, buffer },
                    )
                    &&& buffer.area == self.buffers@[k].buffer.area
                    &&& buffer.same_history(&self.buffers@[k].buffer)
                    &&& buffer.ends == self.buffers@[k].buffer.ends
                    &&& buffer.eol == self.buffers@[k].buffer.eol
                    &&& buffer.trailing_newline == self.buffers@[k].buffer.trailing_newline
                    &&& buffer.indent == self.buffers@[k].buffer.indent
                    &&& crate::text::views(buffer.loaded@) == buffer.text()
                    &&& buffer.loaded_body@ == buffer.written()
                    &&& after.notice is Some
                    &&& after.notice->0@ == "Saved "@ + self.here()->0
                    &&& after == App {
                        buffers: after.buffers,
                        notice: after.notice,
                        screen: Screen { disk_stamp: stamp, stale: false, ..self.screen },
                        ..self
                    }
                },
                None => after == self,
            },
        }
    }

    /// What came of a write: nothing, or why it failed.
    pub fn saved(&mut self, failed: Option<String>, stamp: Option<(u64, u64)>)
        requires
            old(self).ready(),
        ensures
            final(self).ready(),
            old(self).stored(*final(self), crate::document::opt_view(failed), stamp),
    {
        if let Some(message) = failed {
            let mut text = owned("Save failed: ");
            text.push_str(message.as_str());
            self.notice = Some(text);
            return;
        }
        let ghost before = *self;
        proof {
            self.current_there();
        }
        if let Some(k) = self.current_index() {
            self.buffers[k].buffer.mark_saved();
            proof {
                assert(paths(self.buffers@) =~= paths(before.buffers@));
            }
            let mut text = owned("Saved ");
            text.push_str(self.buffers[k].path.as_str());
            self.notice = Some(text);
            self.screen.disk_stamp = stamp;
            self.screen.stale = false;
        }
    }

    /// The config could not be written.
    pub fn config_not_saved(&mut self, message: &str)
        requires
            old(self).ready(),
        ensures
            final(self).ready(),
            final(self).notice is Some,
            final(self).notice->0@ == "Could not save the config: "@ + message@,
            *final(self) == (App { notice: final(self).notice, ..*old(self) }),
    {
        let mut text = owned("Could not save the config: ");
        text.push_str(message);
        self.notice = Some(text);
    }
}

// ---- Keeping the diff ----------------------------------------------------------

impl App {
    /// The state with the diff built anew for the text there is and the cursor on
    /// screen, and with the widest line known to be at least `longest`.
    pub open spec fn rebuilt(self, after: App, now: u64, longest: int) -> bool {
        let seen = App {
            diff: after.diff,
            screen: Screen { typed_at: Some(now), ..self.screen },
            ..self
        }.followed();
        &&& after.diff.old == self.diff.old
        &&& after.diff.fits(self.shown())
        &&& after.diff.built_within(self.shown(), crate::diff::BUDGET)
        &&& after == App { screen: Screen { longest: longest as usize, ..seen.screen }, ..seen }
    }

    /// Rebuild the diff after an edit. Bounded in time: a coarse result keeps typing
    /// responsive and is refined on the next pause. Does not touch `longest`:
    /// callers widen it their own way, since how cheaply that can be done depends
    /// on how much of the buffer the edit could have touched.
    fn rebuild_diff(&mut self, now: u64)
        ensures
            old(self).rebuilt(*final(self), now, old(self).screen.longest as int),
    {
        let ghost before = *self;
        let mut head: Vec<String> = Vec::new();
        std::mem::swap(&mut head, &mut self.diff.old);
        proof {
            assert(self.current() == before.current());
            assert(self.shown() == before.shown());
        }
        let model = DiffModel::build_bounded(head, self.new_lines());
        self.diff = model;
        self.screen.typed_at = Some(now);
        proof {
            assert(self.current() == before.current());
            assert(self.shown() == before.shown());
        }
        self.follow_cursor();
    }

    /// The widest line, with the line of the cursor looked at.
    pub open spec fn widened(self) -> int {
        match self.current() {
            Some(k) => crate::screen::at_least(
                self.screen.longest as int,
                crate::columns::capped(
                    crate::columns::columns(
                        self.shown()[self.buffers@[k].buffer.at().0],
                        self.tab(),
                    ),
                ),
            ),
            None => self.screen.longest as int,
        }
    }

    /// Rebuild after an edit confined to the line the cursor now sits on: typing,
    /// backspace, Enter, a plain cut. `longest` only ever grows here, from that one
    /// line, and the rest of the Current side is assumed unchanged. A line getting
    /// shorter, or disappearing, leaves `longest` slightly generous rather than too
    /// small: invisible to the user, and corrected by the next load. Too small would
    /// clamp real text out of reach.
    fn rebuild(&mut self, now: u64)
        ensures
            old(self).rebuilt(*final(self), now, old(self).widened()),
    {
        self.rebuild_diff(now);
        self.widen_for_cursor_line();
    }

    fn widen_for_cursor_line(&mut self)
        ensures
            *final(self) == (App {
                screen: Screen { longest: old(self).widened() as usize, ..old(self).screen },
                ..*old(self)
            }),
    {
        let width: usize = match self.buffer() {
            Some(buffer) => {
                let (line, _) = buffer.cursor();
                let lines = buffer.lines();
                proof {
                    assert(lines@.len() == crate::text::views(lines@).len());
                }
                capped_width(lines[line].as_str(), self.tab_width())
            },
            None => 0,
        };
        if width > self.screen.longest {
            self.screen.longest = width;
        }
    }

    /// Rebuild after undo or redo, which can restore any earlier version of the
    /// buffer, not just the line the cursor now sits on, so widening from one line
    /// is not enough to keep `longest` from clamping real text short. Undo and redo
    /// are discrete keystrokes rather than a typing stream, so a full look at the
    /// Current side is affordable here.
    fn rebuild_remeasuring(&mut self, now: u64)
        ensures
            old(self).rebuilt(
                *final(self),
                now,
                crate::screen::at_least(
                    old(self).screen.longest_old as int,
                    widest(old(self).shown(), old(self).tab()),
                ),
            ),
    {
        let ghost before = *self;
        self.rebuild_diff(now);
        proof {
            assert(self.current() == before.current());
        }
        let old: usize = self.screen.longest_old;
        let new: usize = self.measure_new();
        self.screen.longest = if old >= new {
            old
        } else {
            new
        };
    }

    /// The viewport shows a stretch the last build ran out of time on.
    pub open spec fn shows_coarse(self) -> bool {
        coarse_in(self.diff, self.view_from(self.screen.scroll))
    }

    /// The rows on screen from a row on.
    pub open spec fn view_from(self, row: usize) -> Range<usize> {
        Range {
            start: row,
            end: crate::columns::capped(row + self.screen.viewport_height) as usize,
        }
    }

    fn view(&self) -> (rows: Range<usize>)
        ensures
            rows == self.view_from(self.screen.scroll),
            rows.start <= rows.end,
    {
        let end: usize = self.screen.scroll.saturating_add(self.screen.viewport_height);
        Range { start: self.screen.scroll, end }
    }

    /// Whether the viewport shows a stretch the last build ran out of time on.
    pub fn wants_refine(&self) -> (wants: bool)
        requires
            self.ready(),
        ensures
            wants == self.shows_coarse(),
    {
        proof {
            self.diff.fits_located(self.shown());
        }
        let rows = self.view();
        let found = self.diff.coarse_at(rows);
        proof {
            if let Some(k) = found {
                assert(self.diff.meets(k as int, rows));
            }
        }
        found.is_some()
    }

    /// The line of the Current side that the top row stands for.
    pub open spec fn top_line(self) -> Option<usize> {
        choose|line: Option<usize>|
            crate::diff::stands_for(
                self.diff.rows@,
                self.screen.scroll as int,
                crate::diff::Side::New,
                line,
            )
    }

    /// Where the view starts after a number of rounds of refining: where it started,
    /// and once the rows have changed at the row that the top line is on.
    pub open spec fn top_after(self, model: DiffModel, rounds: int) -> usize {
        if rounds > 0 && self.top_line() is Some {
            model.new_line_to_row@[self.top_line()->0 as int]->0
        } else {
            self.screen.scroll
        }
    }

    /// A round of refining: the first coarse stretch in view gets a real diff for the
    /// rows in view, under the deadline.
    pub open spec fn refining(
        self,
        model: DiffModel,
        next: DiffModel,
        rounds: int,
        deadline: Instant,
    ) -> bool {
        refined_in(
            model,
            next,
            self.view_from(self.top_after(model, rounds)),
            self.shown(),
            deadline,
        )
    }

    /// The rounds of a refining so far.
    pub open spec fn rounds(self, models: Seq<DiffModel>, deadline: Instant) -> bool {
        &&& models.len() > 0
        &&& models[0] == self.diff
        &&& forall|i: int|
            #![trigger models[i]]
            0 <= i < models.len() - 1 ==> self.refining(models[i], models[i + 1], i, deadline)
    }

    proof fn rounds_grow(self, models: Seq<DiffModel>, next: DiffModel, deadline: Instant)
        requires
            self.rounds(models, deadline),
            self.refining(models.last(), next, models.len() - 1, deadline),
        ensures
            self.rounds(models.push(next), deadline),
    {
        let more = models.push(next);
        assert forall|i: int|
            #![trigger more[i]]
            0 <= i < more.len() - 1 implies self.refining(more[i], more[i + 1], i, deadline) by {
            if i < models.len() - 1 {
                assert(more[i] == models[i]);
                assert(more[i + 1] == models[i + 1]);
            }
        }
    }

    /// The models of a refining under a deadline, from the one there was to the last:
    /// as long as the view shows a coarse stretch there is another round, up to
    /// `REFINE_ROUNDS` of them, unless the deadline was seen to be over after one.
    pub open spec fn refinings(self, models: Seq<DiffModel>, deadline: Instant) -> bool {
        let rounds = models.len() - 1;
        let view = self.view_from(self.top_after(models.last(), rounds));
        &&& 0 <= rounds <= REFINE_ROUNDS
        &&& self.rounds(models, deadline)
        &&& {
            ||| rounds == REFINE_ROUNDS
            ||| !coarse_in(models.last(), view)
            ||| rounds > 0 && exists|at: Instant| crate::diff::has_time(at, deadline, false)
        }
    }

    /// A deadline one budget from now, or now where the clock does not go that far.
    pub open spec fn refine_deadline(deadline: Instant) -> bool {
        ||| crate::diff::due(crate::diff::BUDGET, Some(deadline))
        ||| crate::diff::due(crate::diff::BUDGET, None) && crate::diff::is_reading(deadline)
    }

    /// The view after coarse stretches were refined, round by round: the first real
    /// line at or below the top is found again, since refinement can add rows above it
    /// and the view must not move under the reader.
    pub open spec fn refined(self, after: App) -> bool {
        let top = if self.shows_coarse() && self.top_line() is Some {
            after.row_of(self.top_line()->0 as int)
        } else {
            self.screen.scroll as int
        };
        &&& after.diff.old == self.diff.old
        &&& after.diff.fits(self.shown())
        &&& !self.shows_coarse() ==> after.diff == self.diff
        &&& exists|models: Seq<DiffModel>, deadline: Instant|
            Self::refine_deadline(deadline) && #[trigger] self.refinings(models, deadline)
                && models.last() == after.diff && (self.shows_coarse() ==> models.len() > 1)
        &&& after == App {
            diff: after.diff,
            screen: Screen {
                scroll: crate::screen::at_most(top, after.furthest()) as usize,
                ..self.screen
            },
            ..self
        }
    }
}

/// Some of the rows of a coarse stretch are in view.
pub open spec fn coarse_in(model: DiffModel, view: Range<usize>) -> bool {
    exists|k: int| 0 <= k < model.coarse@.len() && #[trigger] model.meets(k, view)
}

/// The first coarse stretch in view got a real diff for the rows in view.
pub open spec fn refined_in(
    model: DiffModel,
    next: DiffModel,
    view: Range<usize>,
    text: Seq<Seq<char>>,
    deadline: Instant,
) -> bool {
    exists|k: int|
        0 <= k < model.coarse@.len() && model.meets(k, view) && (forall|j: int|
            0 <= j < k ==> !model.meets(j, view)) && #[trigger] next.refined_by(
            &model,
            k,
            view,
            text,
            deadline,
        )
}

/// Refine the first coarse stretch in view, if there is one.
fn refine_in(model: &mut DiffModel, view: Range<usize>, new: &[String], deadline: Instant) -> (found:
    bool)
    requires
        old(model).fits(crate::text::views(new@)),
        view.start <= view.end,
    ensures
        found == coarse_in(*old(model), view),
        final(model).old == old(model).old,
        final(model).fits(crate::text::views(new@)),
        !found ==> *final(model) == *old(model),
        found ==> refined_in(*old(model), *final(model), view, crate::text::views(new@), deadline),
{
    proof {
        model.fits_located(crate::text::views(new@));
    }
    match model.coarse_at(Range { start: view.start, end: view.end }) {
        Some(index) => {
            proof {
                assert(model.meets(index as int, view));
            }
            let ghost before = *model;
            model.refine(index, view, new, deadline);
            proof {
                assert(model.refined_by(
                    &before,
                    index as int,
                    view,
                    crate::text::views(new@),
                    deadline,
                ));
            }
            true
        },
        None => false,
    }
}

/// How many windows one refining looks at.
pub const REFINE_ROUNDS: usize = 16;

impl App {
    /// Give the coarse stretches under the viewport a real diff, one window at a
    /// time, within one budget in total. The first real line at or below the top of
    /// the view is found again afterwards. The top row itself may be a phantom, since
    /// a deletion has no line on this side, so the anchor is resolved forward rather
    /// than read straight off that row.
    #[verifier::spinoff_prover]
    #[verifier::rlimit(50)]
    pub fn refine(&mut self)
        requires
            old(self).ready(),
        ensures
            final(self).ready(),
            old(self).refined(*final(self)),
    {
        let ghost start = *self;
        let ghost text = self.shown();
        let limit = crate::diff::deadline_in(crate::diff::BUDGET);
        let deadline = match limit {
            Some(deadline) => deadline,
            None => Instant::now(),
        };
        assert(Self::refine_deadline(deadline));
        let anchor = self.diff.new_line_at_or_after(self.screen.scroll);
        proof {
            crate::diff::stands_for_one(
                start.diff.rows@,
                start.screen.scroll as int,
                crate::diff::Side::New,
                anchor,
                start.top_line(),
            );
            if anchor is Some {
                crate::diff::stands_for_a_line(
                    &start.diff,
                    text,
                    start.screen.scroll as int,
                    crate::diff::Side::New,
                    anchor,
                );
            }
        }
        let wanted = self.wants_refine();
        let mut model = DiffModel::empty();
        std::mem::swap(&mut model, &mut self.diff);
        // Bounded by time, and by count in case a window makes no progress.
        let mut round: usize = 0;
        let ghost mut models = seq![model];
        while round < REFINE_ROUNDS
            invariant
                round <= REFINE_ROUNDS,
                wanted == start.shows_coarse(),
                start.ready(),
                text == start.shown(),
                model.fits(text),
                model.old == start.diff.old,
                anchor == start.top_line(),
                anchor is Some ==> anchor->0 < text.len(),
                !wanted ==> round == 0,
                models.len() == round + 1,
                models.last() == model,
                start.rounds(models, deadline),
                self.screen.scroll == start.top_after(model, round as int),
                *self == (App {
                    diff: self.diff,
                    screen: Screen { scroll: self.screen.scroll, ..start.screen },
                    ..start
                }),
            ensures
                wanted ==> round > 0,
                start.refinings(models, deadline),
            decreases REFINE_ROUNDS - round,
        {
            proof {
                assert(self.current() == start.current());
                assert(self.shown() == text);
            }
            let view = self.view();
            let ghost before = model;
            if !refine_in(&mut model, view, self.new_lines(), deadline) {
                break;
            }
            proof {
                assert(start.refining(before, model, round as int, deadline));
                start.rounds_grow(models, model, deadline);
                models = models.push(model);
            }
            if let Some(line) = anchor {
                if let Some(row) = model.row_of_new_line(line) {
                    self.screen.scroll = row;
                }
            }
            round += 1;
            if !crate::diff::in_time(deadline) {
                break;
            }
        }
        self.diff = model;
        proof {
            assert(self.current() == start.current());
            assert(self.shown() == text);
        }
        let lowest: usize = self.max_scroll();
        if self.screen.scroll > lowest {
            self.screen.scroll = lowest;
        }
        assert(start.refinings(models, deadline));
    }

    /// The state after a jump to the next or the last run of changed rows. While
    /// editing the cursor goes along: leaving it behind would only mean that the
    /// next keystroke scrolls back to it.
    pub open spec fn jumped(self, after: App, forward: bool) -> bool {
        exists|row: Option<usize>| #[trigger] self.jumped_to(after, forward, row)
    }

    pub open spec fn jumped_to(self, after: App, forward: bool, row: Option<usize>) -> bool {
        let from = self.screen.scroll as int;
        &&& if forward {
            crate::diff::next_hunk(self.diff.rows@, from, row)
        } else {
            crate::diff::last_hunk(self.diff.rows@, from, row)
        }
        &&& match row {
            Some(row) => {
                let line = choose|line: Option<usize>|
                    crate::diff::stands_for(
                        self.diff.rows@,
                        row as int,
                        crate::diff::Side::New,
                        line,
                    );
                if self.edits() && line is Some {
                    let k = self.current()->0;
                    let buffer = after.buffers@[k].buffer;
                    &&& self.kept_but(after, k)
                    &&& buffer.placed(&self.buffers@[k].buffer, line->0 as int, 0)
                    &&& buffer.anchor() is None
                    &&& after == App {
                        buffers: after.buffers,
                        ..self.scrolled_to(row as int)
                    }
                } else {
                    after == self.scrolled_to(row as int)
                }
            },
            None => after == self,
        }
    }

    /// Only the text of one open file may differ.
    pub open spec fn kept_but(self, after: App, k: int) -> bool {
        &&& 0 <= k < self.buffers@.len()
        &&& after.buffers@ == self.buffers@.update(
            k,
            OpenFile { path: self.buffers@[k].path, buffer: after.buffers@[k].buffer },
        )
    }

    /// A state in which the buffer of the selected file has changed, and nothing of
    /// it that the diff or the paths depend on.
    proof fn touched(self, after: App, k: int)
        requires
            self.sane(),
            self.current() == Some(k),
            0 <= k < self.buffers@.len(),
            self.kept_but(after, k),
            after.files == self.files,
            after.selected == self.selected,
            after.readonly == self.readonly,
            after.config.indent_width == self.config.indent_width,
            after.buffers@[k].buffer.sound(),
            after.buffers@[k].buffer.indent == self.buffers@[k].buffer.indent,
        ensures
            paths(after.buffers@) == paths(self.buffers@),
            after.current() == self.current(),
            after.tab() == self.tab(),
            after.shown() == after.buffers@[k].buffer.text(),
            forall|j: int|
                0 <= j < after.buffers@.len() ==> (#[trigger] after.buffers@[j]).buffer.sound()
                    && after.buffers@[j].buffer.indent.width > 0,
    {
        assert(paths(after.buffers@) =~= paths(self.buffers@));
    }

    fn jump_hunk(&mut self, forward: bool)
        requires
            old(self).ready(),
        ensures
            final(self).ready(),
            old(self).jumped(*final(self), forward),
    {
        let ghost start = *self;
        let found = if forward {
            self.diff.changed_row_after(self.screen.scroll)
        } else {
            self.diff.changed_row_before(self.screen.scroll)
        };
        let row: usize = match found {
            Some(row) => row,
            None => {
                assert(start.jumped_to(*self, forward, None));
                return;
            },
        };
        self.scroll_to(row);
        let line = self.diff.new_line_at_or_after(row);
        proof {
            let chosen = choose|line: Option<usize>|
                crate::diff::stands_for(
                    start.diff.rows@,
                    row as int,
                    crate::diff::Side::New,
                    line,
                );
            crate::diff::stands_for_one(
                start.diff.rows@,
                row as int,
                crate::diff::Side::New,
                line,
                chosen,
            );
            assert(self.current() == start.current());
            self.current_there();
        }
        if self.editing() {
            if let Some(line) = line {
                if let Some(k) = self.current_index() {
                    self.buffers[k].buffer.move_cursor_to(line, 0);
                    proof {
                        assert(self.buffers@ =~= start.buffers@.update(
                            k as int,
                            OpenFile {
                                path: start.buffers@[k as int].path,
                                buffer: self.buffers@[k as int].buffer,
                            },
                        ));
                        start.touched(*self, k as int);
                    }
                }
            }
        }
        proof {
            assert(start.jumped_to(*self, forward, Some(row)));
        }
    }
}

// ---- Keys ----------------------------------------------------------------------

impl App {
    /// Quitting, or asking first where edits would be lost.
    pub open spec fn quit_asked(self) -> App {
        if self.has_unsaved() {
            App { screen: Screen { prompt: Some(Prompt::Quit), ..self.screen }, ..self }
        } else {
            App { screen: Screen { quit: true, ..self.screen }, ..self }
        }
    }

    fn request_quit(&mut self)
        ensures
            *final(self) == old(self).quit_asked(),
    {
        if self.dirty_files().len() == 0 {
            self.screen.quit = true;
        } else {
            self.screen.prompt = Some(Prompt::Quit);
        }
    }

    /// Listing the files anew, or asking first where edits would be lost.
    pub open spec fn reload_asked(self, after: App, task: Task) -> bool {
        if self.has_unsaved() {
            &&& task is Nothing
            &&& after == App {
                screen: Screen { prompt: Some(Prompt::Reload), ..self.screen },
                ..self
            }
        } else {
            task is Refresh && after == self
        }
    }

    fn request_reload(&mut self) -> (task: Task)
        ensures
            old(self).reload_asked(*final(self), task),
    {
        if self.dirty_files().len() == 0 {
            Task::Refresh
        } else {
            self.screen.prompt = Some(Prompt::Reload);
            Task::Nothing
        }
    }

    /// The state after a key while a question is open. A reload that is wanted drops
    /// every edit at once: what is shown stays to be read until the files are listed.
    pub open spec fn answered(self, after: App, prompt: Prompt, key: KeyPress, task: Task) -> bool {
        let closed = App { screen: Screen { prompt: None, ..self.screen }, ..self };
        match key.code {
            Key::Char('y') | Key::Char('Y') => match prompt {
                Prompt::Quit => task is Nothing && after == App {
                    screen: Screen { quit: true, ..closed.screen },
                    ..closed
                },
                Prompt::Reload => {
                    &&& task is Refresh
                    &&& after.buffers@.len() == 0
                    &&& crate::text::views(after.readonly@) == self.shown()
                    &&& after == App {
                        buffers: after.buffers,
                        readonly: after.readonly,
                        ..closed
                    }
                },
            },
            Key::Char('n') | Key::Char('N') | Key::Esc => task is Nothing && after == closed,
            _ => task is Nothing && after == self,
        }
    }

    /// Close every buffer. What is shown stays as text to read.
    fn drop_edits(&mut self)
        requires
            old(self).ready(),
        ensures
            final(self).ready(),
            final(self).buffers@.len() == 0,
            crate::text::views(final(self).readonly@) == old(self).shown(),
            final(self).shown() == old(self).shown(),
            *final(self) == (App {
                buffers: final(self).buffers,
                readonly: final(self).readonly,
                ..*old(self)
            }),
    {
        let ghost start = *self;
        let shown = crate::text::copies(self.new_lines());
        self.readonly = shown;
        self.buffers = Vec::new();
        proof {
            self.current_there();
            assert(paths(self.buffers@) =~= Seq::empty());
            assert(self.current() is None);
            assert(self.shown() == start.shown());
        }
    }

    fn answer(&mut self, prompt: Prompt, key: KeyPress) -> (task: Task)
        requires
            old(self).ready(),
        ensures
            final(self).ready(),
            old(self).answered(*final(self), prompt, key, task),
    {
        match key.code {
            Key::Char('y') | Key::Char('Y') => {
                self.screen.prompt = None;
                match prompt {
                    Prompt::Quit => {
                        self.screen.quit = true;
                        Task::Nothing
                    },
                    Prompt::Reload => {
                        self.drop_edits();
                        Task::Refresh
                    },
                }
            },
            Key::Char('n') | Key::Char('N') | Key::Esc => {
                self.screen.prompt = None;
                Task::Nothing
            },
            _ => Task::Nothing,
        }
    }

    /// The state after a step of a setting. What it changes applies and is kept as
    /// it is made; a setting at the end of its range changes nothing and is not
    /// written.
    pub open spec fn adjusted(self, after: App, row: int, step: int, task: Task) -> bool {
        let set = App { config: after.config, ..self };
        let seen = if ALL@[row] == Setting::IndentWidth {
            set.measured()
        } else {
            set
        };
        &&& ALL@[row].adjusted(self.config, after.config, step)
        &&& if after.config@ == self.config@ {
            task is Nothing && after == set
        } else if self.has_config {
            task is SaveConfig && after == seen
        } else {
            &&& task is Nothing
            &&& after.notice is Some
            &&& after.notice->0@ == "No config file to save to — changes last for this run"@
            &&& after == App { notice: after.notice, ..seen }
        }
    }

    fn adjust(&mut self, row: usize, step: isize) -> (task: Task)
        requires
            old(self).ready(),
            row < 8,
        ensures
            final(self).ready(),
            old(self).adjusted(*final(self), row as int, step as int, task),
    {
        let ghost start = *self;
        let before = self.config.clone();
        let setting = ALL[row];
        setting.adjust(&mut self.config, step);
        proof {
            assert(self.current() == start.current());
            assert(self.shown() == start.shown());
        }
        if self.config.same(&before) {
            return Task::Nothing;
        }
        // It is the tab width of a file with nothing to detect an indent from, so
        // it can move how wide every tab renders even though no line changed.
        if setting == Setting::IndentWidth {
            self.measure();
        }
        if self.has_config {
            return Task::SaveConfig;
        }
        self.notice = Some(owned("No config file to save to — changes last for this run"));
        Task::Nothing
    }

    /// The state after a key while the settings panel is open.
    pub open spec fn set(self, after: App, row: int, key: KeyPress, task: Task) -> bool {
        let to = |row: Option<usize>|
            task is Nothing && after == App {
                screen: Screen { settings: row, ..self.screen },
                ..self
            };
        match key.code {
            Key::Esc | Key::Char('q') => to(None),
            Key::Down | Key::Tab => to(Some(crate::screen::at_most(row + 1, 7) as usize)),
            Key::Up | Key::BackTab => to(Some(crate::screen::at_least(row - 1, 0) as usize)),
            Key::Home => to(Some(0usize)),
            Key::End => to(Some(7usize)),
            Key::Right | Key::Enter | Key::Char(' ') => self.adjusted(after, row, 1, task),
            Key::Left => self.adjusted(after, row, -1, task),
            _ => task is Nothing && after == self,
        }
    }

    /// The settings panel takes every key while it is open, so nothing it does can
    /// leak into the diff underneath. A preference is not a document: a change
    /// applies and is kept as it is made, with no save step.
    fn on_settings_key(&mut self, row: usize, key: KeyPress) -> (task: Task)
        requires
            old(self).ready(),
            row < 8,
        ensures
            final(self).ready(),
            old(self).set(*final(self), row as int, key, task),
    {
        match key.code {
            Key::Esc | Key::Char('q') => {
                self.screen.settings = None;
                Task::Nothing
            },
            Key::Down | Key::Tab => {
                self.screen.settings = Some(
                    if row < 7 {
                        row + 1
                    } else {
                        7
                    },
                );
                Task::Nothing
            },
            Key::Up | Key::BackTab => {
                self.screen.settings = Some(row.saturating_sub(1));
                Task::Nothing
            },
            Key::Home => {
                self.screen.settings = Some(0);
                Task::Nothing
            },
            Key::End => {
                self.screen.settings = Some(7);
                Task::Nothing
            },
            Key::Right | Key::Enter | Key::Char(' ') => self.adjust(row, 1),
            Key::Left => self.adjust(row, -1),
            _ => Task::Nothing,
        }
    }

    /// The state with a part of the view changed.
    pub open spec fn seen(self, screen: Screen) -> App {
        App { screen, ..self }
    }

    /// The state after a key outside the editor.
    pub open spec fn viewed(self, after: App, key: KeyPress, task: Task) -> bool {
        let still = task is Nothing;
        match key.code {
            Key::Char('q') => still && after == self.quit_asked(),
            Key::Char('c') if key.ctrl => if self.screen.focus == Pane::Old
                && self.old_text() is Some {
                task is Copy && task->Copy_0@ == self.old_text()->0 && after == self
            } else {
                still && after == self.quit_asked()
            },
            Key::Char('r') => self.reload_asked(after, task),
            Key::Char(',') => still && after == self.seen(
                Screen { settings: Some(0usize), ..self.screen },
            ),
            Key::Char('?') => still && after == self.seen(Screen { help: true, ..self.screen }),
            Key::Char('b') if key.ctrl => still && after == self.seen(self.screen.toggled()),
            Key::Esc => still && after == self.seen(
                Screen { focus: self.screen.home(), ..self.screen },
            ),
            Key::BackTab => still && after == self.seen(self.screen.cycled()),
            Key::Down if key.alt => still && self.jumped(after, true),
            Key::Up if key.alt => still && self.jumped(after, false),
            Key::Down if self.screen.focus == Pane::Files => self.moved(after, 1, task),
            Key::Up if self.screen.focus == Pane::Files => self.moved(after, -1, task),
            _ => still && after == self.stepped(key),
        }
    }

    /// The view after a key that scrolls it.
    pub open spec fn stepped(self, key: KeyPress) -> App {
        let page = crate::screen::at_least(self.screen.viewport_height as int, 1);
        let step = crate::screen::HSCROLL_STEP as int;
        match key.code {
            Key::Down => self.scrolled(1),
            Key::Up => self.scrolled(-1),
            Key::PageDown => self.scrolled(page),
            Key::PageUp => self.scrolled(-page),
            Key::Home => self.seen(Screen { scroll: 0, ..self.screen }),
            Key::End => self.seen(Screen { scroll: self.furthest() as usize, ..self.screen }),
            Key::Right => self.scrolled_sideways(step),
            Key::Left => self.scrolled_sideways(-step),
            _ => self,
        }
    }

    #[verifier::spinoff_prover]
    fn step_view(&mut self, key: KeyPress)
        requires
            old(self).ready(),
        ensures
            final(self).ready(),
            *final(self) == old(self).stepped(key),
    {
        let ghost start = *self;
        let page: i128 = if self.screen.viewport_height >= 1 {
            self.screen.viewport_height as i128
        } else {
            1
        };
        match key.code {
            Key::Down => {
                self.scroll_by(1);
            },
            Key::Up => {
                self.scroll_by(-1);
            },
            Key::PageDown => {
                self.scroll_by(page);
            },
            Key::PageUp => {
                self.scroll_by(-page);
            },
            Key::Home => {
                self.screen.scroll = 0;
            },
            Key::End => {
                self.screen.scroll = self.max_scroll();
            },
            Key::Right => {
                self.scroll_sideways(crate::screen::HSCROLL_STEP as i128);
            },
            Key::Left => {
                self.scroll_sideways(-(crate::screen::HSCROLL_STEP as i128));
            },
            _ => {},
        }
        proof {
            start.redrawn(*self);
        }
    }

    #[verifier::spinoff_prover]
    #[verifier::rlimit(30)]
    fn on_view_key(&mut self, key: KeyPress) -> (task: Task)
        requires
            old(self).ready(),
        ensures
            final(self).sane(),
            final(self).loading == (task is Load),
            old(self).viewed(*final(self), key, task),
    {
        match key.code {
            Key::Char('q') => {
                self.request_quit();
            },
            Key::Char('c') if key.ctrl => {
                if self.screen.focus == Pane::Old {
                    if let Some(text) = self.old_selected_text() {
                        return Task::Copy(text);
                    }
                }
                self.request_quit();
            },
            Key::Char('r') => {
                return self.request_reload();
            },
            Key::Char(',') => {
                self.screen.settings = Some(0);
            },
            Key::Char('?') => {
                self.screen.help = true;
            },
            Key::Char('b') if key.ctrl => {
                self.screen.toggle_files();
            },
            Key::Esc => {
                self.screen.focus = self.screen.home_pane();
            },
            // `Tab` belongs to the editor. Letting it also cycle panes means it
            // silently changes meaning at the end of the cycle, which is worse
            // than one key having a single job.
            Key::BackTab => {
                self.screen.cycle_pane();
            },
            Key::Down if key.alt => {
                self.jump_hunk(true);
            },
            Key::Up if key.alt => {
                self.jump_hunk(false);
            },
            Key::Down if self.screen.focus == Pane::Files => {
                return self.move_selection(1);
            },
            Key::Up if self.screen.focus == Pane::Files => {
                return self.move_selection(-1);
            },
            _ => {
                self.step_view(key);
            },
        }
        Task::Nothing
    }
}

/// Putting nothing in the place of nothing changes no line.
proof fn nothing_spliced(lines: Seq<Seq<char>>, at: (int, int))
    requires
        crate::area::inside(lines, at),
    ensures
        crate::area::spliced(lines, at, at, seq![Seq::<char>::empty()]) == lines,
{
    let line = lines[at.0];
    assert(line.take(at.1) + Seq::<char>::empty() + line.skip(at.1) =~= line);
    assert(crate::area::spliced(lines, at, at, seq![Seq::<char>::empty()]) =~= lines);
}

impl App {
    /// The state with the buffers it has in another.
    pub open spec fn with_buffers(self, after: App) -> App {
        App { buffers: after.buffers, ..self }
    }

    /// The state after going to another step of the history.
    pub open spec fn travelled(self, after: App, to: int, now: u64) -> bool {
        let k = self.current()->0;
        let buffer = self.buffers@[k].buffer;
        let edited = self.with_buffers(after);
        if 0 <= to < buffer.snapshots@.len() {
            &&& self.kept_but(after, k)
            &&& after.buffers@[k].buffer.same_file(&buffer)
            &&& after.buffers@[k].buffer.restored(&buffer, to)
            &&& edited.rebuilt(
                after,
                now,
                crate::screen::at_least(
                    self.screen.longest_old as int,
                    widest(edited.shown(), self.tab()),
                ),
            )
        } else {
            after == self
        }
    }

    fn travel(&mut self, back: bool, now: u64)
        requires
            old(self).ready(),
            old(self).current() is Some,
        ensures
            final(self).ready(),
            old(self).travelled(
                *final(self),
                if back {
                    old(self).buffers@[old(self).current()->0].buffer.index - 1
                } else {
                    old(self).buffers@[old(self).current()->0].buffer.index + 1
                },
                now,
            ),
    {
        let ghost start = *self;
        proof {
            self.current_there();
        }
        if let Some(k) = self.current_index() {
            let there = if back {
                self.buffers[k].buffer.index > 0
            } else {
                self.buffers[k].buffer.index + 1 < self.buffers[k].buffer.snapshots.len()
            };
            if !there {
                return;
            }
            let _moved = if back {
                self.buffers[k].buffer.undo()
            } else {
                self.buffers[k].buffer.redo()
            };
            proof {
                assert(self.buffers@ =~= start.buffers@.update(
                    k as int,
                    OpenFile {
                        path: start.buffers@[k as int].path,
                        buffer: self.buffers@[k as int].buffer,
                    },
                ));
                start.touched(*self, k as int);
            }
            let ghost edited = *self;
            self.rebuild_remeasuring(now);
            proof {
                assert(self.buffers == edited.buffers);
                start.touched(*self, k as int);
            }
        }
    }
}

impl App {
    /// The state after the selection was cut out.
    pub open spec fn cut_out(self, after: App, now: u64, task: Task) -> bool {
        let k = self.current()->0;
        let buffer = self.buffers@[k].buffer;
        let edited = self.with_buffers(after);
        match buffer.anchor() {
            Some(anchor) => {
                &&& task is Copy
                &&& task->Copy_0@ == crate::editor::stretch(
                    buffer.text(),
                    crate::area::ordered(anchor, buffer.at()),
                )
                &&& self.kept_but(after, k)
                &&& after.buffers@[k].buffer.same_file(&buffer)
                &&& crate::area::replaced(
                    buffer.area,
                    after.buffers@[k].buffer.area,
                    seq![Seq::<char>::empty()],
                )
                &&& if anchor != buffer.at() {
                    &&& after.buffers@[k].buffer.recorded(
                        &buffer,
                        crate::editor::EditKind::Other,
                        now,
                    )
                    &&& edited.rebuilt(after, now, edited.widened())
                } else {
                    &&& after.buffers@[k].buffer.same_history(&buffer)
                    &&& after.buffers@[k].buffer.ends == buffer.ends
                    &&& after == edited
                }
            },
            None => task is Nothing && after == self,
        }
    }

    fn cut(&mut self, now: u64) -> (task: Task)
        requires
            old(self).ready(),
            old(self).current() is Some,
        ensures
            final(self).ready(),
            old(self).cut_out(*final(self), now, task),
    {
        let ghost start = *self;
        proof {
            self.current_there();
        }
        let k: usize = match self.current_index() {
            Some(k) => k,
            None => {
                return Task::Nothing;
            },
        };
        let text = match self.buffers[k].buffer.selected_text() {
            Some(text) => text,
            None => {
                return Task::Nothing;
            },
        };
        let changed = self.buffers[k].buffer.cut(now);
        proof {
            assert(self.buffers@ =~= start.buffers@.update(
                k as int,
                OpenFile {
                    path: start.buffers@[k as int].path,
                    buffer: self.buffers@[k as int].buffer,
                },
            ));
            start.touched(*self, k as int);
        }
        if changed {
            let ghost edited = *self;
            self.rebuild(now);
            proof {
                assert(self.buffers == edited.buffers);
                start.touched(*self, k as int);
            }
        } else {
            proof {
                let buffer = start.buffers@[k as int].buffer;
                nothing_spliced(buffer.text(), buffer.at());
            }
        }
        Task::Copy(text)
    }

    /// The state after a text was put in the place of the selection, or at the
    /// cursor.
    pub open spec fn pasted(self, after: App, text: Seq<char>, now: u64) -> bool {
        if self.edits() {
            let k = self.current()->0;
            let buffer = self.buffers@[k].buffer;
            let pieces = crate::area::text_lines(text);
            let (from, to) = crate::area::target(buffer.at(), buffer.anchor());
            let edited = self.with_buffers(after);
            let any = !(pieces.len() == 1 && pieces[0].len() == 0);
            &&& self.kept_but(after, k)
            &&& after.buffers@[k].buffer.same_file(&buffer)
            &&& crate::area::replaced(buffer.area, after.buffers@[k].buffer.area, pieces)
            &&& if any {
                after.buffers@[k].buffer.recorded(&buffer, crate::editor::EditKind::Other, now)
            } else {
                &&& after.buffers@[k].buffer.same_history(&buffer)
                &&& after.buffers@[k].buffer.endings() == (if from != to {
                    buffer.endings_after(after.buffers@[k].buffer.area)
                } else {
                    buffer.endings()
                })
            }
            &&& if any || from != to {
                edited.rebuilt(
                    after,
                    now,
                    crate::screen::at_least(
                        edited.widened(),
                        widest(
                            edited.shown().subrange(
                                from.0,
                                after.buffers@[k].buffer.at().0 + 1,
                            ),
                            self.tab(),
                        ),
                    ),
                )
            } else {
                after == edited
            }
        } else {
            after == self
        }
    }

    /// Put a text in the place of the selection, or at the cursor.
    ///
    /// The cursor is left on the last line the paste produced, so looking at its
    /// line alone never sees the first one: the prefix that was already there plus
    /// the pasted text's own first line, which can be wider than either alone. That
    /// first line is where the selection starts, or the cursor is.
    pub fn paste(&mut self, text: &str, now: u64)
        requires
            old(self).ready(),
        ensures
            final(self).ready(),
            old(self).pasted(*final(self), text@, now),
    {
        let ghost start = *self;
        if !self.editing() {
            return;
        }
        proof {
            self.current_there();
        }
        let k: usize = match self.current_index() {
            Some(k) => k,
            None => {
                return;
            },
        };
        let selection = self.buffers[k].buffer.selection();
        let cursor = self.buffers[k].buffer.cursor();
        let first: usize = match selection {
            Some((from, _)) => from.0,
            None => cursor.0,
        };
        let covers = match selection {
            Some((from, to)) => !(from.0 == to.0 && from.1 == to.1),
            None => false,
        };
        let changed = self.buffers[k].buffer.insert_str(text, now);
        proof {
            assert(self.buffers@ =~= start.buffers@.update(
                k as int,
                OpenFile {
                    path: start.buffers@[k as int].path,
                    buffer: self.buffers@[k as int].buffer,
                },
            ));
            start.touched(*self, k as int);
        }
        if changed || covers {
            let ghost edited = *self;
            self.rebuild(now);
            proof {
                assert(self.buffers == edited.buffers);
                start.touched(*self, k as int);
            }
            let last: usize = self.buffers[k].buffer.cursor().0;
            let tab: usize = self.tab_width();
            let lines = self.buffers[k].buffer.lines();
            let count: usize = lines.len();
            proof {
                assert(lines@.len() == crate::text::views(lines@).len());
                assert(last < count);
                crate::text::pieces_nonempty(text@, '\n');
                assert(first <= last);
            }
            // Exactly the rows the paste touched.
            let part = vstd::slice::slice_subrange(lines, first, last + 1);
            let width: usize = widest_of(part, tab);
            proof {
                assert(crate::text::views(part@) =~= crate::text::views(lines@).subrange(
                    first as int,
                    last + 1,
                ));
            }
            if width > self.screen.longest {
                self.screen.longest = width;
            }
        } else {
            proof {
                let buffer = start.buffers@[k as int].buffer;
                nothing_spliced(buffer.text(), buffer.at());
                assert(crate::area::text_lines(text@)[0] =~= Seq::<char>::empty());
                assert(crate::area::text_lines(text@) =~= seq![Seq::<char>::empty()]);
            }
        }
    }
}

impl App {
    /// The state after a key that the text area takes. A cursor move snaps the view
    /// just like an edit does.
    pub open spec fn typed(self, after: App, key: KeyPress, now: u64) -> bool {
        exists|changed: bool| #[trigger] self.typed_in(after, key, now, changed)
    }

    pub open spec fn typed_in(self, after: App, key: KeyPress, now: u64, changed: bool) -> bool {
        let k = self.current()->0;
        let buffer = self.buffers@[k].buffer;
        let edited = self.with_buffers(after);
        &&& self.kept_but(after, k)
        &&& after.buffers@[k].buffer.same_file(&buffer)
        &&& after.buffers@[k].buffer.typed(&buffer, key, now, changed)
        &&& if changed {
            edited.rebuilt(after, now, edited.widened())
        } else {
            after == edited.seen(Screen { typed_at: Some(now), ..self.screen }).followed()
        }
    }

    fn type_key(&mut self, key: KeyPress, now: u64)
        requires
            old(self).ready(),
            old(self).current() is Some,
            !(crate::area::deed(key) is Paste),
        ensures
            final(self).ready(),
            old(self).typed(*final(self), key, now),
    {
        let ghost start = *self;
        proof {
            self.current_there();
        }
        if let Some(k) = self.current_index() {
            let changed = self.buffers[k].buffer.input(key, now);
            proof {
                assert(self.buffers@ =~= start.buffers@.update(
                    k as int,
                    OpenFile {
                        path: start.buffers@[k as int].path,
                        buffer: self.buffers@[k as int].buffer,
                    },
                ));
                start.touched(*self, k as int);
            }
            let ghost edited = *self;
            if changed {
                self.rebuild(now);
            } else {
                self.screen.typed_at = Some(now);
                proof {
                    start.touched(*self, k as int);
                }
                self.follow_cursor();
            }
            proof {
                assert(self.buffers == edited.buffers);
                start.touched(*self, k as int);
                assert(start.typed_in(*self, key, now, changed));
            }
        }
    }

    /// The state after a key in the editor. Focus is the only gate on editing, so
    /// single-key shortcuts belong to the buffer here. Only the program's own chords
    /// are taken first.
    pub open spec fn edited(self, after: App, key: KeyPress, now: u64, task: Task) -> bool {
        let buffer = self.buffers@[self.current()->0].buffer;
        let still = task is Nothing;
        match key.code {
            Key::Esc => still && after == self.seen(
                Screen { focus: self.screen.home(), ..self.screen },
            ),
            Key::BackTab => still && after == self.seen(self.screen.cycled()),
            Key::Char('b') if key.ctrl => still && after == self.seen(self.screen.toggled()),
            Key::Up if key.alt => still && self.jumped(after, false),
            Key::Down if key.alt => still && self.jumped(after, true),
            Key::Char('s') if key.ctrl => task is Save && after == self,
            Key::Char('z') if key.ctrl => still && self.travelled(after, buffer.index - 1, now),
            Key::Char('y') if key.ctrl => still && self.travelled(after, buffer.index + 1, now),
            Key::Char('c') if key.ctrl => {
                &&& after == self
                &&& match buffer.anchor() {
                    Some(anchor) => task is Copy && task->Copy_0@ == crate::editor::stretch(
                        buffer.text(),
                        crate::area::ordered(anchor, buffer.at()),
                    ),
                    None => still,
                }
            },
            Key::Char('x') if key.ctrl => self.cut_out(after, now, task),
            Key::Char('v') if key.ctrl => task is Paste && after == self,
            _ => still && self.typed(after, key, now),
        }
    }

    #[verifier::spinoff_prover]
    #[verifier::rlimit(40)]
    fn on_edit_key(&mut self, key: KeyPress, now: u64) -> (task: Task)
        requires
            old(self).ready(),
            old(self).current() is Some,
        ensures
            final(self).ready(),
            old(self).edited(*final(self), key, now, task),
    {
        match key.code {
            Key::Esc => {
                self.screen.focus = self.screen.home_pane();
                Task::Nothing
            },
            Key::BackTab => {
                self.screen.cycle_pane();
                Task::Nothing
            },
            Key::Char('b') if key.ctrl => {
                self.screen.toggle_files();
                Task::Nothing
            },
            Key::Up if key.alt => {
                self.jump_hunk(false);
                Task::Nothing
            },
            Key::Down if key.alt => {
                self.jump_hunk(true);
                Task::Nothing
            },
            Key::Char('s') if key.ctrl => Task::Save,
            Key::Char('z') if key.ctrl => {
                self.travel(true, now);
                Task::Nothing
            },
            Key::Char('y') if key.ctrl => {
                self.travel(false, now);
                Task::Nothing
            },
            Key::Char('c') if key.ctrl => self.copied(),
            Key::Char('x') if key.ctrl => self.cut(now),
            Key::Char('v') if key.ctrl => Task::Paste,
            _ => {
                self.type_key(key, now);
                Task::Nothing
            },
        }
    }

    /// The selection of the buffer, to be copied.
    fn copied(&self) -> (task: Task)
        requires
            self.ready(),
            self.current() is Some,
        ensures
            ({
                let buffer = self.buffers@[self.current()->0].buffer;
                match buffer.anchor() {
                    Some(anchor) => task is Copy && task->Copy_0@ == crate::editor::stretch(
                        buffer.text(),
                        crate::area::ordered(anchor, buffer.at()),
                    ),
                    None => task is Nothing,
                }
            }),
    {
        proof {
            self.current_there();
        }
        match self.current_index() {
            Some(k) => match self.buffers[k].buffer.selected_text() {
                Some(text) => Task::Copy(text),
                None => Task::Nothing,
            },
            None => Task::Nothing,
        }
    }

    /// The state after a key while the key list is open. The arrows reach the rows a
    /// short terminal cannot show; anything else closes it, since it is a reminder
    /// rather than a mode.
    pub open spec fn reminded(self, key: KeyPress) -> App {
        match key.code {
            Key::Down => self.seen(
                Screen {
                    help_scroll: crate::columns::capped(self.screen.help_scroll + 1) as usize,
                    ..self.screen
                },
            ),
            Key::Up => self.seen(
                Screen {
                    help_scroll: crate::screen::at_least(
                        self.screen.help_scroll - 1,
                        0,
                    ) as usize,
                    ..self.screen
                },
            ),
            _ => self.seen(Screen { help: false, help_scroll: 0, ..self.screen }),
        }
    }

    /// The state after a key. A question takes every key, then the key list, then
    /// the settings panel.
    pub open spec fn keyed(self, after: App, key: KeyPress, now: u64, task: Task) -> bool {
        let cleared = App {
            notice: None,
            screen: Screen { notice_until: None, ..self.screen },
            ..self
        };
        if let Some(prompt) = self.screen.prompt {
            cleared.answered(after, prompt, key, task)
        } else if self.screen.help {
            task is Nothing && after == cleared.reminded(key)
        } else if let Some(row) = self.screen.settings {
            cleared.set(after, row as int, key, task)
        } else if self.edits() {
            cleared.edited(after, key, now, task)
        } else {
            cleared.viewed(after, key, task)
        }
    }

    pub fn on_key(&mut self, key: KeyPress, now: u64) -> (task: Task)
        requires
            old(self).ready(),
        ensures
            final(self).sane(),
            final(self).loading == (task is Load),
            old(self).keyed(*final(self), key, now, task),
    {
        let ghost start = *self;
        self.notice = None;
        self.screen.notice_until = None;
        proof {
            assert(self.current() == start.current());
            assert(self.shown() == start.shown());
        }
        if let Some(prompt) = self.screen.prompt {
            return self.answer(prompt, key);
        }
        if self.screen.help {
            match key.code {
                Key::Down => {
                    self.screen.help_scroll = self.screen.help_scroll.saturating_add(1);
                },
                Key::Up => {
                    self.screen.help_scroll = self.screen.help_scroll.saturating_sub(1);
                },
                _ => {
                    self.screen.help = false;
                    self.screen.help_scroll = 0;
                },
            }
            return Task::Nothing;
        }
        if let Some(row) = self.screen.settings {
            return self.on_settings_key(row, key);
        }
        if self.editing() {
            self.on_edit_key(key, now)
        } else {
            self.on_view_key(key)
        }
    }
}

// ---- The mouse -------------------------------------------------------------------

impl App {
    /// A state in which only the view differs is as sane as before.
    pub proof fn redrawn(self, after: App)
        requires
            self.ready(),
            after == self.seen(after.screen),
            after.screen.settings == self.screen.settings,
            after.screen.drag == self.screen.drag,
            after.screen.old_selection == self.screen.old_selection,
        ensures
            after.ready(),
            after.current() == self.current(),
            after.shown() == self.shown(),
            after.tab() == self.tab(),
    {
    }

    /// The lines of a side.
    pub open spec fn side_lines(self, pane: Pane) -> Seq<Seq<char>> {
        if pane == Pane::Old {
            crate::text::views(self.diff.old@)
        } else {
            self.shown()
        }
    }

    /// The place in the text of a side that a cell shows, through the visual row. A
    /// phantom row stands for the next real line; past the end of a line is its end.
    pub open spec fn pointed(self, side: Pane, x: int, y: int, found: Option<(usize, usize)>) -> bool {
        let pane = self.screen.area_of(side);
        let of = if side == Pane::Old {
            crate::diff::Side::Old
        } else {
            crate::diff::Side::New
        };
        let row = crate::columns::capped(self.screen.scroll + y - (pane.y + 1));
        let line = choose|line: Option<usize>|
            crate::diff::stands_for(self.diff.rows@, row, of, line);
        let lines = self.side_lines(side);
        let gutter = crate::columns::gutter(lines.len() as int) + 1;
        let display = crate::columns::capped(
            crate::screen::at_least(x - (pane.x + 1) - gutter, 0) + self.screen.hscroll,
        );
        if y < pane.y + 1 || x < pane.x + 1 || line is None {
            found is None
        } else {
            &&& found is Some
            &&& (found->0).0 == line->0
            &&& crate::columns::first_at(
                lines[line->0 as int],
                display,
                self.tab(),
                (found->0).1 as int,
            )
        }
    }

    fn text_position(&self, side: Pane, x: u32, y: u32) -> (found: Option<(usize, usize)>)
        requires
            self.ready(),
        ensures
            self.pointed(side, x as int, y as int, found),
            found is Some ==> (found->0).0 < self.side_lines(side).len(),
    {
        let pane = self.screen.rect(side);
        let top: u32 = pane.y as u32 + 1;
        let left: u32 = pane.x as u32 + 1;
        if y < top || x < left {
            return None;
        }
        let row: usize = self.screen.scroll.saturating_add((y - top) as usize);
        let of = if side == Pane::Old {
            crate::diff::Side::Old
        } else {
            crate::diff::Side::New
        };
        let resolved = self.diff.line_at_or_after(row, of);
        proof {
            let chosen = choose|line: Option<usize>|
                crate::diff::stands_for(self.diff.rows@, row as int, of, line);
            crate::diff::stands_for_one(self.diff.rows@, row as int, of, resolved, chosen);
        }
        let line: usize = match resolved {
            Some(line) => line,
            None => {
                return None;
            },
        };
        proof {
            crate::diff::stands_for_a_line(&self.diff, self.shown(), row as int, of, resolved);
        }
        let lines = if side == Pane::Old {
            self.diff.old.as_slice()
        } else {
            self.new_lines()
        };
        proof {
            assert(crate::text::views(lines@) == self.side_lines(side));
            assert(crate::text::views(lines@)[line as int] == lines@[line as int]@);
        }
        let gutter: usize = gutter_width(lines.len());
        let column: usize = (x - left) as usize;
        let past: usize = if column > gutter {
            column - gutter - 1
        } else {
            0
        };
        let display: usize = past.saturating_add(self.screen.hscroll);
        let index: usize = char_index_at(lines[line].as_str(), display, self.tab_width());
        Some((line, index))
    }

    /// Terminal cell to buffer position, through the visual row. Clicking a phantom
    /// row lands on the next real line; clicking past the end of a line lands at
    /// its end.
    pub fn buffer_position(&self, at: Position) -> (found: Option<(usize, usize)>)
        requires
            self.ready(),
        ensures
            self.pointed(Pane::New, at.x as int, at.y as int, found),
            found is Some ==> (found->0).0 < self.shown().len(),
    {
        self.text_position(Pane::New, at.x as u32, at.y as u32)
    }

    /// The cells of a pane that show text: its first and last column, its first and
    /// last row.
    pub open spec fn text_area(self, pane: Pane) -> (int, int, int, int) {
        let rect = self.screen.area_of(pane);
        let gutter = crate::columns::gutter(self.side_lines(pane).len() as int) + 1;
        (
            rect.x + 1 + gutter,
            crate::screen::at_least(rect.x + rect.width - 2, 0),
            rect.y + 1,
            crate::screen::at_least(rect.y + rect.height - 2, 0),
        )
    }

    /// The view with one step taken toward a pointer outside the pane.
    pub open spec fn pulled(self, pane: Pane, at: Position) -> App {
        let (left, right, top, bottom) = self.text_area(pane);
        let step = crate::screen::HSCROLL_STEP as int;
        let armed = self.seen(
            Screen {
                edge_drag: if self.has_room(pane, at) {
                    Some(at)
                } else {
                    None
                },
                ..self.screen
            },
        );
        let aside = if at.x < left {
            armed.scrolled_sideways(-step)
        } else if at.x > right {
            armed.scrolled_sideways(step)
        } else {
            armed
        };
        if at.y < top {
            aside.scrolled(-1)
        } else if at.y > bottom {
            aside.scrolled(1)
        } else {
            aside
        }
    }

    /// The cells of a pane that show text.
    fn edges(&self, pane: Pane) -> (edges: (u32, u32, u32, u32))
        ensures
            self.text_area(pane) == (
                edges.0 as int,
                edges.1 as int,
                edges.2 as int,
                edges.3 as int,
            ),
            edges.1 < u32::MAX,
    {
        let rect = self.screen.rect(pane);
        let count: usize = if pane == Pane::Old {
            self.diff.old.len()
        } else {
            self.new_lines().len()
        };
        proof {
            assert(self.side_lines(pane).len() == count);
            crate::columns::gutter_small(count as int);
        }
        let gutter: u32 = gutter_width(count) as u32 + 1;
        (
            rect.x as u32 + 1 + gutter,
            (rect.x as u32 + rect.width as u32).saturating_sub(2),
            rect.y as u32 + 1,
            (rect.y as u32 + rect.height as u32).saturating_sub(2),
        )
    }

    /// There is room to scroll toward a pointer outside the pane.
    pub open spec fn has_room(self, pane: Pane, at: Position) -> bool {
        let (left, right, top, bottom) = self.text_area(pane);
        ||| at.x < left && self.screen.hscroll > 0
        ||| at.x > right && self.screen.hscroll < self.furthest_right()
        ||| at.y < top && self.screen.scroll > 0
        ||| at.y > bottom && self.screen.scroll < self.furthest()
    }

    /// The view with one step taken toward a pointer outside the pane.
    #[verifier::spinoff_prover]
    fn pull(&mut self, pane: Pane, at: Position) -> (cell: (u32, u32))
        ensures
            *final(self) == old(self).pulled(pane, at),
            cell == old(self).nearest(pane, at),
    {
        let (left, right, top, bottom) = self.edges(pane);
        let x: u32 = at.x as u32;
        let y: u32 = at.y as u32;
        // Worth ticking again only while there is room in the direction asked for.
        // Judged before the step rather than by whether anything moved: while
        // editing, the frame's clamp widens `hscroll` by one column for the cursor
        // at the right limit, and the next step would "move" it back, a change
        // every tick, forever.
        let room = (x < left && self.screen.hscroll > 0) || (x > right && self.screen.hscroll
            < self.max_hscroll()) || (y < top && self.screen.scroll > 0) || (y > bottom
            && self.screen.scroll < self.max_scroll());
        self.screen.edge_drag = if room {
            Some(at)
        } else {
            None
        };
        if x < left {
            self.scroll_sideways(-(crate::screen::HSCROLL_STEP as i128));
        } else if x > right {
            self.scroll_sideways(crate::screen::HSCROLL_STEP as i128);
        }
        if y < top {
            self.scroll_by(-1);
        } else if y > bottom {
            self.scroll_by(1);
        }
        (between(x, left, right + 1), between(y, top, bottom))
    }

    /// The cell of a pane nearest to the pointer. Past the right edge it is one
    /// column beyond the last visible one: that is what takes in the character under
    /// it, and the end of the line once the view is scrolled all the way.
    pub open spec fn nearest(self, pane: Pane, at: Position) -> (u32, u32) {
        let (left, right, top, bottom) = self.text_area(pane);
        (
            crate::screen::at_most(crate::screen::at_least(at.x as int, left), right + 1) as u32,
            crate::screen::at_most(crate::screen::at_least(at.y as int, top), bottom) as u32,
        )
    }

    /// The state with the selection grown to the pointer.
    pub open spec fn extended(self, after: App, pane: Pane, at: Position) -> bool {
        exists|found: Option<(usize, usize)>| #[trigger] self.extended_to(after, pane, at, found)
    }

    pub open spec fn extended_to(
        self,
        after: App,
        pane: Pane,
        at: Position,
        found: Option<(usize, usize)>,
    ) -> bool {
        let pulled = self.pulled(pane, at);
        let cell = self.nearest(pane, at);
        &&& pulled.pointed(pane, cell.0 as int, cell.1 as int, found)
        &&& match found {
            Some(place) => if pane == Pane::Old {
                match self.screen.old_selection {
                    Some((anchor, _)) => after == pulled.seen(
                        Screen { old_selection: Some((anchor, place)), ..pulled.screen },
                    ),
                    None => after == pulled,
                }
            } else {
                match self.current() {
                    Some(k) => {
                        let buffer = after.buffers@[k].buffer;
                        &&& self.kept_but(after, k)
                        &&& buffer.placed(
                            &self.buffers@[k].buffer,
                            place.0 as int,
                            place.1 as int,
                        )
                        &&& buffer.anchor() == self.buffers@[k].buffer.anchor()
                        &&& after == pulled.with_buffers(after)
                    },
                    None => after == pulled,
                }
            },
            None => after == pulled,
        }
    }

    /// Grow the selection to the pointer. Past an edge of the pane, the view scrolls
    /// a step toward the pointer as well and the selection reaches the text that
    /// just came into view: dragging to the border is how the rest of a long line is
    /// reached, as in any editor.
    #[verifier::spinoff_prover]
    fn extend_selection(&mut self, pane: Pane, at: Position)
        requires
            old(self).ready(),
        ensures
            final(self).ready(),
            old(self).extended(*final(self), pane, at),
    {
        let ghost start = *self;
        let cell = self.pull(pane, at);
        let ghost pulled = *self;
        proof {
            start.redrawn(pulled);
            self.current_there();
        }
        let found = self.text_position(pane, cell.0, cell.1);
        if let Some(place) = found {
            if pane == Pane::Old {
                if let Some((anchor, _)) = self.screen.old_selection {
                    self.screen.old_selection = Some((anchor, place));
                }
            } else if let Some(k) = self.current_index() {
                self.buffers[k].buffer.move_cursor_to_keeping_selection(place.0, place.1);
                proof {
                    assert(self.buffers@ =~= start.buffers@.update(
                        k as int,
                        OpenFile {
                            path: start.buffers@[k as int].path,
                            buffer: self.buffers@[k as int].buffer,
                        },
                    ));
                    start.touched(*self, k as int);
                }
            }
        }
        proof {
            assert(start.extended_to(*self, pane, at, found));
        }
    }
}

/// A number brought up to a lower bound, and then down to an upper one.
fn between(n: u32, low: u32, high: u32) -> (m: u32)
    ensures
        m == crate::screen::at_most(crate::screen::at_least(n as int, low as int), high as int),
{
    let up: u32 = if n > low {
        n
    } else {
        low
    };
    if up < high {
        up
    } else {
        high
    }
}

impl App {
    /// Scroll events are held off: a trackpad keeps sending them after the finger
    /// has left it, and those that arrive just after a keystroke would drag the view
    /// straight back off the line being edited. There is no way to tell such an
    /// event from a deliberate one, so this is a plain guard window.
    pub open spec fn guarded(self, now: u64) -> bool {
        &&& self.config.momentum_delay_ms > 0
        &&& self.edits()
        &&& self.screen.typed_at is Some
        &&& crate::screen::at_least(now - self.screen.typed_at->0, 0)
            < self.config.momentum_delay_ms * MILLI
    }

    fn within_momentum_guard(&self, now: u64) -> (held: bool)
        ensures
            held == self.guarded(now),
    {
        match self.screen.typed_at {
            Some(at) => {
                let elapsed: u64 = now.saturating_sub(at);
                self.config.momentum_delay_ms > 0 && self.editing() && (elapsed as u128)
                    < self.config.momentum_delay_ms as u128 * MILLI as u128
            },
            None => false,
        }
    }

    /// The row of the file list under a cell, below the border.
    pub open spec fn listed_at(self, at: Position) -> int {
        crate::columns::capped(
            self.screen.list_offset + crate::screen::at_least(
                at.y - (self.screen.panes@[0].y + 1),
                0,
            ),
        )
    }

    fn file_row(&self, at: Position) -> (row: usize)
        ensures
            row == self.listed_at(at),
    {
        let top: u32 = self.screen.panes[0].y as u32 + 1;
        let offset: u32 = (at.y as u32).saturating_sub(top);
        self.screen.list_offset.saturating_add(offset as usize)
    }

    /// The state after a press of the left button inside a pane.
    pub open spec fn pressed(self, after: App, pane: Pane, at: Position, task: Task) -> bool {
        match pane {
            Pane::Files => if self.listed_at(at) < self.files@.len() {
                self.picked(after, self.listed_at(at), task)
            } else {
                task is Nothing && after == self
            },
            _ => task is Nothing && exists|found: Option<(usize, usize)>| #[trigger]
                self.pressed_on(after, pane, at, found),
        }
    }

    pub open spec fn pressed_on(
        self,
        after: App,
        pane: Pane,
        at: Position,
        found: Option<(usize, usize)>,
    ) -> bool {
        &&& self.pointed(pane, at.x as int, at.y as int, found)
        &&& match found {
            Some(place) => if pane == Pane::Old {
                after == self.seen(
                    Screen {
                        selecting: Some(Pane::Old),
                        old_selection: Some((place, place)),
                        ..self.screen
                    },
                )
            } else {
                let chosen = self.seen(Screen { selecting: Some(Pane::New), ..self.screen });
                match self.current() {
                    Some(k) => {
                        let buffer = after.buffers@[k].buffer;
                        &&& self.kept_but(after, k)
                        &&& buffer.placed(
                            &self.buffers@[k].buffer,
                            place.0 as int,
                            place.1 as int,
                        )
                        &&& buffer.anchor() == Some(buffer.at())
                        &&& after == chosen.with_buffers(after)
                    },
                    None => after == chosen,
                }
            },
            None => after == self,
        }
    }

    #[verifier::spinoff_prover]
    fn press(&mut self, pane: Pane, at: Position) -> (task: Task)
        requires
            old(self).ready(),
        ensures
            final(self).sane(),
            final(self).loading == (task is Load),
            old(self).pressed(*final(self), pane, at, task),
    {
        let ghost start = *self;
        if pane == Pane::Files {
            let row: usize = self.file_row(at);
            if row < self.files.len() {
                return self.select(row);
            }
            return Task::Nothing;
        }
        let found = self.text_position(pane, at.x as u32, at.y as u32);
        if let Some(place) = found {
            if pane == Pane::Old {
                self.screen.selecting = Some(Pane::Old);
                self.screen.old_selection = Some((place, place));
            } else {
                self.screen.selecting = Some(Pane::New);
                proof {
                    start.redrawn(*self);
                    self.current_there();
                }
                if let Some(k) = self.current_index() {
                    self.buffers[k].buffer.move_cursor_to(place.0, place.1);
                    self.buffers[k].buffer.start_selection();
                    proof {
                        assert(self.buffers@ =~= start.buffers@.update(
                            k as int,
                            OpenFile {
                                path: start.buffers@[k as int].path,
                                buffer: self.buffers@[k as int].buffer,
                            },
                        ));
                        start.touched(*self, k as int);
                    }
                }
            }
        }
        proof {
            assert(start.pressed_on(*self, pane, at, found));
        }
        Task::Nothing
    }

    /// The state after one wheel notch in a pane. The file list moves by one entry:
    /// a selection is a choice, not a distance.
    pub open spec fn wheeled(self, after: App, over: Option<Pane>, down: bool, task: Task) -> bool {
        let (entry, rows) = if down {
            (1int, self.config.scroll_lines as int)
        } else {
            (-1int, -(self.config.scroll_lines as int))
        };
        if over == Some(Pane::Files) {
            self.seen(Screen { focus: Pane::Files, ..self.screen }).moved(after, entry, task)
        } else {
            &&& task is Nothing
            &&& after == self.seen(self.screen.following(over)).scrolled(rows)
        }
    }

    fn wheel(&mut self, over: Option<Pane>, down: bool) -> (task: Task)
        requires
            old(self).ready(),
        ensures
            final(self).sane(),
            final(self).loading == (task is Load),
            old(self).wheeled(*final(self), over, down, task),
    {
        let ghost start = *self;
        if let Some(Pane::Files) = over {
            self.screen.focus = Pane::Files;
            proof {
                start.redrawn(*self);
            }
            return self.move_selection(
                if down {
                    1
                } else {
                    -1
                },
            );
        }
        self.screen.focus_diff(over);
        proof {
            start.redrawn(*self);
        }
        let lines: i128 = self.config.scroll_lines as i128;
        let ghost focused = *self;
        self.scroll_by(
            if down {
                lines
            } else {
                -lines
            },
        );
        proof {
            focused.redrawn(*self);
        }
        Task::Nothing
    }

    /// The state after a sideways notch: both diff sides scroll together, so the pane
    /// under the pointer only decides focus.
    pub open spec fn swiped(self, over: Option<Pane>, right: bool) -> App {
        let step = crate::screen::HSCROLL_STEP as int;
        self.seen(self.screen.following(over)).scrolled_sideways(
            if right {
                step
            } else {
                -step
            },
        )
    }

    fn swipe(&mut self, over: Option<Pane>, right: bool)
        requires
            old(self).ready(),
        ensures
            final(self).ready(),
            *final(self) == old(self).swiped(over, right),
    {
        let ghost start = *self;
        self.screen.focus_diff(over);
        proof {
            start.redrawn(*self);
        }
        let ghost focused = *self;
        let step: i128 = crate::screen::HSCROLL_STEP as i128;
        self.scroll_sideways(
            if right {
                step
            } else {
                -step
            },
        );
        proof {
            focused.redrawn(*self);
        }
    }

    /// The state after a right click on the file list. The gesture is "take this",
    /// not "go here": the row under the pointer is copied and the selection stays
    /// where it was.
    pub open spec fn taken(self, after: App, at: Position, now: u64, task: Task) -> bool {
        let row = self.listed_at(at);
        if row < self.files@.len() {
            let path = self.files@[row].path@;
            &&& task is Copy
            &&& task->Copy_0@ == path
            &&& after.notice is Some
            &&& after.notice->0@ == "Copied "@ + path
            &&& after == App {
                notice: after.notice,
                screen: Screen { notice_until: Some(until(now)), ..self.screen },
                ..self
            }
        } else {
            task is Nothing && after == self
        }
    }

    fn take(&mut self, at: Position, now: u64) -> (task: Task)
        requires
            old(self).ready(),
        ensures
            final(self).ready(),
            old(self).taken(*final(self), at, now, task),
    {
        let ghost start = *self;
        let row: usize = self.file_row(at);
        if row < self.files.len() {
            let path = self.files[row].path.clone();
            let mut text = owned("Copied ");
            text.push_str(path.as_str());
            self.notice = Some(text);
            self.screen.notice_until = Some(now.saturating_add(NOTICE_TTL));
            proof {
                assert(self.current() == start.current());
                assert(self.shown() == start.shown());
            }
            return Task::Copy(path);
        }
        Task::Nothing
    }
}

/// When a notice that came at `now` clears itself.
pub open spec fn until(now: u64) -> u64 {
    if now + NOTICE_TTL <= u64::MAX {
        (now + NOTICE_TTL) as u64
    } else {
        u64::MAX
    }
}

impl App {
    /// The state after the left button went down, outside the footer's buttons. A
    /// border between two panes is a handle first and part of a pane second.
    pub open spec fn grabbed(self, after: App, at: Position, task: Task) -> bool {
        let over = self.screen.pane_under(at);
        let free = Screen { drag: None, edge_drag: None, selecting: None, ..self.screen };
        if self.screen.divider(at) is Some {
            &&& task is Nothing
            &&& after == self.seen(Screen { drag: self.screen.divider(at), ..self.screen })
        } else if over is Some {
            self.seen(Screen { focus: over->0, ..free }).pressed(after, over->0, at, task)
        } else {
            task is Nothing && after == self.seen(free)
        }
    }

    fn grab(&mut self, at: Position) -> (task: Task)
        requires
            old(self).ready(),
        ensures
            final(self).sane(),
            final(self).loading == (task is Load),
            old(self).grabbed(*final(self), at, task),
    {
        let ghost start = *self;
        if let Some(divider) = self.screen.divider_at(at) {
            self.screen.drag = Some(divider);
            proof {
                assert(self.current() == start.current());
                assert(self.shown() == start.shown());
            }
            return Task::Nothing;
        }
        // A release outside the terminal never arrives, so a stale drag would turn
        // the next selection into a resize.
        self.screen.drag = None;
        self.screen.edge_drag = None;
        self.screen.selecting = None;
        let over = self.screen.pane_at(at);
        proof {
            assert(self.current() == start.current());
            assert(self.shown() == start.shown());
        }
        match over {
            Some(pane) => {
                let ghost free = *self;
                self.screen.focus = pane;
                proof {
                    free.redrawn(*self);
                }
                self.press(pane, at)
            },
            None => Task::Nothing,
        }
    }

    /// The state after the pointer moved with the left button down.
    pub open spec fn dragged(self, after: App, at: Position) -> bool {
        if let Some(index) = self.screen.drag {
            &&& after.screen.weights@ == self.screen.dragged(index as int, at.x as int)
            &&& after == self.seen(Screen { weights: after.screen.weights, ..self.screen })
        } else if let Some(pane) = self.screen.selecting {
            self.extended(after, pane, at)
        } else {
            after == self
        }
    }

    fn drag(&mut self, at: Position)
        requires
            old(self).ready(),
        ensures
            final(self).ready(),
            old(self).dragged(*final(self), at),
    {
        let ghost start = *self;
        if let Some(index) = self.screen.drag {
            self.screen.drag_divider(index, at.x);
            proof {
                start.redrawn(*self);
            }
        } else if let Some(pane) = self.screen.selecting {
            self.extend_selection(pane, at);
        }
    }

    /// Something that scrolls.
    pub open spec fn scrolls(kind: MouseKind) -> bool {
        kind is ScrollUp || kind is ScrollDown || kind is ScrollLeft || kind is ScrollRight
    }

    /// The state after something the mouse did. A question and an open panel take
    /// the mouse the way they take the keyboard: a click on the panel must not fall
    /// through to the pane drawn under it.
    pub open spec fn moused(self, after: App, mouse: Mouse, now: u64, task: Task) -> bool {
        let over = self.screen.pane_under(mouse.at);
        let sideways = mouse.shift || mouse.alt;
        let button = self.screen.button_under(mouse.at);
        let still = task is Nothing;
        if self.screen.prompt is Some || (Self::scrolls(mouse.kind) && self.guarded(now)) {
            still && after == self
        } else if mouse.kind == MouseKind::Down(Button::Left) && button is Some {
            still && after == self.seen(self.screen.pressed(button->0 as int))
        } else if self.screen.settings is Some || self.screen.help {
            still && after == self
        } else {
            match mouse.kind {
                MouseKind::Down(Button::Left) => self.grabbed(after, mouse.at, task),
                MouseKind::Down(Button::Right) => if over == Some(Pane::Files) {
                    self.taken(after, mouse.at, now, task)
                } else {
                    still && after == self
                },
                MouseKind::Drag(Button::Left) => still && self.dragged(after, mouse.at),
                MouseKind::Up(Button::Left) => still && after == self.seen(
                    Screen { drag: None, edge_drag: None, selecting: None, ..self.screen },
                ),
                MouseKind::ScrollDown => if sideways {
                    still && after == self.swiped(over, true)
                } else {
                    self.wheeled(after, over, true, task)
                },
                MouseKind::ScrollUp => if sideways {
                    still && after == self.swiped(over, false)
                } else {
                    self.wheeled(after, over, false, task)
                },
                MouseKind::ScrollRight => still && after == self.swiped(over, true),
                MouseKind::ScrollLeft => still && after == self.swiped(over, false),
                _ => still && after == self,
            }
        }
    }

    #[verifier::spinoff_prover]
    #[verifier::rlimit(30)]
    pub fn on_mouse(&mut self, mouse: Mouse, now: u64) -> (task: Task)
        requires
            old(self).ready(),
        ensures
            final(self).sane(),
            final(self).loading == (task is Load),
            old(self).moused(*final(self), mouse, now, task),
    {
        let ghost start = *self;
        if self.screen.prompt.is_some() {
            return Task::Nothing;
        }
        let scrolling = match mouse.kind {
            MouseKind::ScrollUp
            | MouseKind::ScrollDown
            | MouseKind::ScrollLeft
            | MouseKind::ScrollRight => true,
            _ => false,
        };
        if scrolling && self.within_momentum_guard(now) {
            return Task::Nothing;
        }
        let at = mouse.at;
        if mouse.kind == MouseKind::Down(Button::Left) {
            if let Some(index) = self.screen.button_at(at) {
                self.screen.press_button(index);
                proof {
                    assert(self.current() == start.current());
                    assert(self.shown() == start.shown());
                }
                return Task::Nothing;
            }
        }
        if self.screen.settings.is_some() || self.screen.help {
            return Task::Nothing;
        }
        let over = self.screen.pane_at(at);
        // Most terminals never report a horizontal wheel, so a modifier held during
        // a normal scroll is the gesture that works everywhere. Two of them, because
        // terminals disagree about which ones they forward.
        let sideways = mouse.shift || mouse.alt;
        match mouse.kind {
            MouseKind::Down(Button::Left) => {
                return self.grab(at);
            },
            MouseKind::Down(Button::Right) => {
                if let Some(Pane::Files) = over {
                    return self.take(at, now);
                }
            },
            MouseKind::Drag(Button::Left) => {
                self.drag(at);
            },
            MouseKind::Up(Button::Left) => {
                self.screen.drag = None;
                self.screen.edge_drag = None;
                self.screen.selecting = None;
                proof {
                    assert(self.current() == start.current());
                    assert(self.shown() == start.shown());
                }
            },
            // The wheel carries a position like any other mouse event, so the pane
            // under the pointer is the one the user means: following it saves
            // reaching for the keyboard just to say so.
            MouseKind::ScrollDown => {
                if sideways {
                    self.swipe(over, true);
                } else {
                    return self.wheel(over, true);
                }
            },
            MouseKind::ScrollUp => {
                if sideways {
                    self.swipe(over, false);
                } else {
                    return self.wheel(over, false);
                }
            },
            MouseKind::ScrollRight => {
                self.swipe(over, true);
            },
            MouseKind::ScrollLeft => {
                self.swipe(over, false);
            },
            _ => {},
        }
        Task::Nothing
    }
}

// ---- The clock --------------------------------------------------------------------

impl App {
    /// A drag is being held past a pane edge and the view can still move.
    pub fn dragging_past_edge(&self) -> (held: bool)
        ensures
            held == self.screen.past_edge(),
    {
        self.screen.dragging_past_edge()
    }

    /// One more step of the scroll a held drag asked for.
    pub open spec fn autoscrolled(self, after: App) -> bool {
        match (self.screen.selecting, self.screen.edge_drag) {
            (Some(pane), Some(at)) => self.extended(after, pane, at),
            _ => after == self,
        }
    }

    pub fn autoscroll(&mut self)
        requires
            old(self).ready(),
        ensures
            final(self).ready(),
            old(self).autoscrolled(*final(self)),
    {
        if let Some(pane) = self.screen.selecting {
            if let Some(at) = self.screen.edge_drag {
                self.extend_selection(pane, at);
            }
        }
    }

    /// The soonest of what is due without any input.
    pub open spec fn due(self, now: u64) -> Option<int> {
        let notice = match self.screen.notice_until {
            Some(at) => Some(crate::screen::at_least(at - now, 0)),
            None => None,
        };
        if self.screen.past_edge() {
            Some(AUTOSCROLL_TICK as int)
        } else if self.shows_coarse() {
            match notice {
                Some(left) => Some(crate::screen::at_most(left, REFINE_PAUSE as int)),
                None => Some(REFINE_PAUSE as int),
            }
        } else {
            notice
        }
    }

    /// How long until something is due without any input, if anything is, in
    /// nanoseconds. `None` is the idle case: the event loop blocks.
    pub fn next_tick(&self, now: u64) -> (wait: Option<u64>)
        requires
            self.ready(),
        ensures
            match wait {
                Some(wait) => self.due(now) == Some(wait as int),
                None => self.due(now) is None,
            },
    {
        if self.dragging_past_edge() {
            return Some(AUTOSCROLL_TICK);
        }
        let refine = self.wants_refine();
        match self.screen.notice_until {
            Some(at) => {
                let left: u64 = at.saturating_sub(now);
                if refine && left > REFINE_PAUSE {
                    Some(REFINE_PAUSE)
                } else {
                    Some(left)
                }
            },
            None => if refine {
                Some(REFINE_PAUSE)
            } else {
                None
            },
        }
    }

    /// The state once what was due has been done, soonest first.
    pub open spec fn ticked(self, after: App, now: u64) -> bool {
        if self.screen.past_edge() {
            self.autoscrolled(after)
        } else if self.screen.notice_until is Some && self.screen.notice_until->0 <= now {
            after == App {
                notice: None,
                screen: Screen { notice_until: None, ..self.screen },
                ..self
            }
        } else if self.shows_coarse() {
            self.refined(after)
        } else {
            after == self
        }
    }

    /// Service whatever `next_tick` was waiting on, soonest first. A wake-up for one
    /// of them restarts the wait for the others, which only matters to the refine
    /// pause, and that is a pause, not a deadline.
    pub fn tick(&mut self, now: u64)
        requires
            old(self).ready(),
        ensures
            final(self).ready(),
            old(self).ticked(*final(self), now),
    {
        let ghost start = *self;
        if self.dragging_past_edge() {
            self.autoscroll();
            return;
        }
        let over = match self.screen.notice_until {
            Some(at) => at <= now,
            None => false,
        };
        if over {
            self.notice = None;
            self.screen.notice_until = None;
            proof {
                assert(self.current() == start.current());
                assert(self.shown() == start.shown());
            }
        } else if self.wants_refine() {
            self.refine();
        }
    }
}

/// What the event loop does next.
#[derive(Debug, Clone, Copy, PartialEq, Eq, Structural)]
pub enum Turn {
    Stop,
    /// Draw a frame, and take the view back within its limits.
    Draw,
    /// Wait for something to happen, for so many nanoseconds where something is due
    /// without input.
    Wait(Option<u64>),
}

/// What came of waiting.
#[derive(Debug, Clone, Copy, PartialEq, Eq, Structural)]
pub enum Happened {
    /// Nothing, until what was due was due.
    Timeout,
    Key,
    Mouse(MouseKind),
    Paste,
    Resize,
    Other,
}

impl App {
    /// What the event loop does next. Blocking is the normal case: an idle program
    /// should cost nothing. A timeout is armed only while something is due without
    /// input: a held drag past an edge, a notice about to fade, a rebuild that ran out
    /// of time and a pause would let finish.
    pub fn turn(&self, dirty: bool, now: u64) -> (turn: Turn)
        requires
            self.ready(),
        ensures
            match turn {
                Turn::Stop => self.screen.quit,
                Turn::Draw => !self.screen.quit && dirty,
                Turn::Wait(wait) => {
                    &&& !self.screen.quit
                    &&& !dirty
                    &&& match wait {
                        Some(wait) => self.due(now) == Some(wait as int),
                        None => self.due(now) is None,
                    }
                },
            },
    {
        if self.screen.quit {
            Turn::Stop
        } else if dirty {
            Turn::Draw
        } else {
            Turn::Wait(self.next_tick(now))
        }
    }
}

/// Whether a frame is due after something happened. Terminals that report motion
/// anyway must not cost a redraw.
pub fn redraw_after(happened: Happened) -> (dirty: bool)
    ensures
        dirty == (match happened {
            Happened::Mouse(kind) => kind != MouseKind::Moved,
            Happened::Other => false,
            _ => true,
        }),
{
    match happened {
        Happened::Mouse(kind) => kind != MouseKind::Moved,
        Happened::Other => false,
        _ => true,
    }
}

// ---- Laws ---------------------------------------------------------------------------

/// No key quits while edits would be lost, unless it answers the question.
pub proof fn no_key_quits_over_unsaved_edits(
    app: App,
    after: App,
    key: KeyPress,
    now: u64,
    task: Task,
)
    requires
        app.ready(),
        app.keyed(after, key, now, task),
        app.has_unsaved(),
        app.screen.prompt is None,
        !app.screen.quit,
    ensures
        !after.screen.quit,
{
    app.current_there();
    let cleared = App {
        notice: None,
        screen: Screen { notice_until: None, ..app.screen },
        ..app
    };
    let k = choose|k: int| 0 <= k < app.buffers@.len() && app.buffers@[k].buffer.changed();
    assert(cleared.buffers@[k].buffer.changed());
    assert(cleared.has_unsaved());
    if app.screen.help {
    } else if let Some(row) = app.screen.settings {
        setting_keeps_going(cleared, after, row as int, key, task);
    } else if app.edits() {
        editing_keeps_going(cleared, after, key, now, task);
    } else {
        viewing_keeps_going(cleared, after, key, task);
    }
}

proof fn setting_keeps_going(app: App, after: App, row: int, key: KeyPress, task: Task)
    ensures
        app.set(after, row, key, task) ==> after.screen.quit == app.screen.quit,
{
}

#[verifier::spinoff_prover]
proof fn editing_keeps_going(app: App, after: App, key: KeyPress, now: u64, task: Task)
    ensures
        app.edited(after, key, now, task) ==> after.screen.quit == app.screen.quit,
{
    if app.edited(after, key, now, task) {
        jumping_keeps_going(app, after, true);
        jumping_keeps_going(app, after, false);
        if app.typed(after, key, now) {
            let changed = choose|changed: bool| #[trigger] app.typed_in(after, key, now, changed);
            assert(app.typed_in(after, key, now, changed));
        }
    }
}

proof fn jumping_keeps_going(app: App, after: App, forward: bool)
    ensures
        app.jumped(after, forward) ==> after.screen.quit == app.screen.quit,
{
    if app.jumped(after, forward) {
        let row = choose|row: Option<usize>| #[trigger] app.jumped_to(after, forward, row);
        assert(app.jumped_to(after, forward, row));
    }
}

#[verifier::spinoff_prover]
proof fn viewing_keeps_going(app: App, after: App, key: KeyPress, task: Task)
    ensures
        app.viewed(after, key, task) && app.has_unsaved() ==> after.screen.quit == app.screen.quit,
{
    jumping_keeps_going(app, after, true);
    jumping_keeps_going(app, after, false);
}

/// Reading the files again, which drops what is open, is only asked for while
/// nothing is unsaved, or by the answer to the question.
pub proof fn no_key_reloads_over_unsaved_edits(
    app: App,
    after: App,
    key: KeyPress,
    now: u64,
    task: Task,
)
    requires
        app.ready(),
        app.keyed(after, key, now, task),
        app.screen.prompt is None,
        task is Refresh,
    ensures
        !app.has_unsaved(),
        after.buffers == app.buffers,
{
    let cleared = App {
        notice: None,
        screen: Screen { notice_until: None, ..app.screen },
        ..app
    };
    if app.has_unsaved() {
        let k = choose|k: int| 0 <= k < app.buffers@.len() && app.buffers@[k].buffer.changed();
        assert(cleared.buffers@[k].buffer.changed());
        assert(cleared.has_unsaved());
    }
}

/// Nothing the mouse does quits or opens a question.
#[verifier::spinoff_prover]
#[verifier::rlimit(40)]
pub proof fn the_mouse_never_quits(app: App, after: App, mouse: Mouse, now: u64, task: Task)
    requires
        app.ready(),
        app.moused(after, mouse, now, task),
    ensures
        after.screen.quit == app.screen.quit,
        after.screen.prompt == app.screen.prompt,
        !(task is Refresh),
{
    match mouse.kind {
        MouseKind::Down(button) => {
            if button == Button::Left {
                press_keeps_going(app, after, mouse.at, task);
            }
        },
        MouseKind::Drag(button) => {
            if let Some(pane) = app.screen.selecting {
                if app.extended(after, pane, mouse.at) {
                    let found = choose|found: Option<(usize, usize)>| #[trigger]
                        app.extended_to(after, pane, mouse.at, found);
                    assert(app.extended_to(after, pane, mouse.at, found));
                }
            }
        },
        _ => {},
    }
}

proof fn press_keeps_going(app: App, after: App, at: Position, task: Task)
    ensures
        app.grabbed(after, at, task) ==> after.screen.quit == app.screen.quit
            && after.screen.prompt == app.screen.prompt && !(task is Refresh),
{
    if app.grabbed(after, at, task) && app.screen.divider(at) is None
        && app.screen.pane_under(at) is Some {
        let pane = app.screen.pane_under(at)->0;
        let free = Screen { drag: None, edge_drag: None, selecting: None, ..app.screen };
        let focused = app.seen(Screen { focus: pane, ..free });
        if pane != Pane::Files {
            let found = choose|found: Option<(usize, usize)>| #[trigger]
                focused.pressed_on(after, pane, at, found);
            assert(focused.pressed_on(after, pane, at, found));
        }
    }
}

proof fn unsaved_has(buffers: Seq<OpenFile>, k: int)
    requires
        0 <= k < buffers.len(),
        buffers[k].buffer.changed(),
    ensures
        unsaved(buffers).contains(buffers[k]),
    decreases buffers.len(),
{
    let init = buffers.drop_last();
    if k < init.len() {
        unsaved_has(init, k);
        let j = choose|j: int| 0 <= j < unsaved(init).len() && unsaved(init)[j] == init[k];
        assert(unsaved(buffers)[j] == buffers[k]);
    } else {
        assert(unsaved(buffers).last() == buffers[k]);
    }
}

/// Unsaved edits survive going to another file.
pub proof fn unsaved_edits_survive_navigation(
    app: App,
    after: App,
    index: int,
    task: Task,
    k: int,
)
    requires
        app.ready(),
        app.picked(after, index, task),
        0 <= k < app.buffers@.len(),
        app.buffers@[k].buffer.changed(),
    ensures
        after.buffers@.contains(app.buffers@[k]),
{
    if task is Load {
        unsaved_has(app.buffers@, k);
    }
}

/// Unsaved edits survive reading a file again after the navigation that led to it.
pub proof fn unsaved_edits_survive_loading(
    app: App,
    after: App,
    before_side: Seq<char>,
    content: FileContent,
    editable: bool,
    stamp: Option<(u64, u64)>,
    k: int,
)
    requires
        app.sane(),
        app.loaded(after, before_side, content, editable, stamp),
        0 <= k < app.buffers@.len(),
    ensures
        after.buffers@.contains(app.buffers@[k]),
{
    assert(after.buffers@[k] == app.buffers@[k]) by {
        if after.buffers@.len() > app.buffers@.len() {
            assert(after.buffers@.drop_last()[k] == after.buffers@[k]);
        }
    }
}

/// A revision on the right is read-only: what is loaded of it is no buffer, so no key
/// goes to an editor.
pub proof fn a_revision_is_read_only(
    app: App,
    after: App,
    before_side: Seq<char>,
    content: FileContent,
    stamp: Option<(u64, u64)>,
)
    requires
        app.sane(),
        app.current() is None,
        app.loaded(after, before_side, content, false, stamp),
    ensures
        after.current() is None,
        !after.edits(),
{
    assert(paths(after.buffers@) =~= paths(app.buffers@));
}

/// A file rewritten by another process is flagged, not read again, while it has
/// unsaved edits.
pub proof fn a_rewritten_file_keeps_its_edits(
    app: App,
    after: App,
    stamp: Option<(u64, u64)>,
    task: Task,
)
    requires
        app.ready(),
        app.polled(after, stamp, task),
        app.current() is Some,
        app.buffers@[app.current()->0].buffer.changed(),
    ensures
        task is Nothing,
        after.buffers == app.buffers,
        stamp != app.screen.disk_stamp ==> after.screen.stale,
{
    app.current_there();
}

/// What was saved is not unsaved any more, and can be saved again over itself.
pub proof fn a_saved_file_is_clean(app: App, after: App, stamp: Option<(u64, u64)>)
    requires
        app.ready(),
        app.current() is Some,
        app.stored(after, None, stamp),
    ensures
        !after.buffers@[app.current()->0].buffer.changed(),
        after.current() == app.current(),
        after.shown() == app.shown(),
        forall|file: crate::git::TextFile|
            file.body@ == app.buffers@[app.current()->0].buffer.written()
                ==> #[trigger] after.undisturbed(FileContent::Text(file)),
{
    app.current_there();
    assert(paths(after.buffers@) =~= paths(app.buffers@));
}

/// An open panel or question takes every key: what is shown, edited and selected
/// underneath stays as it is, but for the edits that a wanted reload drops.
#[verifier::spinoff_prover]
#[verifier::rlimit(40)]
pub proof fn an_overlay_takes_every_key(app: App, after: App, key: KeyPress, now: u64, task: Task)
    requires
        app.ready(),
        app.keyed(after, key, now, task),
        app.screen.prompt is Some || app.screen.help || app.screen.settings is Some,
    ensures
        task is Refresh ==> app.screen.prompt == Some(Prompt::Reload),
        !(task is Refresh) ==> after.buffers == app.buffers && after.readonly == app.readonly,
        after.diff == app.diff,
        after.selected == app.selected,
        after.screen.scroll == app.screen.scroll,
        after.screen.hscroll == app.screen.hscroll,
        after.screen.focus == app.screen.focus,
        after.screen.old_selection == app.screen.old_selection,
{
}

/// An open panel or question takes the mouse too, but for the footer's buttons.
pub proof fn an_overlay_takes_the_mouse(app: App, after: App, mouse: Mouse, now: u64, task: Task)
    requires
        app.ready(),
        app.moused(after, mouse, now, task),
        app.screen.prompt is Some || app.screen.help || app.screen.settings is Some,
    ensures
        task is Nothing,
        after == app || (app.screen.prompt is None && mouse.kind == MouseKind::Down(Button::Left)
            && app.screen.button_under(mouse.at) is Some && after == app.seen(
            app.screen.pressed(app.screen.button_under(mouse.at)->0 as int),
        )),
{
}

/// Clicking a footer button opens what its key opens, and clicking it again closes
/// it.
pub proof fn a_button_is_its_key(app: App)
    requires
        app.screen.settings is None,
        !app.screen.help,
    ensures
        app.seen(app.screen.pressed(0)) == app.seen(
            Screen { settings: Some(0usize), ..app.screen },
        ),
        app.seen(app.screen.pressed(1)) == app.seen(Screen { help: true, ..app.screen }),
        app.screen.pressed(0).pressed(0) == app.screen,
        app.screen.pressed(1).pressed(1) == app.screen,
{
}

/// Scrolling stays between the first row and the last that can be at the top, and
/// between the first column and the furthest right that still shows text.
pub proof fn scrolling_stays_within_limits(app: App, rows: int, columns: int)
    ensures
        0 <= app.scrolled(rows).screen.scroll <= app.furthest(),
        0 <= app.scrolled_sideways(columns).screen.hscroll <= app.furthest_right(),
        app.scrolled_to(rows).screen.scroll <= app.furthest(),
{
}

/// Taking the view back within its limits a second time moves nothing.
pub proof fn clamping_twice_moves_nothing(app: App)
    requires
        app.ready(),
    ensures
        app.clamped().clamped() == app.clamped(),
        app.clamped().screen.scroll <= app.furthest(),
{
    let once = app.clamped();
    assert(once.current() == app.current());
    assert(once.text_cols() == app.text_cols());
    assert(once.furthest_right() == app.furthest_right());
    if app.edits() {
        assert(once.cursor_cell() == app.cursor_cell());
        app.cursor_is_within_reach();
    }
}

impl App {
    proof fn cursor_is_within_reach(self)
        requires
            self.ready(),
            self.edits(),
        ensures
            self.cursor_cell() >= 0,
    {
        self.current_there();
        let buffer = self.buffers@[self.current()->0].buffer;
        crate::columns::column_bounds(buffer.text()[buffer.at().0], buffer.at().1, self.tab());
    }
}

/// After an edit or a cursor move the cursor is on screen, wherever there is room
/// for a cell of text.
pub proof fn the_cursor_is_on_screen(app: App)
    requires
        app.ready(),
        app.current() is Some,
        app.text_cols() > 0,
        app.screen.viewport_height > 0,
    ensures
        ({
            let seen = app.followed();
            let row = app.row_of(app.buffers@[app.current()->0].buffer.at().0);
            &&& seen.screen.hscroll <= app.cursor_cell() < seen.screen.hscroll + app.text_cols()
            &&& seen.screen.scroll <= row < seen.screen.scroll + app.screen.viewport_height
        }),
{
    app.current_there();
    let buffer = app.buffers@[app.current()->0].buffer;
    crate::columns::column_bounds(buffer.text()[buffer.at().0], buffer.at().1, app.tab());
    assert(app.diff.new_line_to_row@[buffer.at().0] is Some);
    assert(app.row_of(buffer.at().0) < app.diff.rows@.len());
}

/// Refining does not move the view under the reader: the line at the top of the view
/// stays there, as far as the view can scroll down to it.
pub proof fn refining_keeps_the_top_line(app: App, after: App, line: usize)
    requires
        app.ready(),
        app.refined(after),
        app.shows_coarse(),
        crate::diff::stands_for(
            app.diff.rows@,
            app.screen.scroll as int,
            crate::diff::Side::New,
            Some(line),
        ),
        after.row_of(line as int) <= after.furthest(),
    ensures
        after.screen.scroll < after.diff.rows@.len(),
        after.diff.rows@[after.screen.scroll as int].new_line == Some(line),
{
    let chosen = choose|line: Option<usize>|
        crate::diff::stands_for(
            app.diff.rows@,
            app.screen.scroll as int,
            crate::diff::Side::New,
            line,
        );
    crate::diff::stands_for_one(
        app.diff.rows@,
        app.screen.scroll as int,
        crate::diff::Side::New,
        Some(line),
        chosen,
    );
    crate::diff::stands_for_a_line(
        &app.diff,
        app.shown(),
        app.screen.scroll as int,
        crate::diff::Side::New,
        Some(line),
    );
}

/// While the guard holds, no scroll event moves anything.
pub proof fn momentum_cannot_move_the_view(app: App, after: App, mouse: Mouse, now: u64, task: Task)
    requires
        app.ready(),
        app.moused(after, mouse, now, task),
        App::scrolls(mouse.kind),
        app.guarded(now),
    ensures
        after == app,
        task is Nothing,
{
}

/// When nothing is due, a tick does nothing.
pub proof fn an_idle_tick_changes_nothing(app: App, after: App, now: u64)
    requires
        app.ready(),
        app.due(now) is None,
        app.ticked(after, now),
    ensures
        after == app,
{
}

/// The same lines in every open file.
pub open spec fn same_text(a: Seq<OpenFile>, b: Seq<OpenFile>) -> bool {
    &&& a.len() == b.len()
    &&& forall|k: int|
        0 <= k < a.len() ==> (#[trigger] a[k]).path@ == b[k].path@ && a[k].buffer.text()
            == b[k].buffer.text()
}

proof fn extending_keeps_text(app: App, after: App, pane: Pane, at: Position)
    requires
        app.extended(after, pane, at),
    ensures
        same_text(app.buffers@, after.buffers@),
{
    let found = choose|found: Option<(usize, usize)>| #[trigger]
        app.extended_to(after, pane, at, found);
    assert(app.extended_to(after, pane, at, found));
}

proof fn pressing_keeps_text(app: App, after: App, pane: Pane, at: Position, task: Task)
    requires
        app.pressed(after, pane, at, task),
        !(task is Load),
    ensures
        same_text(app.buffers@, after.buffers@),
{
    if pane != Pane::Files {
        let found = choose|found: Option<(usize, usize)>| #[trigger]
            app.pressed_on(after, pane, at, found);
        assert(app.pressed_on(after, pane, at, found));
    }
}

/// The mouse moves along the text and changes none of it.
#[verifier::spinoff_prover]
pub proof fn the_mouse_never_edits(app: App, after: App, mouse: Mouse, now: u64, task: Task)
    requires
        app.ready(),
        app.moused(after, mouse, now, task),
        !(task is Load),
    ensures
        same_text(app.buffers@, after.buffers@),
{
    if mouse.kind == MouseKind::Drag(Button::Left) {
        if app.screen.drag is None && app.screen.selecting is Some && after != app {
            extending_keeps_text(app, after, app.screen.selecting->0, mouse.at);
        }
    } else if mouse.kind == MouseKind::Down(Button::Left) {
        let free = Screen { drag: None, edge_drag: None, selecting: None, ..app.screen };
        if after.buffers != app.buffers {
            let pane = app.screen.pane_under(mouse.at)->0;
            let focused = app.seen(Screen { focus: pane, ..free });
            pressing_keeps_text(focused, after, pane, mouse.at, task);
        }
    }
}

// ---- Every line stays in reach ----------------------------------------------------------

proof fn widest_holds(lines: Seq<Seq<char>>, tab: usize, i: int)
    requires
        0 <= i < lines.len(),
    ensures
        crate::columns::capped(crate::columns::columns(lines[i], tab)) <= widest(lines, tab),
    decreases lines.len(),
{
    if i < lines.len() - 1 {
        widest_holds(lines.drop_last(), tab, i);
    }
}

proof fn widest_within(lines: Seq<Seq<char>>, tab: usize, most: int)
    requires
        0 <= most,
        forall|i: int|
            0 <= i < lines.len() ==> crate::columns::capped(
                crate::columns::columns(#[trigger] lines[i], tab),
            ) <= most,
    ensures
        0 <= widest(lines, tab) <= most,
        widest(lines, tab) <= usize::MAX,
    decreases lines.len(),
{
    if lines.len() > 0 {
        let init = lines.drop_last();
        assert forall|i: int| 0 <= i < init.len() implies crate::columns::capped(
            crate::columns::columns(#[trigger] init[i], tab),
        ) <= most by {
            assert(init[i] == lines[i]);
        }
        widest_within(init, tab, most);
        assert(crate::columns::capped(
            crate::columns::columns(lines[lines.len() - 1], tab),
        ) <= most);
    }
}

proof fn widest_counts(lines: Seq<Seq<char>>, tab: usize)
    ensures
        0 <= widest(lines, tab) <= usize::MAX,
    decreases lines.len(),
{
    if lines.len() > 0 {
        widest_counts(lines.drop_last(), tab);
    }
}

impl App {
    /// Every line of the Current side can be scrolled to its end: the widest one known
    /// is no narrower than any of them.
    pub open spec fn in_reach(self) -> bool {
        widest(self.shown(), self.tab()) <= self.screen.longest
    }
}

/// An edit that replaces a stretch keeps every line in reach where the lines it made
/// were looked at.
proof fn replacing_keeps_in_reach(
    lines: Seq<Seq<char>>,
    after: Seq<Seq<char>>,
    from: (int, int),
    to: (int, int),
    pieces: Seq<Seq<char>>,
    tab: usize,
    longest: int,
)
    requires
        crate::area::inside(lines, from),
        crate::area::inside(lines, to),
        from.0 <= to.0,
        pieces.len() >= 1,
        after == crate::area::spliced(lines, from, to, pieces),
        widest(lines, tab) <= longest,
        forall|i: int|
            from.0 <= i < from.0 + pieces.len() ==> crate::columns::capped(
                crate::columns::columns(#[trigger] after[i], tab),
            ) <= longest,
    ensures
        widest(after, tab) <= longest,
{
    widest_counts(lines, tab);
    let made = pieces.len();
    assert(after.len() == from.0 + made + (lines.len() - (to.0 + 1)));
    assert forall|i: int| 0 <= i < after.len() implies crate::columns::capped(
        crate::columns::columns(#[trigger] after[i], tab),
    ) <= longest by {
        if i < from.0 {
            assert(after[i] == lines[i]);
            widest_holds(lines, tab, i);
        } else if i >= from.0 + made {
            let j = i - from.0 - made + to.0 + 1;
            assert(after[i] == lines[j]);
            widest_holds(lines, tab, j);
        }
    }
    widest_within(after, tab, longest);
}

/// A loaded file is measured whole.
pub proof fn a_loaded_file_is_in_reach(
    app: App,
    after: App,
    before_side: Seq<char>,
    content: FileContent,
    editable: bool,
    stamp: Option<(u64, u64)>,
)
    requires
        app.sane(),
        app.loaded(after, before_side, content, editable, stamp),
    ensures
        after.in_reach(),
{
    widest_counts(after.shown(), after.tab());
    widest_counts(crate::text::views(after.diff.old@), after.tab());
}

/// A paste keeps every line in reach, also the one it starts on.
pub proof fn a_paste_keeps_every_line_in_reach(app: App, after: App, text: Seq<char>, now: u64)
    requires
        app.ready(),
        app.in_reach(),
        app.pasted(after, text, now),
        after.ready(),
    ensures
        after.in_reach(),
{
    app.current_there();
    if app.edits() {
        let k = app.current()->0;
        let buffer = app.buffers@[k].buffer;
        let edited = app.with_buffers(after);
        app.touched(after, k);
        app.touched(edited, k);
        let pieces = crate::area::text_lines(text);
        let (from, to) = crate::area::target(buffer.at(), buffer.anchor());
        crate::text::pieces_nonempty(text, '\n');
        if !(pieces.len() == 1 && pieces[0].len() == 0) || from != to {
            let last = after.buffers@[k].buffer.at().0;
            let part = edited.shown().subrange(from.0, last + 1);
            let longest = crate::screen::at_least(edited.widened(), widest(part, app.tab()));
            widest_counts(part, app.tab());
            assert(last + 1 == from.0 + pieces.len());
            assert forall|i: int|
                from.0 <= i < from.0 + pieces.len() implies crate::columns::capped(
                crate::columns::columns(#[trigger] edited.shown()[i], app.tab()),
            ) <= longest by {
                assert(part[i - from.0] == edited.shown()[i]);
                widest_holds(part, app.tab(), i - from.0);
            }
            replacing_keeps_in_reach(
                buffer.text(),
                edited.shown(),
                from,
                to,
                pieces,
                app.tab(),
                longest,
            );
        } else {
            assert(pieces[0] =~= Seq::<char>::empty());
            assert(pieces =~= seq![Seq::<char>::empty()]);
            nothing_spliced(buffer.text(), buffer.at());
        }
    }
}

/// A cut keeps every line in reach.
pub proof fn a_cut_keeps_every_line_in_reach(app: App, after: App, now: u64, task: Task)
    requires
        app.ready(),
        app.current() is Some,
        app.in_reach(),
        app.cut_out(after, now, task),
        after.ready(),
    ensures
        after.in_reach(),
{
    app.current_there();
    let k = app.current()->0;
    let buffer = app.buffers@[k].buffer;
    if let Some(anchor) = buffer.anchor() {
        let edited = app.with_buffers(after);
        app.touched(after, k);
        app.touched(edited, k);
        let (from, to) = crate::area::target(buffer.at(), buffer.anchor());
        if anchor != buffer.at() {
            replacing_keeps_in_reach(
                buffer.text(),
                edited.shown(),
                from,
                to,
                seq![Seq::<char>::empty()],
                app.tab(),
                edited.widened(),
            );
        } else {
            nothing_spliced(buffer.text(), buffer.at());
        }
    }
}

/// Going through the history keeps every line in reach, whichever it brings back.
pub proof fn undo_and_redo_keep_every_line_in_reach(app: App, after: App, to: int, now: u64)
    requires
        app.ready(),
        app.current() is Some,
        app.in_reach(),
        app.travelled(after, to, now),
        after.ready(),
    ensures
        after.in_reach(),
{
    app.current_there();
    let k = app.current()->0;
    if 0 <= to < app.buffers@[k].buffer.snapshots@.len() {
        let edited = app.with_buffers(after);
        app.touched(after, k);
        app.touched(edited, k);
        widest_counts(edited.shown(), app.tab());
    }
}

/// No key of the editor puts a line out of reach, whether it writes, deletes or moves.
pub proof fn typing_keeps_every_line_in_reach(app: App, after: App, key: KeyPress, now: u64)
    requires
        app.ready(),
        app.current() is Some,
        app.in_reach(),
        app.typed(after, key, now),
        !(crate::area::deed(key) is Paste),
        after.ready(),
    ensures
        after.in_reach(),
{
    app.current_there();
    let k = app.current()->0;
    let buffer = app.buffers@[k].buffer;
    let changed = choose|changed: bool| #[trigger] app.typed_in(after, key, now, changed);
    assert(app.typed_in(after, key, now, changed));
    let edited = app.with_buffers(after);
    app.touched(after, k);
    app.touched(edited, k);
    let (from, to) = crate::area::target(buffer.at(), buffer.anchor());
    let lines = buffer.text();
    let longest = edited.widened();
    let deed = crate::area::deed(key);
    let spaces = (key.code == Key::Tab || key.code == Key::BackTab) && !buffer.indent.tabs;
    if !changed {
    } else if spaces {
        crate::editor::spaces_are_one_line(buffer.indent.width as int);
        let pieces = crate::area::text_lines(buffer.indent.text());
        replacing_keeps_in_reach(lines, edited.shown(), from, to, pieces, app.tab(), longest);
    } else if deed is Break {
        let pieces = seq![Seq::<char>::empty(), Seq::<char>::empty()];
        let line = lines[from.0];
        assert(edited.shown()[from.0] =~= line.take(from.1));
        crate::columns::columns_grow(line, from.1, app.tab());
        widest_holds(lines, app.tab(), from.0);
        replacing_keeps_in_reach(lines, edited.shown(), from, to, pieces, app.tab(), longest);
    } else if deed is Rub {
        let (from, to) = crate::area::doomed(buffer.area, deed->Rub_0, buffer.reach(key))->0;
        let pieces = seq![Seq::<char>::empty()];
        replacing_keeps_in_reach(lines, edited.shown(), from, to, pieces, app.tab(), longest);
    } else {
        let ch = if deed is Write {
            deed->Write_0
        } else {
            '\t'
        };
        let pieces = seq![seq![ch]];
        replacing_keeps_in_reach(lines, edited.shown(), from, to, pieces, app.tab(), longest);
    }
}

/// A save goes through only where the disk holds, character for character, the text
/// that the buffer was loaded from, and then it does; a file of the same size or date
/// that reads otherwise, and one that is gone or no text, is left alone, with a notice.
pub proof fn a_save_never_overwrites_another_text(
    app: App,
    after: App,
    on_disk: FileContent,
    write: Option<Write>,
)
    requires
        app.ready(),
        app.current() is Some,
        app.saving(after, on_disk, write),
    ensures
        ({
            let loaded = app.buffers@[app.current()->0].buffer.loaded_body@;
            &&& write is Some <==> on_disk is Text && on_disk->Text_0.body@.len() == loaded.len() && (
            forall|i: int|
                0 <= i < loaded.len() ==> #[trigger] on_disk->Text_0.body@[i] == loaded[i])
            &&& write is None ==> after.notice is Some && after.buffers == app.buffers
            &&& write is Some ==> after == app && write->0.path@ == app.files@[app.selected->0
                as int].path@
        }),
{
    let loaded = app.buffers@[app.current()->0].buffer.loaded_body@;
    if on_disk is Text {
        let body = on_disk->Text_0.body@;
        if body.len() == loaded.len() && forall|i: int| 0 <= i < loaded.len() ==> #[trigger] body[i]
            == loaded[i] {
            assert(body =~= loaded);
        }
    }
}

} // verus!

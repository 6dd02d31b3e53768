//! What is drawn: text with styles, and where. Painting it is the terminal's part.
use crate::app::App;
use crate::columns::{capped_col, capped_width, cut, gutter_width, segments, selected_columns, str_width};
use crate::commits::Commits;
use crate::diff::RowKind;
use crate::editor::Selection;
use crate::git::Status;
use crate::input::{Position, Rect};
use crate::ruler::{ruler_band, ruler_marks, Mark};
use crate::screen::Pane;
use crate::settings::ALL;
use crate::text::{first_chars, number, owned, pad_left, pad_right, repeated};
use ratatui::layout::{Constraint, Direction, Layout, Rect as Area};
use vstd::prelude::*;

verus! {

/// The colour of glyphs.
#[derive(Debug, Clone, Copy, PartialEq, Eq, Structural)]
pub enum Ink {
    Plain,
    Yellow,
    Red,
    Green,
    Cyan,
    Black,
    Gutter,
}

/// The colour behind glyphs.
#[derive(Debug, Clone, Copy, PartialEq, Eq, Structural)]
pub enum Paper {
    Plain,
    Deleted,
    Added,
    Phantom,
    Selection,
    Yellow,
    /// A cursor in the pane with focus, and in one without.
    Cursor,
    Parked,
}

#[derive(Debug, Clone, Copy, PartialEq, Eq, Structural)]
pub struct Style {
    pub ink: Ink,
    pub paper: Paper,
    pub bold: bool,
    pub dim: bool,
}

/// A text in one style.
pub struct Run {
    pub text: String,
    pub style: Style,
}

/// What a run shows.
#[verifier::ext_equal]
pub struct Shown {
    pub text: Seq<char>,
    pub style: Style,
}

impl View for Run {
    type V = Shown;

    open spec fn view(&self) -> Shown {
        Shown { text: self.text@, style: self.style }
    }
}

/// What a line of runs shows.
pub open spec fn shown_line(runs: Seq<Run>) -> Seq<Shown> {
    Seq::new(runs.len(), |i: int| runs[i]@)
}

/// What lines of runs show.
pub open spec fn shown_lines(lines: Seq<Vec<Run>>) -> Seq<Seq<Shown>> {
    Seq::new(lines.len(), |i: int| shown_line(lines[i]@))
}

pub open spec fn styled(ink: Ink, paper: Paper) -> Style {
    Style { ink, paper, bold: false, dim: false }
}

pub open spec fn plain() -> Style {
    styled(Ink::Plain, Paper::Plain)
}

fn style(ink: Ink, paper: Paper) -> (style: Style)
    ensures
        style == styled(ink, paper),
{
    Style { ink, paper, bold: false, dim: false }
}

fn run(text: String, style: Style) -> (run: Run)
    ensures
        run@ == (Shown { text: text@, style }),
{
    Run { text, style }
}

fn joined(a: &str, b: &str) -> (text: String)
    ensures
        text@ == a@ + b@,
{
    let mut text = owned(a);
    text.push_str(b);
    text
}

/// Unsaved edits, and a file rewritten under unsaved edits. Both are ASCII on
/// purpose: a round dot reads better, but it and the rest of its neighbourhood are
/// East Asian Ambiguous, so a terminal with a CJK font draws them two cells wide in
/// a slot laid out for one and shunts the rest of the row sideways.
pub const DIRTY_MARK: &'static str = "*";

pub const STALE_MARK: &'static str = "!";

/// The commit being compared. ASCII for the same reason `DIRTY_MARK` is, and not
/// `*`, which already means an unsaved buffer one pane above.
pub const TARGET_MARK: &'static str = ">";

/// Lines with a border and a title around them.
pub struct Framed {
    pub title: String,
    pub focused: bool,
    pub lines: Vec<Vec<Run>>,
}

// ---- The two sides ------------------------------------------------------------

/// The colour behind a line of a row.
pub open spec fn row_paper(kind: RowKind, old_side: bool) -> Paper {
    match kind {
        RowKind::Equal => Paper::Plain,
        RowKind::Delete => Paper::Deleted,
        RowKind::Insert => Paper::Added,
        RowKind::Replace => if old_side {
            Paper::Deleted
        } else {
            Paper::Added
        },
    }
}

fn paper_of(kind: RowKind, old_side: bool) -> (paper: Paper)
    ensures
        paper == row_paper(kind, old_side),
{
    match kind {
        RowKind::Equal => Paper::Plain,
        RowKind::Delete => Paper::Deleted,
        RowKind::Insert => Paper::Added,
        RowKind::Replace => if old_side {
            Paper::Deleted
        } else {
            Paper::Added
        },
    }
}

/// Stretches of a line as runs, the selected ones on the selection's colour.
pub open spec fn tinted(parts: Seq<(String, bool)>, paper: Paper) -> Seq<Shown> {
    Seq::new(
        parts.len(),
        |i: int|
            Shown {
                text: parts[i].0@,
                style: styled(
                    Ink::Plain,
                    if parts[i].1 {
                        Paper::Selection
                    } else {
                        paper
                    },
                ),
            },
    )
}

/// The columns of a line that a selection covers, as far as columns can be counted.
pub open spec fn covered(
    selection: Option<Selection>,
    line: int,
    text: Seq<char>,
    tab: usize,
) -> Option<(usize, usize)> {
    match selection {
        Some(range) => if crate::columns::columns(text, tab) < usize::MAX {
            match crate::columns::span_of(range, line, text, tab) {
                Some((from, to)) => Some((from as usize, to as usize)),
                None => None,
            }
        } else {
            None
        },
        None => None,
    }
}

/// What a side pane shows of a line: its number, and the part of it that is scrolled
/// into view.
pub open spec fn line_shows(
    shown: Seq<Shown>,
    line: int,
    text: Seq<char>,
    gutter: int,
    hscroll: int,
    width: int,
    tab: usize,
    selection: Option<Selection>,
    paper: Paper,
) -> bool {
    exists|parts: Seq<(String, bool)>|
        #![trigger tinted(parts, paper)]
        crate::columns::maximal(parts) && crate::columns::flat(parts) == crate::columns::visible(
            text,
            hscroll,
            crate::columns::capped(hscroll + width),
            tab,
            covered(selection, line, text, tab),
        ) && shown == seq![
            Shown {
                text: crate::text::right_set(crate::text::decimal(line + 1), gutter).push(' '),
                style: styled(Ink::Gutter, Paper::Plain),
            },
        ] + tinted(parts, paper)
}

fn draw_line(
    line: usize,
    text: &str,
    gutter: usize,
    hscroll: usize,
    width: usize,
    tab: usize,
    selection: Option<Selection>,
    paper: Paper,
) -> (runs: Vec<Run>)
    requires
        line < usize::MAX,
    ensures
        line_shows(
            shown_line(runs@),
            line as int,
            text@,
            gutter as int,
            hscroll as int,
            width as int,
            tab,
            selection,
            paper,
        ),
{
    let mut number = pad_left(number((line + 1) as u64).as_str(), gutter);
    number.push(' ');
    let mut runs: Vec<Run> = Vec::new();
    runs.push(run(number, style(Ink::Gutter, Paper::Plain)));
    let covered = match selection {
        Some(range) => if capped_width(text, tab) < usize::MAX {
            selected_columns(range, line, text, tab)
        } else {
            None
        },
        None => None,
    };
    let room: usize = if width <= usize::MAX - hscroll {
        width
    } else {
        usize::MAX - hscroll
    };
    let parts = segments(text, hscroll, room, tab, covered);
    let ghost first = shown_line(runs@);
    let mut i: usize = 0;
    while i < parts.len()
        invariant
            0 <= i <= parts@.len(),
            first.len() == 1,
            shown_line(runs@) == first + tinted(parts@, paper).take(i as int),
        decreases parts@.len() - i,
    {
        let ghost before = shown_line(runs@);
        let behind = if parts[i].1 {
            Paper::Selection
        } else {
            paper
        };
        runs.push(run(parts[i].0.clone(), style(Ink::Plain, behind)));
        proof {
            let all = tinted(parts@, paper);
            assert(all.take(i + 1) =~= all.take(i as int).push(all[i as int]));
            assert(shown_line(runs@) =~= before.push(all[i as int]));
            assert(shown_line(runs@) =~= first + all.take(i + 1));
        }
        i += 1;
    }
    proof {
        assert(tinted(parts@, paper).take(i as int) =~= tinted(parts@, paper));
        assert(first =~= seq![
            Shown {
                text: crate::text::right_set(
                    crate::text::decimal(line + 1),
                    gutter as int,
                ).push(' '),
                style: styled(Ink::Gutter, Paper::Plain),
            },
        ]);
    }
    runs
}

impl App {
    /// The selection on a side.
    pub open spec fn marked(self, old_side: bool) -> Option<((int, int), (int, int))> {
        if old_side {
            match crate::screen::covering(self.screen.old_selection) {
                Some(range) => Some(crate::area::span_ints(range)),
                None => None,
            }
        } else {
            match self.current() {
                Some(k) => match self.buffers@[k].buffer.anchor() {
                    Some(anchor) => Some(
                        crate::area::ordered(anchor, self.buffers@[k].buffer.at()),
                    ),
                    None => None,
                },
                None => None,
            }
        }
    }
}

pub open spec fn range_ints(range: Option<Selection>) -> Option<((int, int), (int, int))> {
    match range {
        Some(range) => Some(crate::area::span_ints(range)),
        None => None,
    }
}

/// The title of a side pane. The file list marks unsaved work too, but it can be
/// hidden, and the pane holding the edits is the last place that mark should
/// disappear from.
pub open spec fn side_title(app: App, old_side: bool, label: Seq<char>) -> Seq<char> {
    if old_side {
        label + " / Before"@
    } else {
        let mark = if app.current() is Some && app.buffers@[app.current()->0].buffer.changed() {
            DIRTY_MARK@
        } else {
            ""@
        };
        crate::text::trimmed_start(mark + " "@ + label + " / Current"@)
    }
}

/// What a side pane shows of a row of the diff.
pub open spec fn row_shows(
    app: App,
    shown: Seq<Shown>,
    row: crate::diff::DiffRow,
    old_side: bool,
    width: int,
    range: Option<Selection>,
) -> bool {
    let line = if old_side {
        row.old_line
    } else {
        row.new_line
    };
    let pane = if old_side {
        Pane::Old
    } else {
        Pane::New
    };
    let lines = app.side_lines(pane);
    let gutter = crate::columns::gutter(lines.len() as int);
    match line {
        Some(line) => line_shows(
            shown,
            line as int,
            lines[line as int],
            gutter,
            app.screen.hscroll as int,
            crate::screen::at_least(width - (gutter + 1), 0),
            app.tab(),
            range,
            row_paper(row.kind, old_side),
        ),
        None => shown == seq![
            Shown {
                text: crate::text::run(' ', width),
                style: styled(Ink::Plain, Paper::Phantom),
            },
        ],
    }
}

/// One side of the diff: the rows on screen, each with its line number, or filler
/// where the side has no line.
pub fn draw_side(app: &App, area: Rect, old_side: bool, label: &str) -> (framed: Framed)
    requires
        app.ready(),
    ensures
        framed.title@ == side_title(*app, old_side, label@),
        framed.focused == (app.screen.focus == (if old_side {
            Pane::Old
        } else {
            Pane::New
        })),
        ({
            let height = crate::screen::at_least(area.height - 2, 0);
            let width = crate::screen::at_least(area.width - 2, 0);
            let left = app.diff.rows@.len() - app.screen.scroll;
            &&& framed.lines@.len() == crate::screen::at_least(
                crate::screen::at_most(height, left),
                0,
            )
            &&& exists|range: Option<Selection>|
                #![trigger range_ints(range)]
                range_ints(range) == app.marked(old_side) && forall|k: int|
                    0 <= k < framed.lines@.len() ==> row_shows(
                        *app,
                        shown_line(#[trigger] framed.lines@[k]@),
                        app.diff.rows@[app.screen.scroll + k],
                        old_side,
                        width,
                        range,
                    )
        }),
{
    let title = if old_side {
        joined(label, " / Before")
    } else {
        let dirty = match app.buffer() {
            Some(buffer) => buffer.dirty(),
            None => false,
        };
        let mut text = if dirty {
            owned(DIRTY_MARK)
        } else {
            owned("")
        };
        text.push_str(" ");
        text.push_str(label);
        text.push_str(" / Current");
        crate::text::trim_start(text.as_str())
    };
    let focused = if old_side {
        app.screen.focus == Pane::Old
    } else {
        app.screen.focus == Pane::New
    };
    let height: usize = area.height.saturating_sub(2) as usize;
    let width: usize = area.width.saturating_sub(2) as usize;
    let lines = if old_side {
        app.diff.old.as_slice()
    } else {
        app.new_lines()
    };
    let ghost side = if old_side {
        Pane::Old
    } else {
        Pane::New
    };
    proof {
        assert(crate::text::views(lines@) == app.side_lines(side));
        app.diff_in_range();
    }
    let gutter: usize = gutter_width(lines.len());
    let text_width: usize = if width > gutter {
        width - gutter - 1
    } else {
        0
    };
    let tab: usize = app.tab_width();
    let range = if old_side {
        app.old_selection()
    } else {
        match app.buffer() {
            Some(buffer) => buffer.selection(),
            None => None,
        }
    };
    proof {
        assert(range_ints(range) == app.marked(old_side));
    }
    let mut drawn: Vec<Vec<Run>> = Vec::new();
    let mut row: usize = app.screen.scroll;
    while row < app.diff.rows.len() && drawn.len() < height
        invariant
            app.ready(),
            app.screen.scroll <= row,
            row <= app.diff.rows@.len() || drawn@.len() == 0,
            row - app.screen.scroll == drawn@.len(),
            drawn@.len() <= height,
            width == crate::screen::at_least(area.width - 2, 0),
            side == (if old_side {
                Pane::Old
            } else {
                Pane::New
            }),
            crate::text::views(lines@) == app.side_lines(side),
            gutter == crate::columns::gutter(app.side_lines(side).len() as int),
            text_width == crate::screen::at_least(width - (gutter + 1), 0),
            tab == app.tab(),
            forall|i: int|
                0 <= i < app.diff.rows@.len() ==> app.row_in_range(#[trigger] app.diff.rows@[i]),
            forall|k: int|
                0 <= k < drawn@.len() ==> row_shows(
                    *app,
                    shown_line(#[trigger] drawn@[k]@),
                    app.diff.rows@[app.screen.scroll + k],
                    old_side,
                    width as int,
                    range,
                ),
        decreases app.diff.rows@.len() - row,
    {
        let here = app.diff.rows[row];
        assert(app.row_in_range(app.diff.rows@[row as int]));
        let index = if old_side {
            here.old_line
        } else {
            here.new_line
        };
        let runs = match index {
            Some(index) => {
                assert(crate::text::views(lines@)[index as int] == lines@[index as int]@);
                draw_line(
                    index,
                    lines[index].as_str(),
                    gutter,
                    app.screen.hscroll,
                    text_width,
                    tab,
                    range,
                    paper_of(here.kind, old_side),
                )
            },
            None => {
                let mut runs: Vec<Run> = Vec::new();
                runs.push(run(repeated(' ', width), style(Ink::Plain, Paper::Phantom)));
                proof {
                    assert(shown_line(runs@) =~= seq![
                        Shown {
                            text: crate::text::run(' ', width as int),
                            style: styled(Ink::Plain, Paper::Phantom),
                        },
                    ]);
                }
                runs
            },
        };
        drawn.push(runs);
        row += 1;
    }
    Framed { title, focused, lines: drawn }
}

impl App {
    /// The lines a row of the diff names are lines of their sides.
    pub open spec fn row_in_range(self, row: crate::diff::DiffRow) -> bool {
        &&& row.old_line is Some ==> row.old_line->0 < self.diff.old@.len()
        &&& row.new_line is Some ==> row.new_line->0 < self.shown().len()
    }

    proof fn diff_in_range(self)
        requires
            self.ready(),
        ensures
            forall|i: int|
                0 <= i < self.diff.rows@.len() ==> self.row_in_range(
                    #[trigger] self.diff.rows@[i],
                ),
    {
        crate::diff::rows_name_lines(&self.diff, self.shown());
    }
}

// ---- The ruler and the cursor ----------------------------------------------------

/// What one cell of the ruler shows: the change it stands for, and whether the rows
/// it stands for are on screen.
#[derive(Debug, Clone, Copy, PartialEq, Eq)]
pub struct RulerCell {
    pub at: Position,
    pub mark: Option<Mark>,
    pub banded: bool,
}

/// The whole diff on the Current pane's right border: marks over a band saying which
/// rows are on screen, in the border cells it already had, so the text area keeps
/// every column it had before.
pub fn draw_ruler(app: &App, area: Rect) -> (cells: Vec<RulerCell>)
    requires
        area.x + area.width <= u16::MAX,
        area.y + area.height <= u16::MAX,
    ensures
        ({
            let height = crate::screen::at_least(area.height - 2, 0);
            let rows = app.diff.rows@;
            if height == 0 || area.width == 0 {
                cells@.len() == 0
            } else {
                &&& cells@.len() == height
                &&& forall|k: int|
                    0 <= k < height ==> {
                        let cell = #[trigger] cells@[k];
                        &&& cell.at.x == area.x + area.width - 1
                        &&& cell.at.y == area.y + 1 + k
                        &&& crate::ruler::cell_shows(
                            rows,
                            rows.len() as int,
                            height,
                            k,
                            cell.mark,
                        )
                        &&& cell.banded == (rows.len() > 0 && crate::ruler::band_start(
                            rows.len() as int,
                            height,
                            app.screen.scroll as int,
                            app.screen.viewport_height as int,
                        ) <= k < crate::ruler::band_start(
                            rows.len() as int,
                            height,
                            app.screen.scroll as int,
                            app.screen.viewport_height as int,
                        ) + crate::ruler::thumb_cells(
                            rows.len() as int,
                            height,
                            app.screen.viewport_height as int,
                        ))
                    }
            }
        }),
{
    let mut cells: Vec<RulerCell> = Vec::new();
    let height: u16 = area.height.saturating_sub(2);
    if height == 0 || area.width == 0 {
        return cells;
    }
    let marks = ruler_marks(app.diff.rows.as_slice(), height as usize);
    let band = ruler_band(
        app.diff.rows.len(),
        height as usize,
        app.screen.scroll,
        app.screen.viewport_height,
    );
    let x: u16 = area.x + (area.width - 1);
    let mut k: u16 = 0;
    while k < height
        invariant
            0 <= k <= height,
            height == area.height - 2,
            area.y + area.height <= u16::MAX,
            area.width > 0,
            x == area.x + area.width - 1,
            marks@.len() == height,
            forall|cell: int|
                0 <= cell < height ==> crate::ruler::cell_shows(
                    app.diff.rows@,
                    app.diff.rows@.len() as int,
                    height as int,
                    cell,
                    #[trigger] marks@[cell],
                ),
            cells@.len() == k,
            forall|j: int|
                0 <= j < k ==> {
                    let cell = #[trigger] cells@[j];
                    &&& cell.at.x == x
                    &&& cell.at.y == area.y + 1 + j
                    &&& cell.mark == marks@[j]
                    &&& cell.banded == (band.start <= j < band.end)
                },
        decreases height - k,
    {
        let banded = band.start <= k as usize && (k as usize) < band.end;
        cells.push(
            RulerCell { at: Position { x, y: area.y + 1 + k }, mark: marks[k as usize], banded },
        );
        k += 1;
    }
    cells
}

/// Where the terminal cursor goes.
pub open spec fn cursor_cell_at(app: App, area: Rect) -> Option<(int, int)> {
    let buffer = app.buffers@[app.current()->0].buffer;
    let row = app.row_of(buffer.at().0);
    let gutter = crate::columns::gutter(app.shown().len() as int) + 1;
    let column = app.cursor_cell() - app.screen.hscroll;
    let x = area.x + 1 + gutter + column;
    let y = area.y + 1 + row - app.screen.scroll;
    if app.edits() && app.screen.scroll <= row < app.screen.scroll + app.screen.viewport_height
        && column >= 0 && x < crate::screen::at_least(area.right_edge() - 1, 0) && y
        < crate::screen::at_least(area.bottom_edge() - 1, 0) {
        Some((x, y))
    } else {
        None
    }
}

/// Place the terminal cursor, which is what makes the Current pane read as an editor
/// rather than a viewer.
pub fn draw_cursor(app: &App, area: Rect) -> (at: Option<Position>)
    requires
        app.ready(),
    ensures
        match at {
            Some(at) => cursor_cell_at(*app, area) == Some((at.x as int, at.y as int)),
            None => cursor_cell_at(*app, area) is None,
        },
{
    if !app.editing() {
        return None;
    }
    let (line, col) = match app.buffer() {
        Some(buffer) => buffer.cursor(),
        None => {
            return None;
        },
    };
    proof {
        app.diff_in_range();
        app.current_there();
    }
    let row: usize = match app.diff.row_of_new_line(line) {
        Some(row) => row,
        None => {
            proof {
                assert(false);
            }
            return None;
        },
    };
    if row < app.screen.scroll || row - app.screen.scroll >= app.screen.viewport_height {
        return None;
    }
    let lines = app.new_lines();
    let count: usize = lines.len();
    proof {
        assert(crate::text::views(lines@)[line as int] == lines@[line as int]@);
        crate::columns::gutter_small(count as int);
    }
    let display: usize = capped_col(lines[line].as_str(), col, app.tab_width());
    if display < app.screen.hscroll {
        return None;
    }
    let gutter: u128 = gutter_width(count) as u128 + 1;
    let x: u128 = area.x as u128 + 1 + gutter + (display - app.screen.hscroll) as u128;
    let y: u128 = area.y as u128 + 1 + (row - app.screen.scroll) as u128;
    if x < area.right().saturating_sub(1) as u128 && y < area.bottom().saturating_sub(1) as u128 {
        Some(Position { x: x as u16, y: y as u16 })
    } else {
        None
    }
}

// ---- The footer ---------------------------------------------------------------------

/// The two things the footer offers, in the order they are drawn. Clicking one is
/// the same as pressing its key, so the labels carry the keys with them.
pub const BUTTONS: [&'static str; 2] = ["[settings ,]", "[help ?]"];

/// The last line of the screen: what is said on the left, and the position on the
/// right.
pub struct Footer {
    pub line: Vec<Run>,
    pub position: String,
}

pub open spec fn short(n: int) -> int {
    crate::screen::at_most(n, u16::MAX as int)
}

/// Columns of the label of a button.
pub open spec fn label_cells(index: int) -> int {
    BUTTONS@[index]@.len() as int
}

/// The column behind the buttons.
pub open spec fn buttons_end(area: Rect) -> int {
    short(short(short(area.x + 1) + label_cells(0) + 1) + label_cells(1) + 1)
}

/// Where the buttons are: each as wide as its label, a column apart.
pub open spec fn button_areas(area: Rect) -> Seq<Rect> {
    let settings = short(area.x + 1);
    let help = short(settings + label_cells(0) + 1);
    seq![
        Rect { x: settings as u16, y: area.y, width: label_cells(0) as u16, height: 1 },
        Rect { x: help as u16, y: area.y, width: label_cells(1) as u16, height: 1 },
    ]
}

/// The rows on screen, and how many there are, or while the history has the focus
/// where its cursor is.
pub open spec fn position_text(app: App, history: Option<&Commits>) -> Seq<char> {
    let rows = app.diff.rows@.len();
    if let Some(commits) = history {
        commits.position_words() + " "@
    } else if rows == 0 {
        ""@
    } else {
        crate::text::decimal(app.screen.scroll + 1) + "-"@ + crate::text::decimal(
            crate::screen::at_most(app.screen.scroll + app.screen.viewport_height, rows as int),
        ) + "/"@ + crate::text::decimal(rows as int) + " "@
    }
}

/// What the footer has to say.
pub open spec fn message(app: App) -> Option<(Seq<char>, Ink)> {
    if app.error is Some {
        Some((app.error->0@, Ink::Red))
    } else if app.notice is Some {
        Some((app.notice->0@, Ink::Yellow))
    } else if app.screen.stale {
        Some(("File changed on disk — `Esc` then `r` to reload"@, Ink::Red))
    } else {
        None
    }
}

pub open spec fn button_style(open: bool) -> Style {
    if open {
        styled(Ink::Black, Paper::Yellow)
    } else {
        styled(Ink::Gutter, Paper::Plain)
    }
}

/// What the footer shows on the left.
pub open spec fn footer_line(app: App, area: Rect, history: Option<&Commits>) -> Seq<Shown> {
    match app.screen.prompt {
        Some(prompt) => seq![
            Shown { text: " "@ + prompt.words(), style: styled(Ink::Yellow, Paper::Plain) },
        ],
        None => {
            let used = buttons_end(area) - area.x;
            let room = area.width - (used + position_text(app, history).len() + 2);
            let buttons = seq![
                Shown { text: " "@, style: plain() },
                Shown {
                    text: BUTTONS@[0]@,
                    style: button_style(app.screen.settings is Some),
                },
                Shown { text: " "@, style: plain() },
                Shown { text: BUTTONS@[1]@, style: button_style(app.screen.help) },
            ];
            match message(app) {
                Some((text, ink)) => buttons.push(
                    Shown {
                        text: "  "@ + crate::text::cut_to(text, crate::screen::at_least(room, 0)),
                        style: styled(ink, Paper::Plain),
                    },
                ),
                None => buttons,
            }
        },
    }
}

fn position(app: &App, history: Option<&Commits>) -> (text: String)
    requires
        app.screen.scroll < usize::MAX,
        history is Some ==> history->0.countable() && history->0.cursor < usize::MAX,
    ensures
        text@ == position_text(*app, history),
{
    if let Some(commits) = history {
        let mut text = commits.position();
        text.push_str(" ");
        return text;
    }
    let rows: usize = app.diff.rows.len();
    if rows == 0 {
        return owned("");
    }
    let last: usize = if app.screen.viewport_height <= usize::MAX - app.screen.scroll {
        app.screen.scroll + app.screen.viewport_height
    } else {
        usize::MAX
    };
    let last: usize = if last <= rows {
        last
    } else {
        rows
    };
    let mut text = number((app.screen.scroll + 1) as u64);
    text.push_str("-");
    text.push_str(number(last as u64).as_str());
    text.push_str("/");
    text.push_str(number(rows as u64).as_str());
    text.push_str(" ");
    text
}

/// The footer, and where its buttons are. Whatever there is to say goes after the
/// buttons rather than replacing them: the way out of a message is often one of the
/// two panels. It is cut to what is left, since the position is drawn over the same
/// row. `history` is the history while it has the focus.
pub fn draw_footer(app: &mut App, area: Rect, history: Option<&Commits>) -> (footer: Footer)
    requires
        old(app).ready(),
        old(app).screen.scroll < usize::MAX,
        history is Some ==> history->0.countable() && history->0.cursor < usize::MAX,
    ensures
        final(app).ready(),
        shown_line(footer.line@) == footer_line(*old(app), area, history),
        footer.position@ == (if old(app).screen.prompt is Some {
            ""@
        } else {
            position_text(*old(app), history)
        }),
        final(app).screen.buttons@ == (if old(app).screen.prompt is Some {
            let none = Rect { x: 0, y: 0, width: 0, height: 0 };
            seq![none, none]
        } else {
            button_areas(area)
        }),
        *final(app) == old(app).seen(
            crate::screen::Screen { buttons: final(app).screen.buttons, ..old(app).screen },
        ),
{
    let ghost start = *app;
    let mut line: Vec<Run> = Vec::new();
    if let Some(prompt) = app.screen.prompt {
        app.screen.buttons = [Rect::zero(), Rect::zero()];
        let text = joined(" ", prompt.text());
        line.push(run(text, style(Ink::Yellow, Paper::Plain)));
        proof {
            start.redrawn(*app);
            assert(shown_line(line@) =~= footer_line(start, area, history));
            let none = Rect { x: 0, y: 0, width: 0, height: 0 };
            assert(app.screen.buttons@ =~= seq![none, none]);
        }
        return Footer { line, position: owned("") };
    }
    proof {
        reveal_strlit("[settings ,]");
        reveal_strlit("[help ?]");
        assert(BUTTONS@[0]@ == "[settings ,]"@);
        assert(BUTTONS@[1]@ == "[help ?]"@);
    }
    let settings: u16 = area.x.saturating_add(1);
    let help: u16 = settings.saturating_add(13);
    let end: u16 = help.saturating_add(9);
    let position = position(app, history);
    let used: usize = (end - area.x) as usize;
    let count: usize = position.as_str().unicode_len();
    let width: usize = area.width as usize;
    let room: usize = if width >= used + 2 && width - used - 2 >= count {
        width - used - 2 - count
    } else {
        0
    };
    let open_settings = if app.screen.settings.is_some() {
        style(Ink::Black, Paper::Yellow)
    } else {
        style(Ink::Gutter, Paper::Plain)
    };
    let open_help = if app.screen.help {
        style(Ink::Black, Paper::Yellow)
    } else {
        style(Ink::Gutter, Paper::Plain)
    };
    line.push(run(owned(" "), style(Ink::Plain, Paper::Plain)));
    line.push(run(owned(BUTTONS[0]), open_settings));
    line.push(run(owned(" "), style(Ink::Plain, Paper::Plain)));
    line.push(run(owned(BUTTONS[1]), open_help));
    let ghost buttons = shown_line(line@);
    let said = match &app.error {
        Some(error) => Some((first_chars(error.as_str(), room), Ink::Red)),
        None => match &app.notice {
            Some(notice) => Some((first_chars(notice.as_str(), room), Ink::Yellow)),
            None => if app.screen.stale {
                Some(
                    (
                        first_chars("File changed on disk — `Esc` then `r` to reload", room),
                        Ink::Red,
                    ),
                )
            } else {
                None
            },
        },
    };
    if let Some((text, ink)) = said {
        line.push(run(joined("  ", text.as_str()), style(ink, Paper::Plain)));
        proof {
            assert(shown_line(line@) =~= buttons.push(line@.last()@));
        }
    }
    app.screen.buttons = [
        Rect { x: settings, y: area.y, width: 12, height: 1 },
        Rect { x: help, y: area.y, width: 8, height: 1 },
    ];
    proof {
        start.redrawn(*app);
        assert(app.screen.buttons@ =~= button_areas(area));
        assert(shown_line(line@) =~= footer_line(start, area, history));
    }
    Footer { line, position }
}

// ---- The panels -----------------------------------------------------------------------

/// A panel floating over the diff, centred and clamped to what there is room for.
pub open spec fn centred(body: Rect, width: int, rows: int) -> Rect {
    let width = crate::screen::at_most(width, body.width as int);
    let height = crate::screen::at_most(rows + 2, body.height as int);
    Rect {
        x: short(body.x + (body.width - width) / 2) as u16,
        y: short(body.y + (body.height - height) / 2) as u16,
        width: width as u16,
        height: height as u16,
    }
}

/// A panel floating over the diff, centred and clamped to what there is room for.
/// Both overlays are detours rather than places, so neither takes a pane.
pub fn overlay(body: Rect, width: u16, rows: u16) -> (area: Rect)
    ensures
        area == centred(body, width as int, rows as int),
{
    let width: u16 = if width <= body.width {
        width
    } else {
        body.width
    };
    let height: u16 = if rows <= 65533 && rows + 2 <= body.height {
        rows + 2
    } else {
        body.height
    };
    Rect {
        x: body.x.saturating_add((body.width - width) / 2),
        y: body.y.saturating_add((body.height - height) / 2),
        width,
        height,
    }
}

/// Every key the program answers to, except the two the footer already shows: this
/// list is what `?` opens, so telling the reader about `?` is telling them what they
/// just did.
pub const HELP: [(&'static str, &'static str); 14] = [
    ("↑ ↓", "Select file / scroll / move the cursor"),
    ("Enter", "Compare the commit under the cursor"),
    ("Shift+Tab", "Next pane, from anywhere"),
    ("Tab", "One indent, in the Current pane"),
    ("Alt+↑ ↓", "Previous / next change"),
    ("← →", "Scroll sideways / move the cursor"),
    ("PageUp PageDown Home End", "Scroll / move the cursor"),
    ("Ctrl+S", "Save the file"),
    ("Ctrl+Z Ctrl+Y", "Undo / redo"),
    ("Ctrl+C Ctrl+X Ctrl+V", "Copy / cut / paste"),
    ("Ctrl+B", "Hide / show the file and commit lists"),
    ("r", "Reload changes"),
    ("Esc", "Back to the file list"),
    ("q", "Quit"),
];

/// The longest of some texts, in characters.
pub open spec fn longest(texts: Seq<Seq<char>>) -> int
    decreases texts.len(),
{
    if texts.len() == 0 {
        0
    } else {
        crate::screen::at_least(longest(texts.drop_last()), texts.last().len() as int)
    }
}

pub open spec fn help_keys() -> Seq<Seq<char>> {
    Seq::new(14, |i: int| HELP@[i].0@)
}

pub open spec fn help_texts() -> Seq<Seq<char>> {
    Seq::new(14, |i: int| HELP@[i].1@)
}

fn longest_help(keys: bool) -> (count: usize)
    ensures
        count == longest(
            if keys {
                help_keys()
            } else {
                help_texts()
            },
        ),
{
    let ghost all = if keys {
        help_keys()
    } else {
        help_texts()
    };
    let mut count: usize = 0;
    let mut i: usize = 0;
    while i < 14
        invariant
            0 <= i <= 14,
            all == (if keys {
                help_keys()
            } else {
                help_texts()
            }),
            count == longest(all.take(i as int)),
        decreases 14 - i,
    {
        proof {
            assert(all.take(i + 1).drop_last() =~= all.take(i as int));
        }
        let next: usize = if keys {
            HELP[i].0.unicode_len()
        } else {
            HELP[i].1.unicode_len()
        };
        if next > count {
            count = next;
        }
        i += 1;
    }
    proof {
        assert(all.take(14) =~= all);
    }
    count
}

/// The lines of the key list: the keys set to the right, in one column.
pub open spec fn help_lines() -> Seq<Seq<Shown>> {
    Seq::new(
        14,
        |i: int|
            seq![
                Shown {
                    text: " "@ + crate::text::right_set(HELP@[i].0@, longest(help_keys())) + "  "@,
                    style: styled(Ink::Yellow, Paper::Plain),
                },
                Shown { text: HELP@[i].1@, style: plain() },
            ],
    )
}

/// A list in a panel.
pub struct Panel {
    pub area: Rect,
    pub title: String,
    pub lines: Vec<Vec<Run>>,
    /// The first line on screen.
    pub offset: usize,
}

/// The lines of the key list there is room for.
pub open spec fn help_room(body: Rect) -> int {
    crate::screen::at_least(help_area(body).height - 2, 0)
}

pub open spec fn help_area(body: Rect) -> Rect {
    centred(body, longest(help_keys()) + longest(help_texts()) + 5, 14)
}

/// The key list where it is open. A short terminal cannot show the whole of it, so it
/// scrolls rather than silently dropping the rest.
pub fn draw_help(app: &mut App, body: Rect) -> (panel: Option<Panel>)
    requires
        old(app).ready(),
    ensures
        final(app).ready(),
        panel is Some <==> old(app).screen.help,
        !old(app).screen.help ==> *final(app) == *old(app),
        match panel {
            Some(panel) => {
                let last = crate::screen::at_least(14 - help_room(body), 0);
                let offset = crate::screen::at_most(old(app).screen.help_scroll as int, last);
                let more = crate::screen::at_least(14 - (help_room(body) + offset), 0);
                &&& panel.area == help_area(body)
                &&& panel.offset == offset
                &&& shown_lines(panel.lines@) == help_lines()
                &&& panel.title@ == (if more > 0 || offset > 0 {
                    "Keys — ↑↓ for "@ + crate::text::decimal(more) + " more"@
                } else {
                    "Keys"@
                })
                &&& *final(app) == old(app).seen(
                    crate::screen::Screen {
                        help_scroll: offset as usize,
                        ..old(app).screen
                    },
                )
            },
            None => true,
        },
{
    if !app.screen.help {
        return None;
    }
    let ghost start = *app;
    // Columns, not bytes: the key column already holds arrows.
    let keys: usize = longest_help(true);
    let widest: usize = longest_help(false);
    proof {
        help_is_narrow();
    }
    let area = overlay(body, (keys + widest + 5) as u16, 14);
    let shown: usize = area.height.saturating_sub(2) as usize;
    let last: usize = if shown >= 14 {
        0
    } else {
        14 - shown
    };
    if app.screen.help_scroll > last {
        app.screen.help_scroll = last;
    }
    proof {
        start.redrawn(*app);
    }
    let offset: usize = app.screen.help_scroll;
    let more: usize = if shown + offset >= 14 {
        0
    } else {
        14 - (shown + offset)
    };
    let title = if more > 0 || offset > 0 {
        let mut text = owned("Keys — ↑↓ for ");
        text.push_str(number(more as u64).as_str());
        text.push_str(" more");
        text
    } else {
        owned("Keys")
    };
    let lines = draw_keys(keys);
    Some(Panel { area, title, lines, offset })
}

fn draw_keys(keys: usize) -> (lines: Vec<Vec<Run>>)
    requires
        keys == longest(help_keys()),
    ensures
        shown_lines(lines@) == help_lines(),
{
    let mut lines: Vec<Vec<Run>> = Vec::new();
    let mut i: usize = 0;
    while i < 14
        invariant
            0 <= i <= 14,
            keys == longest(help_keys()),
            shown_lines(lines@) == help_lines().take(i as int),
        decreases 14 - i,
    {
        let ghost before = shown_lines(lines@);
        let mut text = joined(" ", pad_left(HELP[i].0, keys).as_str());
        text.push_str("  ");
        let mut runs: Vec<Run> = Vec::new();
        runs.push(run(text, style(Ink::Yellow, Paper::Plain)));
        runs.push(run(owned(HELP[i].1), style(Ink::Plain, Paper::Plain)));
        proof {
            assert(shown_line(runs@) =~= help_lines()[i as int]);
            assert(help_lines().take(i + 1) =~= before.push(help_lines()[i as int]));
        }
        lines.push(runs);
        proof {
            assert(shown_lines(lines@) =~= before.push(shown_line(runs@)));
        }
        i += 1;
    }
    proof {
        assert(help_lines().take(14) =~= help_lines());
    }
    lines
}

proof fn longest_bound(texts: Seq<Seq<char>>, most: int)
    requires
        0 <= most,
        forall|i: int| 0 <= i < texts.len() ==> (#[trigger] texts[i]).len() <= most,
    ensures
        0 <= longest(texts) <= most,
    decreases texts.len(),
{
    if texts.len() > 0 {
        longest_bound(texts.drop_last(), most);
    }
}

/// The key list fits in any reasonable number of columns.
proof fn help_is_narrow()
    ensures
        0 <= longest(help_keys()) <= 100,
        0 <= longest(help_texts()) <= 100,
{
    reveal_strlit("↑ ↓");
    reveal_strlit("Enter");
    reveal_strlit("Shift+Tab");
    reveal_strlit("Tab");
    reveal_strlit("Alt+↑ ↓");
    reveal_strlit("← →");
    reveal_strlit("PageUp PageDown Home End");
    reveal_strlit("Ctrl+S");
    reveal_strlit("Ctrl+Z Ctrl+Y");
    reveal_strlit("Ctrl+C Ctrl+X Ctrl+V");
    reveal_strlit("Ctrl+B");
    reveal_strlit("r");
    reveal_strlit("Esc");
    reveal_strlit("q");
    reveal_strlit("Select file / scroll / move the cursor");
    reveal_strlit("Compare the commit under the cursor");
    reveal_strlit("Next pane, from anywhere");
    reveal_strlit("One indent, in the Current pane");
    reveal_strlit("Previous / next change");
    reveal_strlit("Scroll sideways / move the cursor");
    reveal_strlit("Scroll / move the cursor");
    reveal_strlit("Save the file");
    reveal_strlit("Undo / redo");
    reveal_strlit("Copy / cut / paste");
    reveal_strlit("Hide / show the file and commit lists");
    reveal_strlit("Reload changes");
    reveal_strlit("Back to the file list");
    reveal_strlit("Quit");
    longest_bound(help_keys(), 100);
    longest_bound(help_texts(), 100);
}

/// Rows under the settings list for the selected row's explanation and its
/// `config.toml` key: one for the key, two for the explanation, since the longest
/// one wraps at the panel's width.
pub const EXPLAIN_ROWS: u16 = 3;

pub open spec fn setting_names() -> Seq<Seq<char>> {
    Seq::new(8, |i: int| ALL@[i].name_text())
}

/// The settings panel: its frame, the list in it, and the explanation below the list
/// where there is room.
pub struct SettingsPanel {
    pub area: Rect,
    pub list: Rect,
    pub lines: Vec<Vec<Run>>,
    pub selected: usize,
    pub explain: Option<(Rect, Vec<Vec<Run>>)>,
}

pub open spec fn chosen(on: bool, ink: Ink) -> Style {
    if on {
        Style { ink, paper: Paper::Selection, bold: true, dim: false }
    } else {
        styled(ink, Paper::Plain)
    }
}

/// A setting and its value.
pub open spec fn setting_line(config: crate::config::Config, i: int, on: bool) -> Seq<Shown> {
    seq![
        Shown {
            text: " "@ + crate::text::left_set(ALL@[i].name_text(), longest(setting_names()))
                + "  "@,
            style: chosen(on, Ink::Plain),
        },
        Shown {
            text: "< "@ + ALL@[i].value_text(config) + " >"@,
            style: chosen(on, Ink::Yellow),
        },
    ]
}

pub open spec fn setting_lines(config: crate::config::Config, selected: int) -> Seq<Seq<Shown>> {
    Seq::new(8, |i: int| setting_line(config, i, i == selected))
}

/// What is said of a setting.
pub open spec fn explanation(i: int) -> Seq<Seq<Shown>> {
    seq![
        seq![Shown { text: ALL@[i].help_text(), style: styled(Ink::Gutter, Paper::Plain) }],
        seq![
            Shown {
                text: ALL@[i].label_text() + " in config.toml"@,
                style: Style { ink: Ink::Gutter, paper: Paper::Plain, bold: false, dim: true },
            },
        ],
    ]
}

/// The area of the settings panel.
pub open spec fn settings_area(body: Rect) -> Rect {
    centred(body, longest(setting_names()) + 24, 8 + EXPLAIN_ROWS)
}

/// The area inside a border.
pub open spec fn inside(area: Rect) -> Rect {
    Rect {
        x: short(area.x + 1) as u16,
        y: short(area.y + 1) as u16,
        width: crate::screen::at_least(area.width - 2, 0) as u16,
        height: crate::screen::at_least(area.height - 2, 0) as u16,
    }
}

/// Rows for the explanation. On a terminal too short for both, the list wins: the
/// settings are what the panel is for.
pub open spec fn explain_rows(inner: Rect) -> int {
    crate::screen::at_most(
        EXPLAIN_ROWS as int,
        crate::screen::at_least(inner.height - 8, 0),
    )
}

fn inner_area(area: Rect) -> (inner: Rect)
    ensures
        inner == inside(area),
{
    Rect {
        x: area.x.saturating_add(1),
        y: area.y.saturating_add(1),
        width: area.width.saturating_sub(2),
        height: area.height.saturating_sub(2),
    }
}

fn longest_setting() -> (count: usize)
    ensures
        count == longest(setting_names()),
        count <= 100,
{
    let ghost all = setting_names();
    let mut count: usize = 0;
    let mut i: usize = 0;
    while i < 8
        invariant
            0 <= i <= 8,
            all == setting_names(),
            count == longest(all.take(i as int)),
        decreases 8 - i,
    {
        proof {
            assert(all.take(i + 1).drop_last() =~= all.take(i as int));
        }
        let next: usize = ALL[i].name().unicode_len();
        if next > count {
            count = next;
        }
        i += 1;
    }
    proof {
        assert(all.take(8) =~= all);
        settings_are_narrow();
    }
    count
}

/// The settings panel floats over the diff: it is a detour, not a place, and the diff
/// underneath is what most of its values are about.
pub fn draw_settings(app: &App, body: Rect) -> (panel: Option<SettingsPanel>)
    requires
        app.ready(),
    ensures
        panel is Some <==> app.screen.settings is Some,
        match panel {
            Some(panel) => {
                let selected = app.screen.settings->0;
                let inner = inside(settings_area(body));
                let rows = explain_rows(inner);
                &&& panel.area == settings_area(body)
                &&& panel.selected == selected
                &&& shown_lines(panel.lines@) == setting_lines(app.config, selected as int)
                &&& panel.list == (Rect { height: (inner.height - rows) as u16, ..inner })
                &&& match panel.explain {
                    Some((area, lines)) => {
                        &&& rows > 0
                        &&& area == Rect {
                            x: short(inner.x + 1) as u16,
                            y: short(inner.y + inner.height - rows) as u16,
                            width: crate::screen::at_least(inner.width - 2, 0) as u16,
                            height: rows as u16,
                        }
                        &&& shown_lines(lines@) == explanation(selected as int)
                    },
                    None => rows == 0,
                }
            },
            None => true,
        },
{
    let selected: usize = match app.screen.settings {
        Some(selected) => selected,
        None => {
            return None;
        },
    };
    // Wide enough for the longest name plus its value; that also gives the
    // explanation room to read as a sentence rather than three words a line.
    let names: usize = longest_setting();
    let area = overlay(body, (names + 24) as u16, 8 + EXPLAIN_ROWS);
    let mut lines: Vec<Vec<Run>> = Vec::new();
    let mut i: usize = 0;
    while i < 8
        invariant
            0 <= i <= 8,
            names == longest(setting_names()),
            shown_lines(lines@) == setting_lines(app.config, selected as int).take(i as int),
        decreases 8 - i,
    {
        let ghost before = shown_lines(lines@);
        let ghost all = setting_lines(app.config, selected as int);
        let on = i == selected;
        let runs = draw_setting(app, i, names, on);
        proof {
            assert(all.take(i + 1) =~= before.push(all[i as int]));
        }
        lines.push(runs);
        proof {
            assert(shown_lines(lines@) =~= before.push(shown_line(runs@)));
        }
        i += 1;
    }
    proof {
        let all = setting_lines(app.config, selected as int);
        assert(all.take(8) =~= all);
    }
    let inner = inner_area(area);
    let spare: u16 = inner.height.saturating_sub(8);
    let rows: u16 = if spare >= EXPLAIN_ROWS {
        EXPLAIN_ROWS
    } else {
        spare
    };
    let list = Rect { x: inner.x, y: inner.y, width: inner.width, height: inner.height - rows };
    let explain = if rows > 0 {
        // Indented by insetting the area rather than by a leading space, so a line
        // that wraps keeps the indent instead of starting at the border.
        let area = Rect {
            x: inner.x.saturating_add(1),
            y: inner.y.saturating_add(inner.height - rows),
            width: inner.width.saturating_sub(2),
            height: rows,
        };
        Some((area, draw_explanation(selected)))
    } else {
        None
    };
    Some(SettingsPanel { area, list, lines, selected, explain })
}

fn draw_setting(app: &App, i: usize, names: usize, on: bool) -> (runs: Vec<Run>)
    requires
        i < 8,
        names == longest(setting_names()),
    ensures
        shown_line(runs@) == setting_line(app.config, i as int, on),
{
    let mut name = joined(" ", pad_right(ALL[i].name(), names).as_str());
    name.push_str("  ");
    let mut value = joined("< ", ALL[i].value(&app.config).as_str());
    value.push_str(" >");
    let (first, second) = if on {
        (
            Style { ink: Ink::Plain, paper: Paper::Selection, bold: true, dim: false },
            Style { ink: Ink::Yellow, paper: Paper::Selection, bold: true, dim: false },
        )
    } else {
        (style(Ink::Plain, Paper::Plain), style(Ink::Yellow, Paper::Plain))
    };
    let mut runs: Vec<Run> = Vec::new();
    runs.push(run(name, first));
    runs.push(run(value, second));
    proof {
        assert(shown_line(runs@) =~= setting_line(app.config, i as int, on));
    }
    runs
}

fn draw_explanation(i: usize) -> (lines: Vec<Vec<Run>>)
    requires
        i < 8,
    ensures
        shown_lines(lines@) == explanation(i as int),
{
    let mut first: Vec<Run> = Vec::new();
    first.push(run(owned(ALL[i].help()), style(Ink::Gutter, Paper::Plain)));
    let mut second: Vec<Run> = Vec::new();
    second.push(
        run(
            joined(ALL[i].label(), " in config.toml"),
            Style { ink: Ink::Gutter, paper: Paper::Plain, bold: false, dim: true },
        ),
    );
    let ghost a = shown_line(first@);
    let ghost b = shown_line(second@);
    proof {
        assert(a =~= explanation(i as int)[0]);
        assert(b =~= explanation(i as int)[1]);
    }
    let mut lines: Vec<Vec<Run>> = Vec::new();
    lines.push(first);
    lines.push(second);
    proof {
        assert(shown_lines(lines@) =~= explanation(i as int));
    }
    lines
}

/// The names of the settings fit in any reasonable number of columns.
proof fn settings_are_narrow()
    ensures
        0 <= longest(setting_names()) <= 100,
{
    reveal_strlit("Detect indentation");
    reveal_strlit("Indent width");
    reveal_strlit("Indent with tabs");
    reveal_strlit("Detect line endings");
    reveal_strlit("Line endings");
    reveal_strlit("Wheel scroll step");
    reveal_strlit("Remember pane widths");
    reveal_strlit("Ignore scrolling after a keystroke");
    longest_bound(setting_names(), 100);
}

// ---- The lists --------------------------------------------------------------------------

pub open spec fn status_ink(status: Status) -> Ink {
    match status {
        Status::Modified => Ink::Yellow,
        Status::Added => Ink::Green,
        Status::Deleted => Ink::Red,
        Status::Renamed => Ink::Cyan,
    }
}

pub open spec fn status_letter(status: Status) -> char {
    match status {
        Status::Modified => 'M',
        Status::Added => 'A',
        Status::Deleted => 'D',
        Status::Renamed => 'R',
    }
}

/// A file of the list. Unsaved work and an external rewrite both have to be visible
/// without selecting the file they belong to.
pub open spec fn file_line(app: App, i: int) -> Seq<Shown> {
    let file = app.files@[i];
    let dirty = match crate::app::paths(app.buffers@).index_of_first(file.path@) {
        Some(k) => app.buffers@[k].buffer.changed(),
        None => false,
    };
    let mark = if app.screen.stale && app.here() == Some(file.path@) {
        Shown { text: STALE_MARK@, style: styled(Ink::Red, Paper::Plain) }
    } else if dirty {
        Shown { text: DIRTY_MARK@, style: styled(Ink::Yellow, Paper::Plain) }
    } else {
        Shown { text: " "@, style: plain() }
    };
    seq![
        mark,
        Shown {
            text: seq![status_letter(file.status), ' '],
            style: styled(status_ink(file.status), Paper::Plain),
        },
        Shown { text: file.path@, style: plain() },
    ]
}

pub open spec fn file_lines(app: App) -> Seq<Seq<Shown>> {
    if app.files@.len() == 0 {
        seq![seq![Shown { text: "No changes"@, style: styled(Ink::Gutter, Paper::Plain) }]]
    } else {
        Seq::new(app.files@.len(), |i: int| file_line(app, i))
    }
}

fn draw_file(app: &App, i: usize) -> (runs: Vec<Run>)
    requires
        i < app.files@.len(),
    ensures
        shown_line(runs@) == file_line(*app, i as int),
{
    let file = &app.files[i];
    let selected = match app.selected_file() {
        Some(here) => crate::text::same(&here.path, &file.path),
        None => false,
    };
    let mark = if app.screen.stale && selected {
        run(owned(STALE_MARK), style(Ink::Red, Paper::Plain))
    } else if app.is_dirty(file.path.as_str()) {
        run(owned(DIRTY_MARK), style(Ink::Yellow, Paper::Plain))
    } else {
        run(owned(" "), style(Ink::Plain, Paper::Plain))
    };
    let ink = match file.status {
        Status::Modified => Ink::Yellow,
        Status::Added => Ink::Green,
        Status::Deleted => Ink::Red,
        Status::Renamed => Ink::Cyan,
    };
    let mut letter = String::new();
    letter.push(file.status.letter());
    letter.push(' ');
    proof {
        assert(letter@ =~= seq![status_letter(file.status), ' ']);
    }
    let mut runs: Vec<Run> = Vec::new();
    runs.push(mark);
    runs.push(run(letter, style(ink, Paper::Plain)));
    runs.push(run(file.path.clone(), style(Ink::Plain, Paper::Plain)));
    proof {
        assert(shown_line(runs@) =~= file_line(*app, i as int));
    }
    runs
}

/// The list of changed files.
pub fn draw_files(app: &App) -> (framed: Framed)
    ensures
        shown_lines(framed.lines@) == file_lines(*app),
        framed.focused == (app.screen.focus == Pane::Files),
        framed.title@ == (if app.files@.len() == 0 {
            "Changes"@
        } else {
            "Changes ("@ + crate::text::decimal(app.files@.len() as int) + ")"@
        }),
{
    let focused = app.screen.focus == Pane::Files;
    let mut lines: Vec<Vec<Run>> = Vec::new();
    if app.files.len() == 0 {
        let mut runs: Vec<Run> = Vec::new();
        runs.push(run(owned("No changes"), style(Ink::Gutter, Paper::Plain)));
        let ghost shown = shown_line(runs@);
        lines.push(runs);
        proof {
            assert(shown =~= file_lines(*app)[0]);
            assert(shown_lines(lines@) =~= file_lines(*app));
        }
        return Framed { title: owned("Changes"), focused, lines };
    }
    let mut title = joined("Changes (", number(app.files.len() as u64).as_str());
    title.push_str(")");
    let mut i: usize = 0;
    while i < app.files.len()
        invariant
            0 <= i <= app.files@.len(),
            app.files@.len() > 0,
            shown_lines(lines@) == file_lines(*app).take(i as int),
        decreases app.files@.len() - i,
    {
        let ghost before = shown_lines(lines@);
        let ghost all = file_lines(*app);
        let runs = draw_file(app, i);
        proof {
            assert(all.take(i + 1) =~= before.push(all[i as int]));
        }
        lines.push(runs);
        proof {
            assert(shown_lines(lines@) =~= before.push(shown_line(runs@)));
        }
        i += 1;
    }
    proof {
        assert(file_lines(*app).take(i as int) =~= file_lines(*app));
    }
    Framed { title, focused, lines }
}

/// One row of history.
pub open spec fn commit_line(commits: Commits, row: int, width: int, focused: bool) -> Seq<Shown> {
    let target = commits.targets(row);
    let known = 1 <= row <= commits.rows@.len();
    let id = if known {
        commits.rows@[row - 1].short@
    } else {
        ""@
    };
    let subject = if known {
        commits.rows@[row - 1].subject@
    } else {
        "Working tree"@
    };
    let paper = if row == commits.cursor && focused {
        Paper::Cursor
    } else if row == commits.cursor {
        Paper::Parked
    } else {
        Paper::Plain
    };
    let bold = row == commits.cursor && focused;
    let mark = Shown {
        text: if target {
            TARGET_MARK@
        } else {
            " "@
        },
        style: Style { ink: Ink::Yellow, paper, bold, dim: false },
    };
    let room = if id.len() > 0 {
        width - (1 + crate::columns::text_cells(id) + 1)
    } else {
        width - (1 + crate::columns::text_cells(id))
    };
    let text = Shown {
        text: crate::columns::kept(subject, crate::screen::at_least(room, 0)),
        style: Style { ink: Ink::Plain, paper, bold, dim: false },
    };
    if id.len() > 0 {
        seq![
            mark,
            Shown {
                text: id + " "@,
                style: Style {
                    ink: if target {
                        Ink::Yellow
                    } else {
                        Ink::Gutter
                    },
                    paper,
                    bold: bold || target,
                    dim: false,
                },
            },
            text,
        ]
    } else {
        seq![mark, text]
    }
}

fn draw_commit(commits: &Commits, row: usize, width: usize, focused: bool) -> (runs: Vec<Run>)
    ensures
        shown_line(runs@) == commit_line(*commits, row as int, width as int, focused),
{
    let target = commits.is_target(row);
    let (id, subject) = match commits.at(row) {
        Some(commit) => (commit.short.clone(), commit.subject.clone()),
        None => (owned(""), owned("Working tree")),
    };
    proof {
        reveal_strlit("");
    }
    let here = row == commits.cursor;
    let paper = if here && focused {
        Paper::Cursor
    } else if here {
        Paper::Parked
    } else {
        Paper::Plain
    };
    let bold = here && focused;
    let mark = if target {
        owned(TARGET_MARK)
    } else {
        owned(" ")
    };
    let cells: usize = str_width(id.as_str());
    let named = id.as_str().unicode_len() > 0;
    let extra: usize = if named {
        2
    } else {
        1
    };
    let room: usize = if width >= extra && width - extra >= cells {
        width - extra - cells
    } else {
        0
    };
    let mut runs: Vec<Run> = Vec::new();
    runs.push(run(mark, Style { ink: Ink::Yellow, paper, bold, dim: false }));
    if named {
        let ink = if target {
            Ink::Yellow
        } else {
            Ink::Gutter
        };
        runs.push(
            run(joined(id.as_str(), " "), Style { ink, paper, bold: bold || target, dim: false }),
        );
    }
    // The subject is whatever the commit said, so it is cut in display columns
    // rather than bytes: a CJK subject is half as many characters as it is cells
    // wide.
    runs.push(
        run(cut(subject.as_str(), room), Style { ink: Ink::Plain, paper, bold, dim: false }),
    );
    proof {
        assert(shown_line(runs@) =~= commit_line(*commits, row as int, width as int, focused));
    }
    runs
}

/// One line of history, as far down it as anyone has looked. Only the rows on screen
/// are laid out, since the list behind them may hold tens of thousands, and the
/// cursor and the picked commit are drawn differently, because they are two facts:
/// where the reader is, and what is being compared.
pub fn draw_commits(commits: &Commits, area: Rect, focused: bool) -> (framed: Framed)
    requires
        commits.countable(),
    ensures
        ({
            let height = crate::screen::at_least(area.height - 2, 0);
            let width = crate::screen::at_least(area.width - 2, 0);
            &&& framed.lines@.len() == crate::screen::at_least(
                crate::screen::at_most(height, commits.row_count() - commits.scroll),
                0,
            )
            &&& forall|k: int|
                0 <= k < framed.lines@.len() ==> shown_line(#[trigger] framed.lines@[k]@)
                    == commit_line(*commits, commits.scroll + k, width, focused)
        }),
        framed.focused == focused,
        framed.title@ == (if commits.tip@ == "HEAD"@ {
            "Commits"@
        } else {
            "Commits ("@ + commits.tip@ + ")"@
        }),
{
    let height: usize = area.height.saturating_sub(2) as usize;
    let width: usize = area.width.saturating_sub(2) as usize;
    let count: usize = commits.len();
    let mut lines: Vec<Vec<Run>> = Vec::new();
    let mut row: usize = commits.scroll;
    while row < count && lines.len() < height
        invariant
            count == commits.row_count(),
            commits.scroll <= row,
            row <= count || lines@.len() == 0,
            row - commits.scroll == lines@.len(),
            lines@.len() <= height,
            forall|k: int|
                0 <= k < lines@.len() ==> shown_line(#[trigger] lines@[k]@) == commit_line(
                    *commits,
                    commits.scroll + k,
                    width as int,
                    focused,
                ),
        decreases count - row,
    {
        lines.push(draw_commit(commits, row, width, focused));
        row += 1;
    }
    let tip = commits.tip();
    let title = if crate::text::same_str(tip, "HEAD") {
        owned("Commits")
    } else {
        let mut text = joined("Commits (", tip);
        text.push_str(")");
        text
    };
    Framed { title, focused, lines }
}

// ---- Where everything goes -----------------------------------------------------------------

/// How much of an area a part of it gets.
#[derive(Debug, Clone, Copy, PartialEq, Eq, Structural)]
pub enum Share {
    /// A share of what is left, relative to the other shares.
    Fill(u16),
    /// At least this many cells.
    Min(u16),
    /// This many cells.
    Length(u16),
}

/// Which way an area is divided.
#[derive(Debug, Clone, Copy, PartialEq, Eq, Structural)]
pub enum Axis {
    Across,
    Down,
}

/// A rectangle that lies in an area and fills it the way it is not divided.
pub open spec fn part_of_area(area: Rect, axis: Axis, part: Rect) -> bool {
    match axis {
        Axis::Across => {
            &&& part.y == area.y
            &&& part.height == area.height
            &&& area.x <= part.x
            &&& part.x + part.width <= area.x + area.width
        },
        Axis::Down => {
            &&& part.x == area.x
            &&& part.width == area.width
            &&& area.y <= part.y
            &&& part.y + part.height <= area.y + area.height
        },
    }
}

/// `Layout::split` of `ratatui`: an area divided along an axis, one part for each
/// share, each part inside the area, as wide as it where it is divided downwards and
/// as high where it is divided across. How long each part is comes of a solver of
/// linear constraints over floating-point numbers and is left unsaid.
#[verifier::external_body]
fn divide(area: Rect, shares: &Vec<Share>, axis: Axis) -> (parts: Vec<Rect>)
    ensures
        parts@.len() == shares@.len(),
        forall|k: int|
            #![trigger parts@[k]]
            0 <= k < parts@.len() ==> part_of_area(area, axis, parts@[k]),
{
    let constraints = shares.iter().map(|share| match share {
        Share::Fill(n) => Constraint::Fill(*n),
        Share::Min(n) => Constraint::Min(*n),
        Share::Length(n) => Constraint::Length(*n),
    });
    let direction = match axis {
        Axis::Across => Direction::Horizontal,
        Axis::Down => Direction::Vertical,
    };
    let Rect { x, y, width, height } = area;
    let parts = Layout::new(direction, constraints).split(Area { x, y, width, height });
    parts.iter().map(|p| Rect { x: p.x, y: p.y, width: p.width, height: p.height }).collect()
}

/// The parts that the layout gave for an area, the shares of it and an axis.
pub closed spec fn divided(area: Rect, shares: Seq<Share>, axis: Axis, parts: Seq<Rect>) -> bool {
    exists|list: Vec<Share>, found: Vec<Rect>|
        list@ == shares && found@ == parts && #[trigger] call_ensures(
            divide,
            (area, &list, axis),
            found,
        )
}

/// An area divided by shares.
fn parts_of(area: Rect, shares: &Vec<Share>, axis: Axis) -> (parts: Vec<Rect>)
    ensures
        divided(area, shares@, axis, parts@),
        parts@.len() == shares@.len(),
        forall|k: int|
            #![trigger parts@[k]]
            0 <= k < parts@.len() ==> part_of_area(area, axis, parts@[k]),
{
    let parts = divide(area, shares, axis);
    assert(call_ensures(divide, (area, shares, axis), parts));
    parts
}

/// Where everything is drawn.
#[derive(Debug, Clone, Copy, PartialEq, Eq)]
pub struct Places {
    pub body: Rect,
    pub footer: Rect,
    pub files: Rect,
    pub commits: Rect,
    pub old: Rect,
    pub new: Rect,
}

impl App {
    /// The view with everything in its place.
    pub open spec fn placed(self, after: App, places: Places) -> bool {
        &&& after.screen.panes@ == seq![places.files, places.old, places.new]
        &&& after == self.seen(
            crate::screen::Screen {
                body: places.body,
                panes: after.screen.panes,
                viewport_height: crate::screen::at_least(places.old.height - 2, 0) as usize,
                ..self.screen
            },
        )
    }

    /// Take up where everything is drawn.
    pub fn place(&mut self, places: Places)
        requires
            old(self).ready(),
        ensures
            final(self).ready(),
            old(self).placed(*final(self), places),
    {
        let ghost start = *self;
        self.screen.body = places.body;
        self.screen.panes = [places.files, places.old, places.new];
        self.screen.viewport_height = places.old.height.saturating_sub(2) as usize;
        proof {
            start.redrawn(*self);
            assert(self.screen.panes@ =~= seq![places.files, places.old, places.new]);
        }
    }
}

/// The screen is divided: a body of three rows at least and a footer of one below it,
/// the body into the lists and the two sides by their weights, and the lists by theirs,
/// the files above the commits. Hidden lists have no place.
pub open spec fn laid_out(
    area: Rect,
    hidden: bool,
    weights: Seq<u16>,
    split: Seq<u16>,
    places: Places,
    down: Seq<Rect>,
    across: Seq<Rect>,
    left: Seq<Rect>,
) -> bool {
    let none = Rect { x: 0, y: 0, width: 0, height: 0 };
    &&& divided(area, seq![Share::Min(3), Share::Length(1)], Axis::Down, down)
    &&& places.body == down[0]
    &&& places.footer == down[1]
    &&& if hidden {
        &&& divided(
            places.body,
            seq![Share::Fill(weights[1]), Share::Fill(weights[2])],
            Axis::Across,
            across,
        )
        &&& places.files == none
        &&& places.commits == none
        &&& places.old == across[0]
        &&& places.new == across[1]
    } else {
        &&& divided(
            places.body,
            seq![Share::Fill(weights[0]), Share::Fill(weights[1]), Share::Fill(weights[2])],
            Axis::Across,
            across,
        )
        &&& divided(
            across[0],
            seq![Share::Fill(split[0]), Share::Fill(split[1])],
            Axis::Down,
            left,
        )
        &&& places.files == left[0]
        &&& places.commits == left[1]
        &&& places.old == across[1]
        &&& places.new == across[2]
    }
}

/// Divide the screen: the footer below, and in the body above it the lists on the
/// left and the two sides. Weights are cell widths, so a drag keeps its proportion
/// across a resize. The left column is two panes stacked, in the same relative
/// units.
pub fn draw(app: &mut App, area: Rect, split: [u16; 2]) -> (places: Places)
    requires
        old(app).ready(),
    ensures
        final(app).ready(),
        old(app).placed(*final(app), places),
        exists|down: Seq<Rect>, across: Seq<Rect>, left: Seq<Rect>| #[trigger]
            laid_out(
                area,
                old(app).screen.files_hidden,
                old(app).screen.weights@,
                split@,
                places,
                down,
                across,
                left,
            ),
        part_of_area(area, Axis::Down, places.body),
        part_of_area(area, Axis::Down, places.footer),
        part_of_area(places.body, Axis::Across, places.old),
        part_of_area(places.body, Axis::Across, places.new),
        !old(app).screen.files_hidden ==> {
            &&& places.commits.x == places.files.x
            &&& places.commits.width == places.files.width
            &&& places.body.x <= places.files.x
            &&& places.files.x + places.files.width <= places.body.x + places.body.width
            &&& places.body.y <= places.files.y
            &&& places.files.y + places.files.height <= places.body.y + places.body.height
            &&& places.body.y <= places.commits.y
            &&& places.commits.y + places.commits.height <= places.body.y + places.body.height
        },
{
    let ghost weights = app.screen.weights@;
    let ghost hidden = app.screen.files_hidden;
    let ghost mut lists: Seq<Rect> = Seq::empty();
    let mut rows: Vec<Share> = Vec::new();
    rows.push(Share::Min(3));
    rows.push(Share::Length(1));
    let down = parts_of(area, &rows, Axis::Down);
    let body = down[0];
    let footer = down[1];
    let mut columns: Vec<Share> = Vec::new();
    if !app.screen.files_hidden {
        columns.push(Share::Fill(app.screen.weights[0]));
    }
    columns.push(Share::Fill(app.screen.weights[1]));
    columns.push(Share::Fill(app.screen.weights[2]));
    proof {
        assert(rows@ =~= seq![Share::Min(3), Share::Length(1)]);
        if app.screen.files_hidden {
            assert(columns@ =~= seq![Share::Fill(weights[1]), Share::Fill(weights[2])]);
        } else {
            assert(columns@ =~= seq![
                Share::Fill(weights[0]),
                Share::Fill(weights[1]),
                Share::Fill(weights[2]),
            ]);
        }
    }
    let across = parts_of(body, &columns, Axis::Across);
    let (files, commits, old, new) = if app.screen.files_hidden {
        (Rect::zero(), Rect::zero(), across[0], across[1])
    } else {
        let mut stacked: Vec<Share> = Vec::new();
        stacked.push(Share::Fill(split[0]));
        stacked.push(Share::Fill(split[1]));
        let left = parts_of(across[0], &stacked, Axis::Down);
        proof {
            assert(stacked@ =~= seq![Share::Fill(split[0]), Share::Fill(split[1])]);
            lists = left@;
        }
        (left[0], left[1], across[1], across[2])
    };
    let places = Places { body, footer, files, commits, old, new };
    assert(laid_out(area, hidden, weights, split@, places, down@, across@, lists));
    app.place(places);
    places
}

/// What one cell of the screen holds, as far as redrawing cares.
#[derive(Debug, Clone, Copy, PartialEq, Eq)]
pub struct CellLook {
    /// The cells its glyph takes.
    pub cells: usize,
    /// Nothing is drawn in it.
    pub blank: bool,
}

/// The cell is the blank one after a wide glyph's own right half.
pub open spec fn after_wide(row: Seq<CellLook>, i: int) -> bool {
    2 <= i < row.len() && row[i - 2].cells > 1 && row[i].blank
}

/// The cells of a row to draw whether they changed or not. Only the cells that
/// changed between two frames are written, and one that this gets wrong is the cell
/// after a wide glyph's own right half: a CJK line moving one cell left puts each
/// glyph over the cell its right half was in, and the terminal blanks the half that
/// is left over, one cell further on, but keeps that cell's background.
pub fn refresh_after_wide(row: &Vec<CellLook>) -> (cells: Vec<usize>)
    ensures
        forall|k: int| 0 <= k < cells@.len() ==> after_wide(row@, #[trigger] cells@[k] as int),
        forall|i: int| #[trigger] after_wide(row@, i) ==> exists|k: int|
            0 <= k < cells@.len() && cells@[k] == i,
        forall|j: int, k: int|
            #![trigger cells@[j], cells@[k]]
            0 <= j < k < cells@.len() ==> cells@[j] < cells@[k],
{
    let mut cells: Vec<usize> = Vec::new();
    let mut i: usize = 2;
    while i < row.len()
        invariant
            2 <= i,
            i <= row@.len() || cells@.len() == 0,
            forall|k: int|
                0 <= k < cells@.len() ==> #[trigger] cells@[k] < i && after_wide(
                    row@,
                    cells@[k] as int,
                ),
            forall|m: int|
                m < i && #[trigger] after_wide(row@, m) ==> exists|k: int|
                    0 <= k < cells@.len() && cells@[k] == m,
            forall|j: int, k: int|
                #![trigger cells@[j], cells@[k]]
                0 <= j < k < cells@.len() ==> cells@[j] < cells@[k],
        decreases row@.len() - i,
    {
        let ghost before = cells@;
        if row[i - 2].cells > 1 && row[i].blank {
            cells.push(i);
            assert(cells@[before.len() as int] == i);
        }
        proof {
            assert forall|m: int| m < i + 1 && #[trigger] after_wide(row@, m) implies exists|
                k: int,
            |
                0 <= k < cells@.len() && cells@[k] == m by {
                if m < i {
                    let k = choose|k: int| 0 <= k < before.len() && before[k] == m;
                    assert(cells@[k] == m);
                } else {
                    assert(cells@[before.len() as int] == m);
                }
            }
        }
        i += 1;
    }
    cells
}

// ---- Laws ----------------------------------------------------------------------------------

/// A button can be clicked where it was drawn.
pub proof fn a_drawn_button_can_be_clicked(
    screen: crate::screen::Screen,
    area: Rect,
    index: int,
    at: Position,
)
    requires
        0 <= index < 2,
        screen.buttons@ == button_areas(area),
        buttons_end(area) < u16::MAX,
        area.y < u16::MAX,
        button_areas(area)[index].holds(at),
    ensures
        screen.button_under(at) == Some(index as usize),
{
    reveal_strlit("[settings ,]");
    reveal_strlit("[help ?]");
    assert(BUTTONS@[0]@ == "[settings ,]"@);
    assert(BUTTONS@[1]@ == "[help ?]"@);
}

/// A panel stays on what it floats over, whatever the room.
pub proof fn a_panel_stays_on_the_body(body: Rect, width: int, rows: int)
    requires
        0 <= width,
        0 <= rows,
        body.x + body.width <= u16::MAX,
        body.y + body.height <= u16::MAX,
    ensures
        ({
            let area = centred(body, width, rows);
            &&& body.x <= area.x
            &&& area.x + area.width <= body.x + body.width
            &&& body.y <= area.y
            &&& area.y + area.height <= body.y + body.height
        }),
{
}

/// The settings list and its explanation share the inside of the panel, and the list
/// never gives up a row it needs.
pub proof fn the_settings_list_comes_first(inner: Rect)
    ensures
        explain_rows(inner) > 0 ==> inner.height - explain_rows(inner) >= 8,
        0 <= explain_rows(inner) <= EXPLAIN_ROWS,
        explain_rows(inner) <= inner.height,
{
}

/// The terminal cursor is only ever put inside the pane, clear of its border.
pub proof fn the_cursor_stays_off_the_border(app: App, area: Rect)
    requires
        app.ready(),
        cursor_cell_at(app, area) is Some,
    ensures
        ({
            let (x, y) = cursor_cell_at(app, area)->0;
            &&& area.x < x < area.right_edge() - 1
            &&& area.y < y < area.bottom_edge() - 1
        }),
{
}

/// A line is on the plain background exactly where the row shows two lines that are
/// equal. Any other line is on that of deleted lines on the Before side and on that of
/// added lines on the Current side, but for what is selected. Where a side has no line
/// of the row, nothing of the text's colours is shown.
pub proof fn a_rows_colour_tells_what_changed(
    app: App,
    shown: Seq<Shown>,
    i: int,
    old_side: bool,
    width: int,
    range: Option<Selection>,
)
    requires
        app.ready(),
        0 <= i < app.diff.rows@.len(),
        row_shows(app, shown, app.diff.rows@[i], old_side, width, range),
    ensures
        ({
            let row = app.diff.rows@[i];
            let line = if old_side {
                row.old_line
            } else {
                row.new_line
            };
            let same = row.old_line is Some && row.new_line is Some && app.diff.old@[row.old_line->0
                as int]@ == app.shown()[row.new_line->0 as int];
            let paper = if same {
                Paper::Plain
            } else if old_side {
                Paper::Deleted
            } else {
                Paper::Added
            };
            if line is Some {
                &&& shown.len() > 0
                &&& shown[0].style.paper == Paper::Plain
                &&& forall|k: int|
                    1 <= k < shown.len() ==> (#[trigger] shown[k]).style.paper == paper || (range
                        is Some && shown[k].style.paper == Paper::Selection)
            } else {
                forall|k: int|
                    0 <= k < shown.len() ==> (#[trigger] shown[k]).style.paper == Paper::Phantom
            }
        }),
{
    let row = app.diff.rows@[i];
    let old = crate::text::views(app.diff.old@);
    crate::diff::equal_rows_show_equal_lines(app.diff.rows@, old, app.shown(), i);
    crate::diff::rows_name_lines(&app.diff, app.shown());
    let line = if old_side {
        row.old_line
    } else {
        row.new_line
    };
    if let Some(line) = line {
        let pane = if old_side {
            Pane::Old
        } else {
            Pane::New
        };
        let lines = app.side_lines(pane);
        let gutter = crate::columns::gutter(lines.len() as int);
        let room = crate::screen::at_least(width - (gutter + 1), 0);
        let hscroll = app.screen.hscroll as int;
        let text = lines[line as int];
        let paper = row_paper(row.kind, old_side);
        if row.old_line is Some {
            assert(old[row.old_line->0 as int] == app.diff.old@[row.old_line->0 as int]@);
        }
        let marked = covered(range, line as int, text, app.tab());
        let seen = crate::columns::visible(
            text,
            hscroll,
            crate::columns::capped(hscroll + room),
            app.tab(),
            marked,
        );
        let number = Shown {
            text: crate::text::right_set(crate::text::decimal(line + 1), gutter).push(' '),
            style: styled(Ink::Gutter, Paper::Plain),
        };
        let parts = choose|parts: Seq<(String, bool)>|
            #![trigger tinted(parts, paper)]
            crate::columns::maximal(parts) && crate::columns::flat(parts) == seen && shown == seq![
                number,
            ] + tinted(parts, paper);
        assert(shown == seq![number] + tinted(parts, paper));
        assert(crate::columns::flat(parts) == seen);
        assert(crate::columns::maximal(parts));
        assert(tinted(parts, paper).len() == parts.len());
        assert forall|k: int| 1 <= k < shown.len() implies (#[trigger] shown[k]).style.paper
            == paper || (range is Some && shown[k].style.paper == Paper::Selection) by {
            assert(shown[k] == tinted(parts, paper)[k - 1]);
            if range is None && parts[k - 1].1 {
                crate::columns::nothing_is_marked(
                    text,
                    hscroll,
                    crate::columns::capped(hscroll + room),
                    app.tab(),
                );
                crate::columns::a_run_is_in_the_row(parts, k - 1);
            }
        }
    }
}

} // verus!

//! The text of the Current pane: an editor buffer with an undo history of its
//! own.
use crate::area::{
    area_cancel_selection, area_cut, area_input, area_insert_str, area_jump, area_new,
    area_set_hard_tab_indent, area_set_max_histories, area_set_no_wrap, area_set_tab_length,
    area_start_selection, cursor_of, lines_of, selection_of, Area,
};
use crate::config::{Config, Eol, Indent};
use crate::git::{file_body, TextFile};
use crate::input::{Key, KeyPress};
use crate::text::{chars_of, copies, from_chars, same, split, strip_end};
use vstd::prelude::*;

verus! {

/// Consecutive edits closer together than this many nanoseconds, of the same kind
/// and at adjacent positions, undo as one step.
pub const GROUP_PAUSE: u64 = 500_000_000;

pub const MAX_SNAPSHOTS: usize = 100;

#[derive(Debug, Clone, Copy, PartialEq, Eq, Structural)]
pub enum EditKind {
    Insert,
    Delete,
    Other,
}

/// What one step of the history restores.
pub struct Snapshot {
    pub lines: Vec<String>,
    /// What ends each line.
    pub ends: Vec<String>,
    pub cursor: (usize, usize),
}

/// What a snapshot holds.
pub struct Step {
    pub lines: Seq<Seq<char>>,
    pub ends: Seq<Seq<char>>,
    pub cursor: (int, int),
}

impl View for Snapshot {
    type V = Step;

    open spec fn view(&self) -> Step {
        Step {
            lines: crate::text::views(self.lines@),
            ends: crate::text::views(self.ends@),
            cursor: (self.cursor.0 as int, self.cursor.1 as int),
        }
    }
}

pub open spec fn steps(snapshots: Seq<Snapshot>) -> Seq<Step> {
    Seq::new(snapshots.len(), |i: int| snapshots[i]@)
}

/// The last edit, for telling whether the next continues it.
pub struct LastEdit {
    pub kind: EditKind,
    pub at: (usize, usize),
    pub when: u64,
}

/// A sorted `(from, to)` stretch of text, `(row, col)` in characters, `to`
/// exclusive.
pub type Selection = ((usize, usize), (usize, usize));

// ---- Lines and stretches of them -----------------------------------------

/// The lines of a file: what `str::split` gives, with the line ending at the end
/// of the file and the carriage returns at the end of lines taken off.
pub open spec fn lines_in(body: Seq<char>) -> Seq<Seq<char>> {
    let once = if body.len() > 0 && body.last() == '\n' {
        body.drop_last()
    } else {
        body
    };
    crate::area::text_lines(crate::area::without_return(once))
}

fn strip_return(line: String) -> (stripped: String)
    ensures
        stripped@ == crate::area::without_return(line@),
{
    match strip_end(line.as_str(), "\r") {
        Some(rest) => {
            proof {
                reveal_strlit("\r");
                assert(line@.drop_last() == rest@);
                assert(line@.last() == '\r');
            }
            rest
        },
        None => {
            proof {
                reveal_strlit("\r");
                if line@.len() > 0 && line@.last() == '\r' {
                    assert(line@.skip(line@.len() - 1) == "\r"@);
                }
            }
            line
        },
    }
}

/// The lines of a file. Whether it ends with a newline is kept beside them: an
/// empty last line is no line of its own.
pub fn split_lines(body: &str) -> (lines: Vec<String>)
    ensures
        crate::text::views(lines@) == lines_in(body@),
        lines@.len() >= 1,
        crate::area::unbroken(lines_in(body@)),
{
    let once = match strip_end(body, "\n") {
        Some(rest) => {
            proof {
                reveal_strlit("\n");
                assert(body@.drop_last() == rest@);
                assert(body@.last() == '\n');
            }
            rest
        },
        None => {
            proof {
                reveal_strlit("\n");
                if body@.len() > 0 && body@.last() == '\n' {
                    assert(body@.skip(body@.len() - 1) == "\n"@);
                }
            }
            crate::text::owned(body)
        },
    };
    let text = strip_return(once);
    let parts = split(text.as_str(), '\n');
    let ghost raw = crate::text::views(parts@);
    proof {
        crate::text::pieces_nonempty(text@, '\n');
    }
    let mut lines: Vec<String> = Vec::new();
    let mut i: usize = 0;
    while i < parts.len()
        invariant
            0 <= i <= parts@.len(),
            raw == crate::text::views(parts@),
            lines@.len() == i,
            forall|j: int|
                0 <= j < i ==> (#[trigger] lines@[j])@ == crate::area::without_return(raw[j]),
        decreases parts@.len() - i,
    {
        lines.push(strip_return(parts[i].clone()));
        i += 1;
    }
    proof {
        assert(crate::text::views(lines@) == lines_in(body@));
        crate::text::pieces_hold_none(text@, '\n');
        assert forall|j: int| 0 <= j < lines_in(body@).len() implies !(#[trigger] lines_in(
            body@,
        )[j]).contains('\n') by {
            let line = crate::area::without_return(raw[j]);
            assert(lines_in(body@)[j] == line);
            if line.contains('\n') {
                let k = choose|k: int| 0 <= k < line.len() && line[k] == '\n';
                assert(raw[j][k] == '\n');
            }
        }
    }
    lines
}

/// The carriage return that ends a line, if one does.
pub open spec fn return_of(line: Seq<char>) -> Seq<char> {
    if line.len() > 0 && line.last() == '\r' {
        seq!['\r']
    } else {
        Seq::empty()
    }
}

/// What ends each line of a file: what was taken off behind it.
pub open spec fn ends_in(body: Seq<char>) -> Seq<Seq<char>> {
    let closed = body.len() > 0 && body.last() == '\n';
    let once = if closed {
        body.drop_last()
    } else {
        body
    };
    let parts = crate::text::pieces(crate::area::without_return(once), '\n');
    let tail = return_of(once) + (if closed {
        seq!['\n']
    } else {
        Seq::empty()
    });
    Seq::new(
        parts.len(),
        |i: int|
            return_of(parts[i]) + (if i + 1 < parts.len() {
                seq!['\n']
            } else {
                tail
            }),
    )
}

fn ends_with_return(line: &str) -> (found: bool)
    ensures
        found == (return_of(line@).len() > 0),
{
    let chars = chars_of(line);
    chars.len() > 0 && chars[chars.len() - 1] == '\r'
}

/// What ends each line of a file.
pub fn split_ends(body: &str) -> (ends: Vec<String>)
    ensures
        crate::text::views(ends@) == ends_in(body@),
        ends@.len() == lines_in(body@).len(),
{
    let (once, closed) = match strip_end(body, "\n") {
        Some(rest) => {
            proof {
                reveal_strlit("\n");
                assert(body@.drop_last() == rest@);
                assert(body@.last() == '\n');
            }
            (rest, true)
        },
        None => {
            proof {
                reveal_strlit("\n");
                if body@.len() > 0 && body@.last() == '\n' {
                    assert(body@.skip(body@.len() - 1) == "\n"@);
                }
            }
            (crate::text::owned(body), false)
        },
    };
    let mut tail = String::new();
    if ends_with_return(once.as_str()) {
        tail.push('\r');
    }
    if closed {
        tail.push('\n');
    }
    let ghost expected = return_of(once@) + (if closed {
        seq!['\n']
    } else {
        Seq::<char>::empty()
    });
    assert(tail@ =~= expected);
    let text = strip_return(once);
    let parts = split(text.as_str(), '\n');
    let ghost raw = crate::text::views(parts@);
    let mut ends: Vec<String> = Vec::new();
    let mut i: usize = 0;
    while i < parts.len()
        invariant
            0 <= i <= parts@.len(),
            raw == crate::text::views(parts@),
            raw == crate::text::pieces(text@, '\n'),
            tail@ == expected,
            ends@.len() == i,
            forall|j: int|
                0 <= j < i ==> (#[trigger] ends@[j])@ == return_of(raw[j]) + (if j + 1
                    < raw.len() {
                    seq!['\n']
                } else {
                    expected
                }),
        decreases parts@.len() - i,
    {
        let mut end = String::new();
        if ends_with_return(parts[i].as_str()) {
            end.push('\r');
        }
        proof {
            assert(end@ =~= return_of(raw[i as int]));
        }
        if i + 1 < parts.len() {
            end.push('\n');
        } else {
            end.push_str(tail.as_str());
        }
        proof {
            assert(end@ =~= return_of(raw[i as int]) + (if i + 1 < raw.len() {
                seq!['\n']
            } else {
                expected
            }));
        }
        ends.push(end);
        i += 1;
    }
    proof {
        assert(crate::text::views(ends@) =~= ends_in(body@));
    }
    ends
}

/// The lines of a text to read: what `str::lines` gives. A line ending at the end
/// starts no line of its own, and only a carriage return before a line feed goes.
pub open spec fn reading(text: Seq<char>) -> Seq<Seq<char>> {
    let parts = crate::text::pieces(text, '\n');
    let ended = parts.drop_last().map_values(
        |line: Seq<char>| crate::area::without_return(line),
    );
    if parts.last().len() > 0 {
        ended.push(parts.last())
    } else {
        ended
    }
}

/// The lines of a text to read.
pub fn reading_lines(text: &str) -> (lines: Vec<String>)
    ensures
        crate::text::views(lines@) == reading(text@),
{
    proof {
        crate::text::pieces_nonempty(text@, '\n');
    }
    let mut parts = split(text, '\n');
    let ghost all = crate::text::pieces(text@, '\n');
    assert(parts@.len() == all.len());
    let last = match parts.pop() {
        Some(last) => last,
        None => String::new(),
    };
    proof {
        assert(last@ == all.last());
        assert(crate::text::views(parts@) =~= all.drop_last());
    }
    let mut lines: Vec<String> = Vec::new();
    let mut i: usize = 0;
    while i < parts.len()
        invariant
            0 <= i <= parts@.len(),
            crate::text::views(parts@) == all.drop_last(),
            lines@.len() == i,
            forall|j: int|
                0 <= j < i ==> (#[trigger] lines@[j])@ == crate::area::without_return(
                    crate::text::views(parts@)[j],
                ),
        decreases parts@.len() - i,
    {
        let line = strip_return(parts[i].clone());
        lines.push(line);
        i += 1;
    }
    let ghost ended = all.drop_last().map_values(
        |line: Seq<char>| crate::area::without_return(line),
    );
    proof {
        assert(crate::text::views(lines@) =~= ended);
    }
    if last.as_str().unicode_len() > 0 {
        lines.push(last);
        proof {
            assert(crate::text::views(lines@) =~= ended.push(last@));
        }
    }
    lines
}

/// The characters of a line from one to another, as far as it goes.
pub open spec fn part_of(line: Seq<char>, from: int, to: int) -> Seq<char> {
    let start = if from <= line.len() {
        from
    } else {
        line.len() as int
    };
    let end = if to <= line.len() {
        to
    } else {
        line.len() as int
    };
    if start < end {
        line.subrange(start, end)
    } else {
        Seq::empty()
    }
}

/// The characters of a line from one to another, as far as it goes.
pub fn slice_chars(line: &str, from: usize, to: usize) -> (part: String)
    ensures
        part@ == part_of(line@, from as int, to as int),
{
    let chars = chars_of(line);
    let len: usize = chars.len();
    let start: usize = if from <= len {
        from
    } else {
        len
    };
    let end: usize = if to <= len {
        to
    } else {
        len
    };
    if start < end {
        from_chars(vstd::slice::slice_subrange(chars.as_slice(), start, end))
    } else {
        String::new()
    }
}

/// Lines, each behind a line feed.
pub open spec fn led(lines: Seq<Seq<char>>) -> Seq<char>
    decreases lines.len(),
{
    if lines.len() == 0 {
        Seq::empty()
    } else {
        led(lines.drop_last()) + seq!['\n'] + lines.last()
    }
}

/// The text of a stretch of lines.
pub open spec fn stretch(lines: Seq<Seq<char>>, range: ((int, int), (int, int))) -> Seq<char> {
    let (from, to) = range;
    if from.0 == to.0 {
        part_of(lines[from.0], from.1, to.1)
    } else {
        part_of(lines[from.0], from.1, lines[from.0].len() as int) + led(
            lines.subrange(from.0 + 1, to.0),
        ) + seq!['\n'] + part_of(lines[to.0], 0, to.1)
    }
}

/// The text a sorted selection covers. Shared by the editor and the read-only
/// side.
pub fn slice_selection(lines: &[String], range: Selection) -> (text: String)
    requires
        range.0.0 <= range.1.0 < lines@.len(),
    ensures
        text@ == stretch(crate::text::views(lines@), crate::area::span_ints(range)),
{
    let ((from_row, from_col), (to_row, to_col)) = range;
    if from_row == to_row {
        return slice_chars(lines[from_row].as_str(), from_col, to_col);
    }
    let mut out = slice_chars(lines[from_row].as_str(), from_col, usize::MAX);
    let ghost all = crate::text::views(lines@);
    let ghost first = part_of(all[from_row as int], from_col as int, all[from_row as int].len() as int);
    let first_len: usize = chars_of(lines[from_row].as_str()).len();
    proof {
        assert(first_len <= usize::MAX);
        assert(out@ == first);
    }
    let ghost middle = all.subrange(from_row + 1, to_row as int);
    let mut row: usize = from_row + 1;
    proof {
        assert(middle.take(0).len() == 0);
        assert(first + led(middle.take(0)) == first);
    }
    while row < to_row
        invariant
            from_row < row <= to_row < lines@.len(),
            all == crate::text::views(lines@),
            middle == all.subrange(from_row + 1, to_row as int),
            out@ == first + led(middle.take(row - from_row - 1)),
        decreases to_row - row,
    {
        proof {
            let k = row - from_row - 1;
            assert(middle.take(k + 1).drop_last() == middle.take(k));
            assert(middle.take(k + 1).last() == lines@[row as int]@);
        }
        out.push('\n');
        out.push_str(lines[row].as_str());
        row += 1;
    }
    proof {
        assert(middle.take(middle.len() as int) == middle);
    }
    out.push('\n');
    out.push_str(slice_chars(lines[to_row].as_str(), 0, to_col).as_str());
    out
}

// ---- The buffer ----------------------------------------------------------

/// The Current pane's text. The text area has the cursor, the selection and the
/// handling of characters, but the undo stack is the buffer's own: "undo a typed
/// word in one step" cannot be expressed by counting the area's undos.
pub struct EditorBuffer {
    pub area: Area,
    pub loaded: Vec<String>,
    pub loaded_body: String,
    /// What ends each line.
    pub ends: Vec<String>,
    /// What ends a line that is new or was touched.
    pub eol: Eol,
    pub trailing_newline: bool,
    pub indent: Indent,
    pub snapshots: Vec<Snapshot>,
    pub index: usize,
    pub last_edit: Option<LastEdit>,
}

/// The edit continues the one before: of the same kind, on the same line, next to
/// it, and soon after.
pub open spec fn continues(last: Option<LastEdit>, kind: EditKind, at: (int, int), now: u64) -> bool {
    match last {
        Some(last) => {
            &&& last.kind == kind
            &&& kind != EditKind::Other
            &&& last.at.0 == at.0
            &&& -1 <= last.at.1 - at.1 <= 1
            &&& now < last.when || now - last.when < GROUP_PAUSE
        },
        None => false,
    }
}

/// The kind of edit that a key makes.
pub open spec fn kind_of(code: Key) -> EditKind {
    match code {
        Key::Backspace | Key::Delete => EditKind::Delete,
        Key::Char(_) | Key::Tab | Key::BackTab | Key::Enter => EditKind::Insert,
        _ => EditKind::Other,
    }
}

/// The text area of a buffer writes tabs where the buffer does, and leaves undo to
/// the buffer.
pub open spec fn setup_for(indent: Indent) -> crate::area::Setup {
    crate::area::Setup {
        tabs: indent.tabs,
        tab: if indent.width <= 255 {
            indent.width as int
        } else {
            255
        },
        kept: 0,
    }
}

pub open spec fn short_row(n: int) -> int {
    if n <= u16::MAX {
        n
    } else {
        u16::MAX as int
    }
}

impl EditorBuffer {
    /// The lines of the buffer.
    pub open spec fn text(&self) -> Seq<Seq<char>> {
        crate::area::area_lines(self.area)
    }

    /// What ends each line.
    pub open spec fn endings(&self) -> Seq<Seq<char>> {
        crate::text::views(self.ends@)
    }

    /// What ends each line after an edit. The lines it did not touch have what they had.
    /// Of those it touched, the last has what ended the line it is the rest of, where
    /// that line is still whole, and so has the first; the others have the line ending
    /// of the buffer.
    pub open spec fn endings_after(&self, after: Area) -> Seq<Seq<char>> {
        let first = crate::area::first_touched(self.area, after);
        let last = crate::area::area_cursor(after).0;
        let new = crate::area::area_lines(after);
        let behind = new.len() - 1 - last;
        let before = self.endings();
        let rest = before.len() - behind;
        before.take(first) + Seq::new(
            (last + 1 - first) as nat,
            |i: int|
                if first + i == last && new[last] == self.text()[rest - 1] {
                    before[rest - 1]
                } else if i == 0 && new[first] == self.text()[first] {
                    before[first]
                } else {
                    self.eol.text()
                },
        ) + before.skip(rest)
    }

    /// Where the cursor is.
    pub open spec fn at(&self) -> (int, int) {
        crate::area::area_cursor(self.area)
    }

    /// Where the selection was started, if one was.
    pub open spec fn anchor(&self) -> Option<(int, int)> {
        crate::area::area_anchor(self.area)
    }

    /// The steps that undo and redo walk.
    pub open spec fn history(&self) -> Seq<Step> {
        steps(self.snapshots@)
    }

    /// There is a step to stand on, there are not too many, each holds a text, and
    /// nothing is left to redo behind an edit.
    pub open spec fn sound(&self) -> bool {
        &&& crate::area::area_ok(self.area)
        &&& crate::area::area_setup(self.area) == setup_for(self.indent)
        &&& self.ends@.len() == self.text().len()
        &&& 1 <= self.snapshots@.len() <= MAX_SNAPSHOTS
        &&& self.index < self.snapshots@.len()
        &&& forall|k: int|
            0 <= k < self.snapshots@.len() ==> (#[trigger] self.snapshots@[k]).lines@.len() > 0
                && self.snapshots@[k].ends@.len() == self.snapshots@[k].lines@.len()
                && crate::area::unbroken(crate::text::views(self.snapshots@[k].lines@))
        &&& self.last_edit is Some ==> self.index + 1 == self.snapshots@.len()
    }

    /// The step the buffer stands on holds the text it shows.
    pub open spec fn in_step(&self) -> bool {
        &&& self.history()[self.index as int].lines == self.text()
        &&& self.history()[self.index as int].ends == self.endings()
    }

    /// What was loaded and how it is written have not changed.
    pub open spec fn same_file(&self, before: &EditorBuffer) -> bool {
        &&& self.loaded == before.loaded
        &&& self.loaded_body == before.loaded_body
        &&& self.eol == before.eol
        &&& self.trailing_newline == before.trailing_newline
        &&& self.indent == before.indent
    }

    /// The history has not changed.
    pub open spec fn same_history(&self, before: &EditorBuffer) -> bool {
        &&& self.snapshots == before.snapshots
        &&& self.index == before.index
        &&& self.last_edit == before.last_edit
    }

    /// The history took up the text as it is now: in the place of the last step
    /// where the edit continues it, else as a step of its own behind it, with
    /// nothing left to redo and the oldest step dropped where there are too many.
    pub open spec fn recorded(&self, before: &EditorBuffer, kind: EditKind, now: u64) -> bool {
        let step = Step { lines: self.text(), ends: self.endings(), cursor: self.at() };
        let grown = before.history().take(before.index + 1).push(step);
        &&& if continues(before.last_edit, kind, self.at(), now) {
            self.history() == before.history().update(before.index as int, step) && self.index
                == before.index
        } else if grown.len() > MAX_SNAPSHOTS {
            self.history() == grown.skip(1) && self.index == before.index
        } else {
            self.history() == grown && self.index == before.index + 1
        }
        &&& self.endings() == before.endings_after(self.area)
        &&& self.last_edit is Some
        &&& self.last_edit->0.kind == kind
        &&& (self.last_edit->0.at.0 as int, self.last_edit->0.at.1 as int) == self.at()
        &&& self.last_edit->0.when == now
    }

    /// The buffer stands on step `k` of the history, with the cursor where the
    /// step left it as far as a jump reaches.
    pub open spec fn restored(&self, before: &EditorBuffer, k: int) -> bool {
        let step = before.history()[k];
        &&& self.snapshots == before.snapshots
        &&& self.index == k
        &&& self.last_edit is None
        &&& self.text() == step.lines
        &&& self.endings() == step.ends
        &&& self.at() == crate::area::landing(
            step.lines,
            short_row(step.cursor.0),
            short_row(step.cursor.1),
        )
        &&& self.anchor() is None
    }

    /// Only the cursor moved, to a place or as near as a jump reaches, and perhaps
    /// the start of the selection.
    pub open spec fn placed(&self, before: &EditorBuffer, row: int, col: int) -> bool {
        &&& self.same_file(before)
        &&& self.same_history(before)
        &&& self.text() == before.text()
        &&& self.ends == before.ends
        &&& self.at() == crate::area::landing(before.text(), short_row(row), short_row(col))
    }

    /// A key that puts a text in, which may be empty and then only takes the selection
    /// out.
    pub open spec fn pastes(&self, key: KeyPress) -> bool {
        ||| (key.code == Key::Tab || key.code == Key::BackTab) && !self.indent.tabs
        ||| crate::area::deed(key) is Paste
    }

    /// How far a key reaches in the text area.
    pub open spec fn reach(&self, key: KeyPress) -> Option<(int, int)> {
        crate::area::reach(self.text(), crate::area::area_setup(self.area).tab, self.at(), key)
    }

    /// A key was handed to the text area.
    pub open spec fn typed(
        &self,
        before: &EditorBuffer,
        key: KeyPress,
        now: u64,
        changed: bool,
    ) -> bool {
        &&& if changed {
            self.recorded(before, kind_of(key.code), now) && self.in_step()
        } else {
            &&& self.same_history(before)
            &&& self.endings() == (if before.pastes(key) && crate::area::has_selection(
                before.area,
            ) {
                before.endings_after(self.area)
            } else {
                before.endings()
            })
        }
        &&& if (key.code == Key::Tab || key.code == Key::BackTab) && !before.indent.tabs {
            &&& crate::area::replaced(
                before.area,
                self.area,
                crate::area::text_lines(before.indent.text()),
            )
            &&& changed == (before.indent.width > 0)
        } else {
            crate::area::did(before.area, self.area, key, before.reach(key), changed)
        }
    }

    /// The text that is written for the buffer.
    pub open spec fn written(&self) -> Seq<char> {
        crate::git::body_of(self.text(), self.endings(), self.eol, self.trailing_newline)
    }

    /// The buffer holds a file's text as it was loaded, with the cursor at the start
    /// and nothing to undo.
    pub open spec fn fresh(&self, file: TextFile, config: Config) -> bool {
        &&& self.in_step()
        &&& self.text() == lines_in(file.body@)
        &&& self.at() == (0int, 0int)
        &&& self.anchor() is None
        &&& crate::text::views(self.loaded@) == lines_in(file.body@)
        &&& self.loaded_body@ == file.body@
        &&& self.eol == (if config.detect_line_ending && file.eol is Some {
            file.eol->0
        } else if config.line_ending@ == "crlf"@ {
            Eol::Crlf
        } else {
            Eol::Lf
        })
        &&& self.trailing_newline == file.trailing_newline
        &&& config.indents(lines_in(file.body@), self.indent)
        &&& self.endings() == (if config.detect_line_ending {
            ends_in(file.body@)
        } else {
            lines_in(file.body@).map_values(|line: Seq<char>| self.eol.text())
        })
        &&& self.history() == seq![
            Step {
                lines: lines_in(file.body@),
                ends: self.endings(),
                cursor: (0int, 0int),
            },
        ]
        &&& self.index == 0
        &&& self.last_edit is None
    }

    fn area_for(lines: Vec<String>, indent: Indent) -> (area: Area)
        requires
            lines@.len() > 0,
            crate::area::unbroken(crate::text::views(lines@)),
        ensures
            crate::area::area_lines(area) == crate::text::views(lines@),
            crate::area::area_cursor(area) == (0int, 0int),
            crate::area::area_anchor(area) is None,
            crate::area::area_ok(area),
            crate::area::area_setup(area) == setup_for(indent),
    {
        let mut area = area_new(lines);
        area_set_max_histories(&mut area, 0);
        area_set_no_wrap(&mut area);
        area_set_hard_tab_indent(&mut area, indent.tabs);
        let width: u8 = if indent.width <= 255 {
            indent.width as u8
        } else {
            255
        };
        area_set_tab_length(&mut area, width);
        area
    }

    /// A buffer of a file's text.
    pub fn new(file: &TextFile, config: &Config) -> (buffer: Self)
        ensures
            buffer.sound(),
            buffer.fresh(*file, *config),
    {
        let lines = split_lines(file.body.as_str());
        let indent = config.indent_for(lines.as_slice());
        let area = Self::area_for(copies(lines.as_slice()), indent);
        let eol = config.eol_for(file.eol);
        let ends = if config.detect_line_ending {
            split_ends(file.body.as_str())
        } else {
            eol_for_each(lines.len(), eol)
        };
        let snapshot = Snapshot {
            lines: copies(lines.as_slice()),
            ends: copies(ends.as_slice()),
            cursor: (0, 0),
        };
        let mut snapshots: Vec<Snapshot> = Vec::new();
        snapshots.push(snapshot);
        let buffer = EditorBuffer {
            area,
            loaded: lines,
            loaded_body: file.body.clone(),
            ends,
            eol,
            trailing_newline: file.trailing_newline,
            indent,
            snapshots,
            index: 0,
            last_edit: None,
        };
        proof {
            assert(buffer.history()[0].lines == buffer.text());
            assert(buffer.history()[0].ends == buffer.endings());
            if !config.detect_line_ending {
                assert(buffer.endings() =~= lines_in(file.body@).map_values(
                    |line: Seq<char>| eol.text(),
                ));
            }
            assert(buffer.history() =~= seq![
                Step {
                    lines: lines_in(file.body@),
                    ends: buffer.endings(),
                    cursor: (0int, 0int),
                },
            ]);
        }
        buffer
    }

    pub fn lines(&self) -> (lines: &[String])
        ensures
            crate::text::views(lines@) == self.text(),
    {
        lines_of(&self.area)
    }

    pub fn cursor(&self) -> (cursor: (usize, usize))
        ensures
            (cursor.0 as int, cursor.1 as int) == self.at(),
            crate::area::inside(self.text(), self.at()),
    {
        cursor_of(&self.area)
    }

    /// The selection, sorted, as soon as one was started.
    pub fn selection(&self) -> (range: Option<Selection>)
        ensures
            range is Some <==> self.anchor() is Some,
            range is Some ==> crate::area::span_ints(range->0) == crate::area::ordered(
                self.anchor()->0,
                self.at(),
            ),
    {
        selection_of(&self.area)
    }

    pub fn selected_text(&self) -> (text: Option<String>)
        requires
            self.sound(),
        ensures
            text is Some <==> self.anchor() is Some,
            text is Some ==> text->0@ == stretch(
                self.text(),
                crate::area::ordered(self.anchor()->0, self.at()),
            ),
    {
        match self.selection() {
            Some(range) => {
                let lines = self.lines();
                proof {
                    assert(lines@.len() == self.text().len());
                }
                Some(slice_selection(lines, range))
            },
            None => None,
        }
    }

    /// The text differs from what was loaded or saved last.
    pub open spec fn changed(&self) -> bool {
        self.text() != crate::text::views(self.loaded@)
    }

    pub fn dirty(&self) -> (dirty: bool)
        ensures
            dirty == self.changed(),
    {
        let lines = self.lines();
        !same_lines(lines, self.loaded.as_slice())
    }

    pub fn eol(&self) -> (eol: Eol)
        ensures
            eol == self.eol,
    {
        self.eol
    }

    pub fn tab_width(&self) -> (width: usize)
        ensures
            width == self.indent.width,
    {
        self.indent.width
    }

    pub fn trailing_newline(&self) -> (trailing: bool)
        ensures
            trailing == self.trailing_newline,
    {
        self.trailing_newline
    }

    /// The content this buffer was loaded from, for detecting that another process
    /// rewrote the file underneath it.
    pub fn loaded_body(&self) -> (body: &str)
        ensures
            body@ == self.loaded_body@,
    {
        self.loaded_body.as_str()
    }

    /// The text has been written as it is.
    pub fn mark_saved(&mut self)
        requires
            old(self).sound(),
        ensures
            final(self).area == old(self).area,
            final(self).same_history(old(self)),
            final(self).ends == old(self).ends,
            final(self).eol == old(self).eol,
            final(self).trailing_newline == old(self).trailing_newline,
            final(self).indent == old(self).indent,
            crate::text::views(final(self).loaded@) == old(self).text(),
            final(self).loaded_body@ == old(self).written(),
    {
        let loaded = copies(self.lines());
        let body = self.body();
        self.loaded = loaded;
        self.loaded_body = body;
    }

    /// The text to write.
    pub fn body(&self) -> (body: String)
        requires
            self.sound(),
        ensures
            body@ == self.written(),
    {
        let lines = self.lines();
        proof {
            assert(lines@.len() == self.text().len());
        }
        file_body(lines, self.ends.as_slice(), self.eol, self.trailing_newline)
    }

    /// A key that is not one of the program's own. Returns whether the buffer
    /// changed.
    pub fn input(&mut self, key: KeyPress, now: u64) -> (changed: bool)
        requires
            old(self).sound(),
        ensures
            final(self).sound(),
            final(self).same_file(old(self)),
            final(self).typed(old(self), key, now, changed),
    {
        let kind = match key.code {
            Key::Backspace | Key::Delete => EditKind::Delete,
            Key::Char(_) | Key::Tab | Key::BackTab | Key::Enter => EditKind::Insert,
            _ => EditKind::Other,
        };
        let ghost before = *self;
        let spaces = (key.code == Key::Tab || key.code == Key::BackTab) && !self.indent.tabs;
        let pastes = spaces || key.code == Key::Char('y') && key.ctrl && !key.alt;
        let was = copies(self.lines());
        let (selected, from) = self.start_of_edit();
        let changed = if spaces {
            let unit = self.indent.unit();
            proof {
                spaces_are_one_line(self.indent.width as int);
            }
            area_insert_str(&mut self.area, unit.as_str())
        } else {
            area_input(&mut self.area, key)
        };
        proof {
            if changed || (pastes && selected) {
                before.key_touches_only(self.area, key, changed);
            }
        }
        if changed {
            self.carry_ends(Ghost(before), &was, from);
            self.record(kind, now);
        } else if pastes && selected {
            self.carry_ends(Ghost(before), &was, from);
        }
        changed
    }

    /// Put a text in the place of the selection, or at the cursor.
    pub fn insert_str(&mut self, text: &str, now: u64) -> (changed: bool)
        requires
            old(self).sound(),
        ensures
            final(self).sound(),
            final(self).same_file(old(self)),
            crate::area::replaced(old(self).area, final(self).area, crate::area::text_lines(text@)),
            changed == !(crate::area::text_lines(text@).len() == 1 && crate::area::text_lines(
                text@,
            )[0].len() == 0),
            changed ==> final(self).recorded(old(self), EditKind::Other, now) && final(self).in_step(),
            !changed ==> final(self).same_history(old(self)),
            !changed ==> final(self).endings() == (if crate::area::has_selection(old(self).area) {
                old(self).endings_after(final(self).area)
            } else {
                old(self).endings()
            }),
    {
        let ghost before = *self;
        let was = copies(self.lines());
        let (selected, from) = self.start_of_edit();
        let changed = area_insert_str(&mut self.area, text);
        proof {
            crate::text::pieces_nonempty(text@, '\n');
            let pieces = crate::area::text_lines(text@);
            crate::area::replacing_touches_only(before.area, self.area, pieces);
            if !changed && !selected {
                assert(pieces[0] =~= Seq::<char>::empty());
                assert(pieces =~= seq![Seq::<char>::empty()]);
                before.nothing_touched(self.area);
            }
        }
        if changed || selected {
            self.carry_ends(Ghost(before), &was, from);
        }
        if changed {
            self.record(EditKind::Other, now);
        }
        changed
    }

    /// Put the cursor at a place, with nothing selected.
    pub fn move_cursor_to(&mut self, row: usize, col: usize)
        requires
            old(self).sound(),
        ensures
            final(self).sound(),
            final(self).same_file(old(self)),
            final(self).same_history(old(self)),
            final(self).ends == old(self).ends,
            final(self).text() == old(self).text(),
            final(self).at() == crate::area::landing(
                old(self).text(),
                short_row(row as int),
                short_row(col as int),
            ),
            final(self).anchor() is None,
    {
        area_cancel_selection(&mut self.area);
        self.move_cursor_to_keeping_selection(row, col);
    }

    /// Used by drag, and by undo when restoring a snapshot's cursor.
    pub fn move_cursor_to_keeping_selection(&mut self, row: usize, col: usize)
        requires
            old(self).sound(),
        ensures
            final(self).sound(),
            final(self).same_file(old(self)),
            final(self).same_history(old(self)),
            final(self).ends == old(self).ends,
            final(self).text() == old(self).text(),
            final(self).at() == crate::area::landing(
                old(self).text(),
                short_row(row as int),
                short_row(col as int),
            ),
            final(self).anchor() == old(self).anchor(),
    {
        let row: u16 = if row <= 65535 {
            row as u16
        } else {
            65535
        };
        let col: u16 = if col <= 65535 {
            col as u16
        } else {
            65535
        };
        area_jump(&mut self.area, row, col);
    }

    pub fn start_selection(&mut self)
        requires
            old(self).sound(),
        ensures
            final(self).sound(),
            final(self).same_file(old(self)),
            final(self).same_history(old(self)),
            final(self).ends == old(self).ends,
            final(self).text() == old(self).text(),
            final(self).at() == old(self).at(),
            final(self).anchor() == Some(old(self).at()),
    {
        area_start_selection(&mut self.area);
    }

    pub fn cancel_selection(&mut self)
        requires
            old(self).sound(),
        ensures
            final(self).sound(),
            final(self).same_file(old(self)),
            final(self).same_history(old(self)),
            final(self).ends == old(self).ends,
            final(self).text() == old(self).text(),
            final(self).at() == old(self).at(),
            final(self).anchor() is None,
    {
        area_cancel_selection(&mut self.area);
    }

    /// Take the selection out.
    pub fn cut(&mut self, now: u64) -> (changed: bool)
        requires
            old(self).sound(),
        ensures
            final(self).sound(),
            final(self).same_file(old(self)),
            crate::area::replaced(old(self).area, final(self).area, seq![Seq::<char>::empty()]),
            changed == (old(self).anchor() is Some && old(self).anchor()->0 != old(self).at()),
            changed ==> final(self).recorded(old(self), EditKind::Other, now) && final(self).in_step(),
            !changed ==> final(self).same_history(old(self)) && final(self).ends == old(self).ends,
    {
        let ghost before = *self;
        let was = copies(self.lines());
        let (_, from) = self.start_of_edit();
        let changed = area_cut(&mut self.area);
        proof {
            let pieces = seq![Seq::<char>::empty()];
            crate::area::replacing_touches_only(before.area, self.area, pieces);
            if !changed {
                before.nothing_touched(self.area);
            }
        }
        if changed {
            self.carry_ends(Ghost(before), &was, from);
            self.record(EditKind::Other, now);
        }
        changed
    }

    /// Go back one step.
    pub fn undo(&mut self) -> (moved: bool)
        requires
            old(self).sound(),
        ensures
            final(self).sound(),
            final(self).same_file(old(self)),
            moved == (old(self).index > 0),
            moved ==> final(self).restored(old(self), old(self).index - 1) && final(self).in_step(),
            !moved ==> *final(self) == *old(self),
    {
        if self.index == 0 {
            return false;
        }
        self.index -= 1;
        self.restore();
        true
    }

    /// Go forward one step.
    pub fn redo(&mut self) -> (moved: bool)
        requires
            old(self).sound(),
        ensures
            final(self).sound(),
            final(self).same_file(old(self)),
            moved == (old(self).index + 1 < old(self).snapshots@.len()),
            moved ==> final(self).restored(old(self), old(self).index + 1) && final(self).in_step(),
            !moved ==> *final(self) == *old(self),
    {
        if self.index + 1 >= self.snapshots.len() {
            return false;
        }
        self.index += 1;
        self.restore();
        true
    }

    /// Whether something is selected, and the line on which an edit would start.
    fn start_of_edit(&self) -> (start: (bool, usize))
        ensures
            start.0 == crate::area::has_selection(self.area),
            start.1 == crate::area::target(self.at(), self.anchor()).0.0,
    {
        let (row, _) = self.cursor();
        match self.selection() {
            Some((from, to)) => (from.0 != to.0 || from.1 != to.1, from.0),
            None => (false, row),
        }
    }

    /// Where nothing was put in the place of nothing, the text is as it was.
    proof fn nothing_touched(&self, after: Area)
        requires
            self.sound(),
            !crate::area::has_selection(self.area),
            crate::area::replaced(self.area, after, seq![Seq::<char>::empty()]),
        ensures
            crate::area::area_lines(after) == self.text(),
    {
        let at = self.at();
        let line = self.text()[at.0];
        assert(line.take(at.1) + Seq::<char>::empty() + line.skip(at.1) =~= line);
        assert(crate::area::area_lines(after) =~= self.text());
    }

    /// A key that changes the text touches only the lines of the stretch it replaces.
    pub proof fn key_touches_only(&self, after: Area, key: KeyPress, changed: bool)
        requires
            self.sound(),
            changed || self.pastes(key),
            if (key.code == Key::Tab || key.code == Key::BackTab) && !self.indent.tabs {
                crate::area::replaced(
                    self.area,
                    after,
                    crate::area::text_lines(self.indent.text()),
                )
            } else {
                crate::area::did(self.area, after, key, self.reach(key), changed)
            },
        ensures
            crate::area::touched_only(self.area, after),
    {
        let deed = crate::area::deed(key);
        if (key.code == Key::Tab || key.code == Key::BackTab) && !self.indent.tabs {
            let pieces = crate::area::text_lines(self.indent.text());
            crate::text::pieces_nonempty(self.indent.text(), '\n');
            crate::area::replacing_touches_only(self.area, after, pieces);
        } else if deed is Paste {
            let pieces = choose|pieces: Seq<Seq<char>>|
                pieces.len() > 0 && #[trigger] crate::area::replaced(self.area, after, pieces)
                    && changed == (pieces != seq![Seq::<char>::empty()]);
            crate::area::replacing_touches_only(self.area, after, pieces);
        } else if deed is Break {
            crate::area::replacing_touches_only(
                self.area,
                after,
                seq![Seq::<char>::empty(), Seq::<char>::empty()],
            );
        } else if deed is Write {
            crate::area::replacing_touches_only(self.area, after, seq![seq![deed->Write_0]]);
        } else if deed is Rub {
            crate::area::rubbing_touches_only(self.area, after, deed->Rub_0, self.reach(key));
        } else if deed is Indent {
            if self.indent.width == 0 {
                crate::area::rubbing_touches_only(
                    self.area,
                    after,
                    crate::area::Rub::Selection,
                    self.reach(key),
                );
            } else {
                crate::area::replacing_touches_only(self.area, after, seq![seq!['\t']]);
            }
        }
    }

    /// Keep what ends the lines that an edit did not touch, or left whole. `was` are the
    /// lines before it and `from` is the line on which it started.
    fn carry_ends(&mut self, Ghost(before): Ghost<EditorBuffer>, was: &Vec<String>, from: usize)
        requires
            before.sound(),
            old(self).ends == before.ends,
            old(self).eol == before.eol,
            crate::text::views(was@) == before.text(),
            from == crate::area::target(before.at(), before.anchor()).0.0,
            crate::area::touched_only(before.area, old(self).area),
        ensures
            final(self).endings() == before.endings_after(old(self).area),
            final(self).ends@.len() == old(self).text().len(),
            *final(self) == (EditorBuffer { ends: final(self).ends, ..*old(self) }),
    {
        let (last, _) = self.cursor();
        let lines = self.lines();
        let count = lines.len();
        proof {
            assert(count == self.text().len());
            assert(was@.len() == before.text().len());
        }
        let first: usize = if from < last {
            from
        } else {
            last
        };
        let behind: usize = count - 1 - last;
        let rest: usize = self.ends.len() - behind;
        let ghost given = before.endings();
        let ghost now = self.text();
        let ghost whole = before.text();
        let mut ends = copies(vstd::slice::slice_subrange(self.ends.as_slice(), 0, first));
        proof {
            assert(crate::text::views(ends@) =~= given.take(first as int));
        }
        let mut row: usize = first;
        while row <= last
            invariant
                first <= row <= last + 1,
                last < count,
                count == lines@.len(),
                now == crate::text::views(lines@),
                whole == crate::text::views(was@),
                given == crate::text::views(self.ends@),
                given.len() == whole.len(),
                first < rest <= whole.len(),
                ends@.len() == row,
                crate::text::views(ends@) == given.take(first as int) + Seq::new(
                    (row - first) as nat,
                    |i: int|
                        if first + i == last && now[last as int] == whole[rest - 1] {
                            given[rest - 1]
                        } else if i == 0 && now[first as int] == whole[first as int] {
                            given[first as int]
                        } else {
                            self.eol.text()
                        },
                ),
            decreases last + 1 - row,
        {
            let end = if row == last && same(&lines[last], &was[rest - 1]) {
                self.ends[rest - 1].clone()
            } else if row == first && same(&lines[first], &was[first]) {
                self.ends[first].clone()
            } else {
                crate::text::owned(self.eol.as_str())
            };
            let ghost known = crate::text::views(ends@);
            ends.push(end);
            proof {
                assert(crate::text::views(ends@) =~= known.push(end@));
                assert(crate::text::views(ends@) =~= given.take(first as int) + Seq::new(
                    (row + 1 - first) as nat,
                    |i: int|
                        if first + i == last && now[last as int] == whole[rest - 1] {
                            given[rest - 1]
                        } else if i == 0 && now[first as int] == whole[first as int] {
                            given[first as int]
                        } else {
                            self.eol.text()
                        },
                ));
            }
            row += 1;
        }
        let mut behind_it = copies(
            vstd::slice::slice_subrange(self.ends.as_slice(), rest, self.ends.len()),
        );
        let ghost parts = (ends@, behind_it@);
        ends.append(&mut behind_it);
        proof {
            assert(crate::text::views(parts.1) =~= given.skip(rest as int));
            assert(crate::text::views(ends@) =~= crate::text::views(parts.0)
                + crate::text::views(parts.1));
            assert(crate::text::views(ends@) =~= before.endings_after(self.area));
        }
        self.ends = ends;
    }

    /// Take up the text in the history.
    fn record(&mut self, kind: EditKind, now: u64)
        requires
            old(self).sound(),
        ensures
            final(self).sound(),
            final(self).same_file(old(self)),
            final(self).area == old(self).area,
            final(self).ends == old(self).ends,
            forall|before: EditorBuffer|
                before.same_history(old(self)) && old(self).endings() == before.endings_after(
                    old(self).area,
                ) ==> #[trigger] final(self).recorded(&before, kind, now),
            final(self).in_step(),
    {
        let ghost before = *self;
        let cursor = self.cursor();
        let continued = match &self.last_edit {
            Some(last) => last.kind == kind && kind != EditKind::Other && last.at.0 == cursor.0 && (
            last.at.1 <= cursor.1 && cursor.1 - last.at.1 <= 1 || last.at.1 > cursor.1 && last.at.1
                - cursor.1 <= 1) && now.saturating_sub(last.when) < GROUP_PAUSE,
            None => false,
        };
        let lines = copies(self.lines());
        proof {
            assert(lines@.len() == self.text().len());
        }
        let snapshot = Snapshot { lines, ends: copies(self.ends.as_slice()), cursor };
        let ghost step = Step { lines: self.text(), ends: self.endings(), cursor: self.at() };
        assert(snapshot@ == step);
        if continued {
            self.snapshots.set(self.index, snapshot);
            proof {
                assert(steps(self.snapshots@) =~= steps(before.snapshots@).update(
                    before.index as int,
                    step,
                ));
            }
        } else {
            self.snapshots.truncate(self.index + 1);
            self.snapshots.push(snapshot);
            proof {
                assert(steps(self.snapshots@) =~= steps(before.snapshots@).take(
                    before.index + 1,
                ).push(step));
            }
            if self.snapshots.len() > MAX_SNAPSHOTS {
                let ghost full = self.snapshots@;
                self.snapshots.remove(0);
                proof {
                    assert(steps(self.snapshots@) =~= steps(full).skip(1));
                }
            } else {
                self.index += 1;
            }
        }
        self.last_edit = Some(LastEdit { kind, at: cursor, when: now });
        proof {
            assert(self.history()[self.index as int] == step);
        }
    }

    /// Stand on the current step of the history.
    fn restore(&mut self)
        requires
            1 <= old(self).snapshots@.len() <= MAX_SNAPSHOTS,
            old(self).index < old(self).snapshots@.len(),
            forall|k: int|
                0 <= k < old(self).snapshots@.len() ==> (#[trigger] old(self).snapshots@[k]).lines@.len() > 0
                    && old(self).snapshots@[k].ends@.len() == old(self).snapshots@[k].lines@.len()
                    && crate::area::unbroken(
                    crate::text::views(old(self).snapshots@[k].lines@),
                ),
        ensures
            final(self).sound(),
            final(self).same_file(old(self)),
            final(self).restored(old(self), old(self).index as int),
            final(self).in_step(),
    {
        let lines = copies(self.snapshots[self.index].lines.as_slice());
        let cursor = self.snapshots[self.index].cursor;
        self.ends = copies(self.snapshots[self.index].ends.as_slice());
        self.area = Self::area_for(lines, self.indent);
        // An undo is never a continuation of the edit it reverses.
        self.last_edit = None;
        self.move_cursor_to(cursor.0, cursor.1);
    }
}

/// The line ending, as often as there are lines.
fn eol_for_each(count: usize, eol: Eol) -> (ends: Vec<String>)
    ensures
        ends@.len() == count,
        crate::text::views(ends@) == Seq::new(count as nat, |i: int| eol.text()),
{
    let mut ends: Vec<String> = Vec::new();
    while ends.len() < count
        invariant
            ends@.len() <= count,
            forall|i: int| 0 <= i < ends@.len() ==> (#[trigger] ends@[i])@ == eol.text(),
        decreases count - ends@.len(),
    {
        ends.push(crate::text::owned(eol.as_str()));
    }
    proof {
        assert(crate::text::views(ends@) =~= Seq::new(count as nat, |i: int| eol.text()));
    }
    ends
}

/// Whether two lists of lines are the same.
fn same_lines(a: &[String], b: &[String]) -> (equal: bool)
    ensures
        equal == (crate::text::views(a@) == crate::text::views(b@)),
{
    let ghost left = crate::text::views(a@);
    let ghost right = crate::text::views(b@);
    if a.len() != b.len() {
        assert(left.len() != right.len());
        return false;
    }
    let mut i: usize = 0;
    while i < a.len()
        invariant
            0 <= i <= a@.len(),
            a@.len() == b@.len(),
            left == crate::text::views(a@),
            right == crate::text::views(b@),
            forall|j: int| 0 <= j < i ==> left[j] == right[j],
        decreases a@.len() - i,
    {
        if !same(&a[i], &b[i]) {
            assert(left[i as int] != right[i as int]);
            return false;
        }
        i += 1;
    }
    assert(left =~= right);
    true
}

/// Spaces are one line, empty only where there are none.
pub proof fn spaces_are_one_line(n: int)
    requires
        0 <= n,
    ensures
        crate::area::text_lines(crate::text::run(' ', n)).len() == 1,
        crate::area::text_lines(crate::text::run(' ', n))[0].len() == n,
    decreases n,
{
    let spaces = crate::text::run(' ', n);
    one_piece(spaces, n);
    if n > 0 {
        assert(spaces.last() == ' ');
    }
}

proof fn one_piece(spaces: Seq<char>, n: int)
    requires
        0 <= n,
        spaces == crate::text::run(' ', n),
    ensures
        crate::text::pieces(spaces, '\n') == seq![spaces],
    decreases n,
{
    if n > 0 {
        let init = crate::text::run(' ', n - 1);
        assert(spaces.drop_last() == init);
        one_piece(init, n - 1);
        assert(init.push(' ') == spaces);
        assert(seq![init].update(0, init.push(' ')) == seq![spaces]);
    } else {
        assert(spaces =~= Seq::<char>::empty());
        assert(seq![Seq::<char>::empty()] == seq![spaces]);
    }
}

// ---- Laws ----------------------------------------------------------------

/// Undoing and then redoing gives back the text there was.
pub proof fn redo_takes_back_undo(
    before: &EditorBuffer,
    undone: &EditorBuffer,
    redone: &EditorBuffer,
)
    requires
        before.sound(),
        before.in_step(),
        before.index > 0,
        undone.restored(before, before.index - 1),
        redone.restored(undone, undone.index + 1),
    ensures
        redone.text() == before.text(),
        redone.endings() == before.endings(),
        redone.index == before.index,
        redone.history() == before.history(),
{
}

/// Redoing and then undoing gives back the text there was.
pub proof fn undo_takes_back_redo(
    before: &EditorBuffer,
    redone: &EditorBuffer,
    undone: &EditorBuffer,
)
    requires
        before.sound(),
        before.in_step(),
        before.index + 1 < before.snapshots@.len(),
        redone.restored(before, before.index + 1),
        undone.restored(redone, redone.index - 1),
    ensures
        undone.text() == before.text(),
        undone.endings() == before.endings(),
        undone.index == before.index,
        undone.history() == before.history(),
{
}

/// One undo takes back an edit that is a step of its own, whatever it did.
pub proof fn undo_takes_back_an_edit(
    before: &EditorBuffer,
    edited: &EditorBuffer,
    undone: &EditorBuffer,
    kind: EditKind,
    now: u64,
)
    requires
        before.sound(),
        before.in_step(),
        edited.sound(),
        edited.recorded(before, kind, now),
        !continues(before.last_edit, kind, edited.at(), now),
        undone.restored(edited, edited.index - 1),
    ensures
        undone.text() == before.text(),
        undone.endings() == before.endings(),
{
    let step = Step { lines: edited.text(), ends: edited.endings(), cursor: edited.at() };
    let grown = before.history().take(before.index + 1).push(step);
    assert(grown[before.index as int] == before.history()[before.index as int]);
    if grown.len() > MAX_SNAPSHOTS {
        assert(grown.skip(1)[before.index - 1] == grown[before.index as int]);
    }
}

/// An edit that continues the one before shares its step: one undo takes back
/// both.
pub proof fn a_run_of_edits_is_one_step(
    before: &EditorBuffer,
    edited: &EditorBuffer,
    undone: &EditorBuffer,
    kind: EditKind,
    now: u64,
)
    requires
        before.sound(),
        before.index > 0,
        edited.recorded(before, kind, now),
        continues(before.last_edit, kind, edited.at(), now),
        undone.restored(edited, edited.index - 1),
    ensures
        undone.text() == before.history()[before.index - 1].lines,
{
}

/// After an edit there is nothing to redo.
pub proof fn an_edit_clears_the_redo_stack(
    before: &EditorBuffer,
    edited: &EditorBuffer,
    kind: EditKind,
    now: u64,
)
    requires
        before.sound(),
        edited.recorded(before, kind, now),
    ensures
        edited.index + 1 == edited.history().len(),
{
}

proof fn joined_grow(parts: Seq<Seq<char>>, sep: Seq<char>, ch: char)
    requires
        parts.len() >= 1,
    ensures
        crate::text::joined(parts.update(parts.len() - 1, parts.last().push(ch)), sep)
            == crate::text::joined(parts, sep).push(ch),
        crate::text::joined(parts.push(Seq::empty()), sep) == crate::text::joined(parts, sep) + sep,
{
    let grown = parts.update(parts.len() - 1, parts.last().push(ch));
    assert(grown.drop_last() == parts.drop_last());
    assert(parts.push(Seq::<char>::empty()).drop_last() == parts);
}

/// Splitting at line feeds and joining with them changes nothing.
proof fn join_of_split(text: Seq<char>)
    ensures
        crate::text::joined(crate::text::pieces(text, '\n'), "\n"@) == text,
    decreases text.len(),
{
    reveal_strlit("\n");
    if text.len() == 0 {
        assert(crate::text::pieces(text, '\n')[0] == Seq::<char>::empty());
    } else {
        let init = text.drop_last();
        join_of_split(init);
        crate::text::pieces_nonempty(init, '\n');
        joined_grow(crate::text::pieces(init, '\n'), "\n"@, text.last());
        assert(init.push(text.last()) == text);
        if text.last() == '\n' {
            assert(init + "\n"@ == text);
        }
    }
}

/// The pieces of a text without their carriage returns, each but the last with its
/// own ending behind it, are the text up to a line ending.
#[verifier::spinoff_prover]
#[verifier::rlimit(30)]
proof fn woven_pieces(parts: Seq<Seq<char>>, ends: Seq<Seq<char>>)
    requires
        parts.len() > 0,
        ends.len() == parts.len(),
        forall|i: int|
            0 <= i < parts.len() - 1 ==> #[trigger] ends[i] == return_of(parts[i]) + seq!['\n'],
    ensures
        crate::git::woven(
            parts.map_values(|line: Seq<char>| crate::area::without_return(line)),
            ends,
        ) == crate::text::joined(parts.drop_last().push(Seq::empty()), "\n"@)
            + crate::area::without_return(parts.last()) + ends.last(),
    decreases parts.len(),
{
    reveal_strlit("\n");
    let lines = parts.map_values(|line: Seq<char>| crate::area::without_return(line));
    let init = parts.drop_last();
    let bare = lines.drop_last();
    assert(lines.last() == crate::area::without_return(parts.last()));
    if init.len() == 0 {
        assert(init.push(Seq::<char>::empty()) =~= seq![Seq::<char>::empty()]);
        assert(crate::git::woven(bare, ends.drop_last()) == Seq::<char>::empty());
        assert(crate::text::joined(seq![Seq::<char>::empty()], "\n"@) =~= Seq::<char>::empty());
    } else {
        assert(bare =~= init.map_values(|line: Seq<char>| crate::area::without_return(line)));
        woven_pieces(init, ends.drop_last());
        let most = init.drop_last();
        let last = init.last();
        assert(ends.drop_last().last() == ends[init.len() - 1]);
        assert(crate::area::without_return(last) + return_of(last) =~= last);
        joined_grow(init, "\n"@, '\n');
        let head = crate::text::joined(most.push(Seq::empty()), "\n"@);
        assert(crate::text::joined(init, "\n"@) == head + last) by {
            if most.len() > 0 {
                assert(most.push(Seq::<char>::empty()).drop_last() =~= most);
                assert(head =~= crate::text::joined(most, "\n"@) + "\n"@);
                assert(init.drop_last() == most);
                assert(crate::text::joined(init, "\n"@) =~= crate::text::joined(most, "\n"@)
                    + "\n"@ + last);
            } else {
                assert(most.push(Seq::<char>::empty()) =~= seq![Seq::<char>::empty()]);
                assert(head =~= Seq::<char>::empty());
                assert(init =~= seq![last]);
                assert(crate::text::joined(init, "\n"@) =~= last);
            }
        }
        assert(crate::git::woven(bare, ends.drop_last()) =~= crate::text::joined(init, "\n"@)
            + seq!['\n']);
        assert(seq!['\n'] =~= "\n"@);
    }
}

/// The lines of a file, each with what ended it, are the file.
#[verifier::spinoff_prover]
#[verifier::rlimit(30)]
pub proof fn lines_and_ends_are_the_file(body: Seq<char>)
    ensures
        crate::git::woven(lines_in(body), ends_in(body)) == body,
{
    reveal_strlit("\n");
    let closed = body.len() > 0 && body.last() == '\n';
    let once = if closed {
        body.drop_last()
    } else {
        body
    };
    let text = crate::area::without_return(once);
    let parts = crate::text::pieces(text, '\n');
    let ends = ends_in(body);
    crate::text::pieces_nonempty(text, '\n');
    woven_pieces(parts, ends);
    join_of_split(text);
    let init = parts.drop_last();
    let last = parts.last();
    let head = crate::text::joined(init.push(Seq::empty()), "\n"@);
    assert(head + last == text) by {
        assert(init.push(last) =~= parts);
        if init.len() > 0 {
            assert(init.push(Seq::<char>::empty()).drop_last() =~= init);
            assert(head =~= crate::text::joined(init, "\n"@) + "\n"@);
            assert(text =~= crate::text::joined(init, "\n"@) + "\n"@ + last);
        } else {
            assert(init.push(Seq::<char>::empty()) =~= seq![Seq::<char>::empty()]);
            assert(head =~= Seq::<char>::empty());
            assert(parts =~= seq![last]);
            assert(crate::text::joined(parts, "\n"@) =~= last);
        }
    }
    let tail = return_of(once) + (if closed {
        seq!['\n']
    } else {
        Seq::empty()
    });
    assert(ends.last() == return_of(last) + tail);
    assert(crate::area::without_return(last) + return_of(last) =~= last);
    assert(crate::git::woven(lines_in(body), ends) =~= text + tail);
    assert(text + return_of(once) =~= once);
    assert(text + tail =~= body);
}

/// A file that was not edited comes back character for character, whatever its line
/// endings are, where each file keeps its own.
pub proof fn an_unedited_file_comes_back(buffer: &EditorBuffer, file: TextFile, config: Config)
    requires
        buffer.fresh(file, config),
        config.detect_line_ending,
        file.trailing_newline == (file.body@.len() > 0 && file.body@.last() == '\n'),
    ensures
        buffer.written() == file.body@,
{
    let body = file.body@;
    let ends = ends_in(body);
    let closed = file.trailing_newline;
    let once = if closed {
        body.drop_last()
    } else {
        body
    };
    let parts = crate::text::pieces(crate::area::without_return(once), '\n');
    crate::text::pieces_nonempty(crate::area::without_return(once), '\n');
    let last = ends.len() - 1;
    assert forall|i: int| 0 <= i < ends.len() implies crate::git::end_text(
        #[trigger] ends[i],
        i + 1 < ends.len() || closed,
        buffer.eol,
    ) == ends[i] by {
        if i < last {
            assert(ends[i] == return_of(parts[i]) + seq!['\n']);
            assert(ends[i].last() == '\n');
        } else if closed {
            let tail = return_of(once) + seq!['\n'];
            assert(ends[i] == return_of(parts[i]) + tail);
            assert(ends[i].last() == '\n');
        } else {
            let tail = return_of(once) + Seq::<char>::empty();
            assert(ends[i] == return_of(parts[i]) + tail);
            if ends[i].len() > 0 {
                assert(ends[i].last() == '\r');
            }
        }
    }
    assert(crate::git::finished(ends, buffer.eol, closed) =~= ends);
    lines_and_ends_are_the_file(body);
}

/// A file of valid text that was not edited comes back byte for byte.
pub proof fn unedited_bytes_come_back(
    buffer: &EditorBuffer,
    bytes: Seq<u8>,
    content: crate::git::FileContent,
    config: Config,
)
    requires
        vstd::utf8::valid_utf8(bytes),
        content.decodes(bytes),
        content is Text,
        buffer.fresh(content->Text_0, config),
        config.detect_line_ending,
    ensures
        vstd::utf8::encode_utf8(buffer.written()) == bytes,
{
    an_unedited_file_comes_back(buffer, content->Text_0, config);
    vstd::utf8::decode_utf8_encode_utf8(bytes);
}

/// A line and what is written behind it.
pub open spec fn line_written(buffer: &EditorBuffer, row: int) -> (Seq<char>, Seq<char>) {
    (
        buffer.text()[row],
        crate::git::finished(buffer.endings(), buffer.eol, buffer.trailing_newline)[row],
    )
}

/// An edit changes neither the lines it did not touch nor how they are ended: those
/// before the first line it touched, and those behind the line it leaves the cursor on,
/// are written as before.
pub proof fn an_edit_leaves_the_other_lines(
    before: &EditorBuffer,
    after: &EditorBuffer,
    kind: EditKind,
    now: u64,
    row: int,
)
    requires
        before.sound(),
        after.sound(),
        after.same_file(before),
        after.recorded(before, kind, now),
        crate::area::touched_only(before.area, after.area),
    ensures
        ({
            let first = crate::area::first_touched(before.area, after.area);
            let last = after.at().0;
            let shift = after.text().len() - before.text().len();
            &&& 0 <= row < first ==> line_written(after, row) == line_written(before, row)
            &&& last < row < after.text().len() ==> line_written(after, row) == line_written(
                before,
                row - shift,
            )
        }),
{
    let first = crate::area::first_touched(before.area, after.area);
    let last = after.at().0;
    let old = before.text();
    let new = after.text();
    let behind = new.len() - 1 - last;
    let shift = new.len() - old.len();
    if 0 <= row < first {
        assert(new.take(first)[row] == old.take(first)[row]);
        assert(after.endings()[row] == before.endings()[row]);
    }
    if last < row < new.len() {
        assert(new.skip(last + 1)[row - last - 1] == old.skip(old.len() - behind)[row - last - 1]);
        assert(after.endings()[row] == before.endings()[row - shift]);
    }
}

/// Where files do not keep their own line endings, the one that was chosen is written
/// behind every line.
pub proof fn the_chosen_line_ending_is_written(
    buffer: &EditorBuffer,
    file: TextFile,
    config: Config,
    row: int,
)
    requires
        buffer.fresh(file, config),
        !config.detect_line_ending,
        0 <= row < buffer.text().len(),
        row + 1 < buffer.text().len() || file.trailing_newline,
    ensures
        line_written(buffer, row).1 == buffer.eol.text(),
{
}

/// Moving the cursor edits nothing and leaves nothing to undo.
pub proof fn a_move_edits_nothing(
    before: &EditorBuffer,
    after: &EditorBuffer,
    key: KeyPress,
    now: u64,
    changed: bool,
)
    requires
        after.typed(before, key, now, changed),
        crate::area::deed(key) is Move,
    ensures
        !changed,
        after.text() == before.text(),
        after.same_history(before),
{
}

/// Backspace takes back a character that was just written over nothing.
pub proof fn backspace_takes_back_a_character(
    before: &EditorBuffer,
    written: &EditorBuffer,
    after: &EditorBuffer,
    keys: (KeyPress, KeyPress),
    times: (u64, u64),
    changed: (bool, bool),
)
    requires
        before.sound(),
        before.anchor() is None,
        crate::area::deed(keys.0) is Write,
        crate::area::deed(keys.1) == crate::area::Deed::Rub(crate::area::Rub::Back),
        written.typed(before, keys.0, times.0, changed.0),
        after.typed(written, keys.1, times.1, changed.1),
    ensures
        after.text() == before.text(),
        after.at() == before.at(),
        after.anchor() is None,
{
    let lines = before.text();
    let at = before.at();
    let line = lines[at.0];
    let ch = crate::area::deed(keys.0)->Write_0;
    let longer = line.take(at.1) + seq![ch] + line.skip(at.1);
    assert(written.text()[at.0] == longer);
    assert(longer.take(at.1) + Seq::<char>::empty() + longer.skip(at.1 + 1) =~= line);
    assert(after.text() =~= lines);
}

/// Lines behind line feeds continue a text of lines.
proof fn led_continues(a: Seq<Seq<char>>, b: Seq<Seq<char>>)
    requires
        a.len() > 0,
    ensures
        crate::text::joined(a + b, "\n"@) == crate::text::joined(a, "\n"@) + led(b),
    decreases b.len(),
{
    reveal_strlit("\n");
    if b.len() == 0 {
        assert(a + b =~= a);
        assert(led(b) =~= Seq::<char>::empty());
    } else {
        led_continues(a, b.drop_last());
        assert((a + b).drop_last() =~= a + b.drop_last());
        assert((a + b).last() == b.last());
        assert("\n"@ =~= seq!['\n']);
        assert(crate::text::joined(a + b, "\n"@) =~= crate::text::joined(a, "\n"@) + led(b));
    }
}

/// A selection in one line, with what is before it and behind it.
#[verifier::spinoff_prover]
proof fn between_in_a_line(lines: Seq<Seq<char>>, row: int, from: int, to: int)
    requires
        0 <= row < lines.len(),
        0 <= from <= to <= lines[row].len(),
    ensures
        crate::text::joined(lines.take(row).push(lines[row].take(from)), "\n"@) + part_of(
            lines[row],
            from,
            to,
        ) + crate::text::joined(seq![lines[row].skip(to)] + lines.skip(row + 1), "\n"@)
            == crate::text::joined(lines, "\n"@),
{
    let sep = "\n"@;
    let pre = lines.take(row);
    let post = lines.skip(row + 1);
    let line = lines[row];
    let head = line.take(from);
    let tail = line.skip(to);
    let most = line.take(to);
    let part = part_of(line, from, to);
    let before = crate::text::joined(pre.push(head), sep);
    let behind = crate::text::joined(seq![tail] + post, sep);
    assert(head + part =~= most);
    crate::text::joined_longer(pre, head, part, sep);
    assert(most + tail =~= line);
    crate::text::joined_sooner(tail, most, post, sep);
    assert(seq![line] + post =~= lines.skip(row));
    if row > 0 {
        assert(pre.push(most) =~= pre + seq![most]);
        crate::text::joined_both(pre, seq![most], sep);
        assert(crate::text::joined(seq![most], sep) =~= most);
        assert(pre + lines.skip(row) =~= lines);
        crate::text::joined_both(pre, lines.skip(row), sep);
        let start = crate::text::joined(pre, sep) + sep;
        assert(start + most + behind =~= start + (most + behind));
    } else {
        assert(pre.push(most) =~= seq![most]);
        assert(crate::text::joined(seq![most], sep) =~= most);
        assert(lines.skip(row) =~= lines);
    }
}

/// A selection over several lines, with what is before it and behind it.
#[verifier::spinoff_prover]
proof fn between_lines(lines: Seq<Seq<char>>, from: (int, int), to: (int, int))
    requires
        crate::area::inside(lines, from),
        crate::area::inside(lines, to),
        from.0 < to.0,
    ensures
        crate::text::joined(lines.take(from.0).push(lines[from.0].take(from.1)), "\n"@) + stretch(
            lines,
            (from, to),
        ) + crate::text::joined(seq![lines[to.0].skip(to.1)] + lines.skip(to.0 + 1), "\n"@)
            == crate::text::joined(lines, "\n"@),
{
    reveal_strlit("\n");
    let sep = "\n"@;
    let pre = lines.take(from.0);
    let post = lines.skip(to.0 + 1);
    let first = lines[from.0];
    let last = lines[to.0];
    let head = first.take(from.1);
    let tail = last.skip(to.1);
    let before = crate::text::joined(pre.push(head), sep);
    let behind = crate::text::joined(seq![tail] + post, sep);
    let middle = lines.subrange(from.0 + 1, to.0);
    let one = part_of(first, from.1, first.len() as int);
    let two = part_of(last, 0, to.1);
    assert(head + one =~= first);
    crate::text::joined_longer(pre, head, one, sep);
    let upto = pre.push(first);
    led_continues(upto, middle);
    assert(two + tail =~= last);
    crate::text::joined_sooner(tail, two, post, sep);
    let rest = seq![last] + post;
    crate::text::joined_both(upto + middle, rest, sep);
    assert(upto + middle + rest =~= lines);
    assert(sep =~= seq!['\n']);
    assert(before + (one + led(middle) + sep + two) + behind =~= (before + one) + led(middle) + sep
        + (two + behind));
}

/// The text before a selection, what the selection copies, and the text behind it are
/// together the whole text, line feeds and all.
pub proof fn a_selection_is_what_lies_between(
    lines: Seq<Seq<char>>,
    from: (int, int),
    to: (int, int),
)
    requires
        crate::area::inside(lines, from),
        crate::area::inside(lines, to),
        from.0 < to.0 || (from.0 == to.0 && from.1 <= to.1),
    ensures
        ({
            let before = lines.take(from.0).push(lines[from.0].take(from.1));
            let behind = seq![lines[to.0].skip(to.1)] + lines.skip(to.0 + 1);
            crate::text::joined(before, "\n"@) + stretch(lines, (from, to)) + crate::text::joined(
                behind,
                "\n"@,
            ) == crate::text::joined(lines, "\n"@)
        }),
{
    if from.0 == to.0 {
        between_in_a_line(lines, from.0, from.1, to.1);
    } else {
        between_lines(lines, from, to);
    }
}

/// Characters typed one behind the other within half a second are taken back together:
/// undoing behind the second gives what undoing behind the first gave.
pub proof fn typing_is_taken_back_together(
    before: &EditorBuffer,
    one: &EditorBuffer,
    two: &EditorBuffer,
    back_from_one: &EditorBuffer,
    back_from_two: &EditorBuffer,
    keys: (KeyPress, KeyPress),
    times: (u64, u64),
    changed: (bool, bool),
)
    requires
        before.sound(),
        before.anchor() is None,
        one.sound(),
        crate::area::deed(keys.0) is Write,
        crate::area::deed(keys.1) is Write,
        one.typed(before, keys.0, times.0, changed.0),
        two.typed(one, keys.1, times.1, changed.1),
        times.0 <= times.1,
        times.1 - times.0 < 500_000_000,
        one.index > 0,
        back_from_one.restored(one, one.index - 1),
        back_from_two.restored(two, two.index - 1),
    ensures
        back_from_two.text() == back_from_one.text(),
        back_from_two.endings() == back_from_one.endings(),
{
    assert(two.at() == (one.at().0, one.at().1 + 1));
}

/// Two edits are taken back one after the other where they are of different kinds, on
/// different lines, more than a character apart, or half a second apart.
pub proof fn edits_that_are_apart_are_taken_back_apart(
    before: &EditorBuffer,
    one: &EditorBuffer,
    two: &EditorBuffer,
    undone: &EditorBuffer,
    kinds: (EditKind, EditKind),
    times: (u64, u64),
)
    requires
        one.sound(),
        one.in_step(),
        two.sound(),
        one.recorded(before, kinds.0, times.0),
        two.recorded(one, kinds.1, times.1),
        kinds.0 != kinds.1 || kinds.1 == EditKind::Other || one.at().0 != two.at().0 || one.at().1
            + 1 < two.at().1 || two.at().1 + 1 < one.at().1 || times.0 + 500_000_000 <= times.1,
        undone.restored(two, two.index - 1),
    ensures
        undone.text() == one.text(),
        undone.endings() == one.endings(),
{
    undo_takes_back_an_edit(one, two, undone, kinds.1, times.1);
}

/// A text is read in lines that make it up again: line by line what stands between its
/// line feeds, at most without the carriage return before one. Nothing stands behind the
/// last line feed of a text that ends in one.
pub proof fn a_text_is_read_line_by_line(text: Seq<char>)
    ensures
        ({
            let parts = crate::text::pieces(text, '\n');
            let ended = text.len() == 0 || text.last() == '\n';
            &&& reading(text).len() == (if ended {
                parts.len() - 1
            } else {
                parts.len() as int
            })
            &&& forall|i: int|
                0 <= i < reading(text).len() ==> (#[trigger] reading(text)[i] == parts[i] && (i + 1
                    < parts.len() && parts[i].len() > 0 ==> parts[i].last() != '\r')) || (i + 1
                    < parts.len() && parts[i] == reading(text)[i].push('\r'))
        }),
{
    let parts = crate::text::pieces(text, '\n');
    crate::text::pieces_nonempty(text, '\n');
    if text.len() > 0 {
        crate::text::pieces_nonempty(text.drop_last(), '\n');
    }
    let ended = parts.drop_last().map_values(
        |line: Seq<char>| crate::area::without_return(line),
    );
    assert forall|i: int| 0 <= i < reading(text).len() implies (#[trigger] reading(text)[i]
        == parts[i] && (i + 1 < parts.len() && parts[i].len() > 0 ==> parts[i].last() != '\r')) || (
    i + 1 < parts.len() && parts[i] == reading(text)[i].push('\r')) by {
        if i + 1 < parts.len() {
            assert(reading(text)[i] == ended[i]);
            assert(parts.drop_last()[i] == parts[i]);
            if parts[i].len() > 0 && parts[i].last() == '\r' {
                assert(parts[i].drop_last().push('\r') =~= parts[i]);
            }
        }
    }
}

/// A line broken at its end stays ended as it was, and so does one broken at its start;
/// the line that is new has the line ending of the file.
pub proof fn a_new_line_is_ended_like_the_file(
    before: &EditorBuffer,
    after: &EditorBuffer,
    key: KeyPress,
    now: u64,
    changed: bool,
)
    requires
        before.sound(),
        before.anchor() is None,
        crate::area::deed(key) is Break,
        after.typed(before, key, now, changed),
    ensures
        ({
            let (row, col) = before.at();
            let line = before.text()[row];
            &&& after.text().len() == before.text().len() + 1
            &&& after.text()[row] == line.take(col)
            &&& after.text()[row + 1] == line.skip(col)
            &&& 0 < col && col == line.len() ==> after.endings() == before.endings().insert(
                row + 1,
                before.eol.text(),
            )
            &&& col == 0 && 0 < line.len() ==> after.endings() == before.endings().insert(
                row,
                before.eol.text(),
            )
            &&& 0 < col < line.len() ==> after.endings() == before.endings().update(
                row,
                before.eol.text(),
            ).insert(row, before.eol.text())
        }),
{
    let (row, col) = before.at();
    let line = before.text()[row];
    let blank = Seq::<char>::empty();
    assert(line.take(col) + blank =~= line.take(col));
    assert(blank + line.skip(col) =~= line.skip(col));
    if 0 < col < line.len() {
        assert(line.take(col).len() != line.len());
        assert(line.skip(col).len() != line.len());
    }
    if col == 0 {
        assert(line.skip(0) =~= line);
    }
    if col == line.len() {
        assert(line.take(col) =~= line);
    }
}

/// Two texts of lines, the last line of one going on as the first of the other.
proof fn joined_at(pre: Seq<Seq<char>>, x: Seq<char>, y: Seq<char>, post: Seq<Seq<char>>)
    ensures
        crate::text::joined(pre.push(x), "\n"@) + crate::text::joined(seq![y] + post, "\n"@)
            == crate::text::joined(pre.push(x + y) + post, "\n"@),
{
    let sep = "\n"@;
    let rest = seq![x + y] + post;
    crate::text::joined_sooner(y, x, post, sep);
    assert(pre.push(x + y) + post =~= pre + rest);
    if pre.len() == 0 {
        assert(pre + rest =~= rest);
        assert(pre.push(x) =~= seq![x]);
        assert(crate::text::joined(seq![x], sep) =~= x);
    } else {
        crate::text::joined_both(pre, rest, sep);
        assert(pre.push(x).drop_last() =~= pre);
        let start = crate::text::joined(pre, sep) + sep;
        assert(start + x + crate::text::joined(seq![y] + post, sep) =~= start + (x
            + crate::text::joined(seq![y] + post, sep)));
    }
}

/// The text before a place.
pub open spec fn text_before(lines: Seq<Seq<char>>, at: (int, int)) -> Seq<char> {
    crate::text::joined(lines.take(at.0).push(lines[at.0].take(at.1)), "\n"@)
}

/// The text behind a place.
pub open spec fn text_behind(lines: Seq<Seq<char>>, at: (int, int)) -> Seq<char> {
    crate::text::joined(seq![lines[at.0].skip(at.1)] + lines.skip(at.0 + 1), "\n"@)
}

/// What is put in the place of a stretch stands between what was before it and what was
/// behind it, line feeds and all.
pub proof fn a_replacement_goes_between(
    lines: Seq<Seq<char>>,
    from: (int, int),
    to: (int, int),
    pieces: Seq<Seq<char>>,
)
    requires
        crate::area::inside(lines, from),
        crate::area::inside(lines, to),
        pieces.len() > 0,
    ensures
        crate::text::joined(crate::area::spliced(lines, from, to, pieces), "\n"@) == text_before(
            lines,
            from,
        ) + crate::text::joined(pieces, "\n"@) + text_behind(lines, to),
{
    let pre = lines.take(from.0);
    let post = lines.skip(to.0 + 1);
    let head = lines[from.0].take(from.1);
    let tail = lines[to.0].skip(to.1);
    let none = Seq::<Seq<char>>::empty();
    if pieces.len() == 1 {
        let piece = pieces[0];
        joined_at(pre, head, piece, none);
        assert(seq![piece] + none =~= pieces);
        assert(pre.push(head + piece) + none =~= pre.push(head + piece));
        joined_at(pre, head + piece, tail, post);
        assert(crate::area::spliced(lines, from, to, pieces) =~= pre.push(head + piece + tail)
            + post);
    } else {
        let middle = pieces.subrange(1, pieces.len() - 1);
        let last = pieces.last();
        let upto = pre.push(head + pieces[0]) + middle;
        joined_at(pre, head, pieces[0], middle.push(last));
        assert(seq![pieces[0]] + middle.push(last) =~= pieces);
        assert(pre.push(head + pieces[0]) + middle.push(last) =~= upto.push(last));
        joined_at(upto, last, tail, post);
        assert(crate::area::spliced(lines, from, to, pieces) =~= upto.push(last + tail) + post);
    }
}

/// The lines of a text without carriage returns make it up again.
pub proof fn a_text_is_its_lines(text: Seq<char>)
    requires
        !text.contains('\r'),
    ensures
        crate::text::joined(crate::area::text_lines(text), "\n"@) == text,
        crate::area::text_lines(text).len() > 0,
{
    join_of_split(text);
    crate::text::pieces_nonempty(text, '\n');
    pieces_are_of_the_text(text, '\r');
    let parts = crate::text::pieces(text, '\n');
    assert(crate::area::text_lines(text) =~= parts) by {
        assert forall|i: int| 0 <= i < parts.len() implies #[trigger] crate::area::text_lines(
            text,
        )[i] == parts[i] by {
            if parts[i].len() > 0 {
                assert(parts[i].contains(parts[i].last()));
            }
        }
    }
}

proof fn pieces_are_of_the_text(text: Seq<char>, ch: char)
    requires
        !text.contains(ch),
    ensures
        forall|i: int|
            0 <= i < crate::text::pieces(text, '\n').len() ==> !(#[trigger] crate::text::pieces(
                text,
                '\n',
            )[i]).contains(ch),
    decreases text.len(),
{
    if text.len() > 0 {
        let init = text.drop_last();
        assert(!init.contains(ch)) by {
            if init.contains(ch) {
                let k = choose|k: int| 0 <= k < init.len() && init[k] == ch;
                assert(text[k] == ch);
            }
        }
        pieces_are_of_the_text(init, ch);
        crate::text::pieces_nonempty(init, '\n');
        let parts = crate::text::pieces(text, '\n');
        let before = crate::text::pieces(init, '\n');
        assert(text.contains(text.last()));
        assert forall|i: int| 0 <= i < parts.len() implies !(#[trigger] parts[i]).contains(ch) by {
            if i < before.len() {
                assert(!before[i].contains(ch));
                if parts[i].contains(ch) {
                    let k = choose|k: int| 0 <= k < parts[i].len() && parts[i][k] == ch;
                    if k < before[i].len() {
                        assert(before[i][k] == ch);
                    }
                }
            }
        }
    }
}

/// A character that is rubbed out behind one that was just typed is taken back on its own:
/// undoing gives back the text with what was typed.
pub proof fn rubbing_out_is_taken_back_on_its_own(
    before: &EditorBuffer,
    one: &EditorBuffer,
    two: &EditorBuffer,
    undone: &EditorBuffer,
    keys: (KeyPress, KeyPress),
    times: (u64, u64),
    changed: (bool, bool),
)
    requires
        before.sound(),
        before.anchor() is None,
        one.sound(),
        one.in_step(),
        two.sound(),
        crate::area::deed(keys.0) is Write,
        keys.1.code == Key::Backspace || keys.1.code == Key::Delete,
        one.typed(before, keys.0, times.0, changed.0),
        two.typed(one, keys.1, times.1, changed.1),
        changed.1,
        undone.restored(two, two.index - 1),
    ensures
        undone.text() == one.text(),
        undone.endings() == one.endings(),
{
    edits_that_are_apart_are_taken_back_apart(
        before,
        one,
        two,
        undone,
        (EditKind::Insert, EditKind::Delete),
        times,
    );
}

/// A tab in a file that is indented with spaces writes as many of them as the indent is
/// wide, at the cursor.
pub proof fn a_tab_writes_the_indent(
    before: &EditorBuffer,
    after: &EditorBuffer,
    key: KeyPress,
    now: u64,
    changed: bool,
)
    requires
        before.sound(),
        before.anchor() is None,
        key.code == Key::Tab,
        !before.indent.tabs,
        after.typed(before, key, now, changed),
    ensures
        ({
            let (row, col) = before.at();
            let line = before.text()[row];
            let width = before.indent.width as int;
            let new = after.text()[row];
            &&& after.text().len() == before.text().len()
            &&& new.len() == line.len() + width
            &&& new.take(col) == line.take(col)
            &&& forall|i: int| col <= i < col + width ==> #[trigger] new[i] == ' '
            &&& new.skip(col + width) == line.skip(col)
            &&& after.at() == (row, col + width)
            &&& forall|i: int|
                0 <= i < before.text().len() && i != row ==> #[trigger] after.text()[i]
                    == before.text()[i]
        }),
{
    let (row, col) = before.at();
    let line = before.text()[row];
    let width = before.indent.width as int;
    let spaces = crate::text::run(' ', width);
    one_piece(spaces, width);
    if width > 0 {
        assert(spaces.last() == ' ');
    }
    assert(crate::area::text_lines(spaces) =~= seq![spaces]);
    assert(before.indent.text() =~= spaces);
    assert(after.text() =~= before.text().update(
        row,
        line.take(col) + spaces + line.skip(col),
    ));
    let new = after.text()[row];
    assert(new.take(col) =~= line.take(col));
    assert(new.skip(col + width) =~= line.skip(col));
}

/// A line has nothing of what ends it: up to the last line, the lines of a file are what
/// stands between its line feeds, without the carriage return before one, and that is
/// kept as what ends the line.
pub proof fn a_line_has_nothing_of_its_ending(body: Seq<char>, i: int)
    requires
        0 <= i,
        i + 1 < lines_in(body).len(),
    ensures
        ({
            let parts = crate::text::pieces(body, '\n');
            let returned = parts[i].len() > 0 && parts[i].last() == '\r';
            &&& lines_in(body).len() == ends_in(body).len()
            &&& lines_in(body).len() == (if body.len() > 0 && body.last() == '\n' {
                parts.len() - 1
            } else {
                parts.len() as int
            })
            &&& returned ==> lines_in(body)[i] == parts[i].drop_last() && ends_in(body)[i] == seq![
                '\r',
                '\n',
            ]
            &&& !returned ==> lines_in(body)[i] == parts[i] && ends_in(body)[i] == seq!['\n']
        }),
{
    let parts = crate::text::pieces(body, '\n');
    crate::text::pieces_nonempty(body, '\n');
    let closed = body.len() > 0 && body.last() == '\n';
    let once = if closed {
        body.drop_last()
    } else {
        body
    };
    let inner = crate::text::pieces(once, '\n');
    crate::text::pieces_nonempty(once, '\n');
    let bare = crate::area::without_return(once);
    let most = crate::text::pieces(bare, '\n');
    crate::text::pieces_nonempty(bare, '\n');
    if closed {
        assert(parts == inner.push(Seq::empty()));
    }
    if once.len() > 0 && once.last() == '\r' {
        assert(inner == most.update(most.len() - 1, most.last().push('\r')));
    }
    assert(most.len() == inner.len());
    assert(most[i] == inner[i]);
    assert(inner[i] == parts[i]);
    assert(lines_in(body)[i] == crate::area::without_return(most[i]));
    assert(ends_in(body)[i] =~= return_of(most[i]) + seq!['\n']);
    if parts[i].len() > 0 && parts[i].last() == '\r' {
        assert(ends_in(body)[i] =~= seq!['\r', '\n']);
    } else {
        assert(ends_in(body)[i] =~= seq!['\n']);
    }
}

} // verus!

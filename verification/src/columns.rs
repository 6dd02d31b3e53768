//! Display columns: how wide characters are on screen, where a character sits,
//! and which part of a line a pane shows.
use crate::text::{chars_of, number};
use unicode_width::{UnicodeWidthChar, UnicodeWidthStr};
use vstd::prelude::*;

verus! {

/// The columns that `unicode-width` gives a character, or `None` where it takes
/// it for a control character.
pub uninterp spec fn glyph(ch: char) -> Option<usize>;

/// The columns that `unicode-width` gives a string.
pub uninterp spec fn text_cells(text: Seq<char>) -> usize;

/// `UnicodeWidthChar::width`: a control character has no width, a printable
/// ASCII character has one column, and no character has more than a byte can
/// count.
#[verifier::external_body]
fn glyph_width(ch: char) -> (cells: Option<usize>)
    ensures
        cells == glyph(ch),
        cells is None <==> is_control(ch),
        0x20 <= (ch as int) < 0x7f ==> cells == Some(1usize),
        cells is Some ==> cells->0 <= 255,
{
    UnicodeWidthChar::width(ch)
}

/// `UnicodeWidthStr::width`.
#[verifier::external_body]
pub(crate) fn str_width(text: &str) -> (cells: usize)
    ensures
        cells == text_cells(text@),
{
    UnicodeWidthStr::width(text)
}

/// The columns a character takes when it is not a tab: none for a control character,
/// one for a printable ASCII character.
pub open spec fn glyph_cells(ch: char) -> int {
    if is_control(ch) {
        0
    } else if 0x20 <= (ch as int) < 0x7f {
        1
    } else {
        match glyph(ch) {
            Some(cells) => cells as int,
            None => 0,
        }
    }
}

/// A control character.
pub open spec fn is_control(ch: char) -> bool {
    (ch as int) < 0x20 || 0x7f <= (ch as int) < 0xa0
}

/// Columns one character takes: a tab runs to the indent width, a control or
/// combining character takes none.
pub open spec fn cells(ch: char, tab: usize) -> int {
    if ch == '\t' {
        if tab >= 1 {
            tab as int
        } else {
            1
        }
    } else {
        glyph_cells(ch)
    }
}

/// Columns a text takes.
pub open spec fn columns(text: Seq<char>, tab: usize) -> int
    decreases text.len(),
{
    if text.len() == 0 {
        0
    } else {
        columns(text.drop_last(), tab) + cells(text.last(), tab)
    }
}

/// The column where character `index` starts, counted past the end as the end.
pub open spec fn column_of(text: Seq<char>, index: int, tab: usize) -> int {
    columns(text.take(if index <= text.len() { index } else { text.len() as int }), tab)
}

/// A number of columns as far as the machine can count.
pub open spec fn capped(n: int) -> int {
    if n <= usize::MAX {
        n
    } else {
        usize::MAX as int
    }
}

/// A longer text takes at least as many columns.
proof fn columns_mono(text: Seq<char>, i: int, j: int, tab: usize)
    requires
        0 <= i <= j <= text.len(),
    ensures
        0 <= columns(text.take(i), tab) <= columns(text.take(j), tab),
    decreases j,
{
    if i < j {
        columns_mono(text, i, j - 1, tab);
        assert(text.take(j).drop_last() == text.take(j - 1));
    } else if i > 0 {
        columns_mono(text, i - 1, i - 1, tab);
        assert(text.take(i).drop_last() == text.take(i - 1));
    }
}

/// One more character adds its columns.
proof fn columns_step(text: Seq<char>, i: int, tab: usize)
    requires
        0 <= i < text.len(),
    ensures
        columns(text.take(i + 1), tab) == columns(text.take(i), tab) + cells(text[i], tab),
{
    assert(text.take(i + 1).drop_last() == text.take(i));
}

/// Columns one character takes: a tab runs to the indent width, a CJK glyph or
/// a wide emoji takes two cells, and a combining or control character takes
/// none. Everything that positions text goes through this, so the cursor, the
/// selection and the scroll bound all agree about where a character sits.
pub fn char_width(ch: char, tab: usize) -> (width: usize)
    ensures
        width == cells(ch, tab),
        ch != '\t' ==> width <= 255,
{
    if ch == '\t' {
        if tab >= 1 {
            tab
        } else {
            1
        }
    } else {
        match glyph_width(ch) {
            Some(cells) => cells,
            None => 0,
        }
    }
}

/// The column where character `index` starts, if the machine can count that far.
fn counted(raw: &str, index: usize, tab: usize) -> (width: Option<usize>)
    ensures
        width is Some <==> column_of(raw@, index as int, tab) <= usize::MAX,
        width is Some ==> width->0 == column_of(raw@, index as int, tab),
{
    let chars = chars_of(raw);
    let end: usize = if index <= chars.len() {
        index
    } else {
        chars.len()
    };
    let mut sum: usize = 0;
    let mut i: usize = 0;
    while i < end
        invariant
            0 <= i <= end <= chars@.len(),
            end == (if index <= raw@.len() {
                index as int
            } else {
                raw@.len() as int
            }),
            chars@ == raw@,
            sum == columns(raw@.take(i as int), tab),
        decreases end - i,
    {
        proof {
            columns_step(raw@, i as int, tab);
            columns_mono(raw@, i + 1, end as int, tab);
        }
        let width: usize = char_width(chars[i], tab);
        match sum.checked_add(width) {
            Some(next) => {
                sum = next;
            },
            None => {
                return None;
            },
        }
        i += 1;
    }
    Some(sum)
}

/// The columns of a whole line.
pub fn display_width(raw: &str, tab: usize) -> (width: usize)
    requires
        columns(raw@, tab) <= usize::MAX,
    ensures
        width == columns(raw@, tab),
{
    proof {
        assert(raw@.take(raw@.len() as int) == raw@);
    }
    let len: usize = chars_of(raw).len();
    match counted(raw, len, tab) {
        Some(width) => width,
        None => 0,
    }
}

/// Display column of a character index, so the cursor lands where the text is
/// drawn rather than where it is stored.
pub fn display_col(raw: &str, char_index: usize, tab: usize) -> (col: usize)
    requires
        column_of(raw@, char_index as int, tab) <= usize::MAX,
    ensures
        col == column_of(raw@, char_index as int, tab),
{
    match counted(raw, char_index, tab) {
        Some(col) => col,
        None => 0,
    }
}

/// The columns of a whole line, as far as the machine can count.
pub fn capped_width(raw: &str, tab: usize) -> (width: usize)
    ensures
        width == capped(columns(raw@, tab)),
{
    proof {
        assert(raw@.take(raw@.len() as int) == raw@);
    }
    let len: usize = chars_of(raw).len();
    if counted(raw, len, tab).is_some() {
        display_width(raw, tab)
    } else {
        usize::MAX
    }
}

/// The column where a character starts, as far as the machine can count.
pub fn capped_col(raw: &str, char_index: usize, tab: usize) -> (col: usize)
    ensures
        col == capped(column_of(raw@, char_index as int, tab)),
{
    if counted(raw, char_index, tab).is_some() {
        display_col(raw, char_index, tab)
    } else {
        usize::MAX
    }
}

/// The first character that starts at or after a display column, or the end of
/// the text where none does.
pub open spec fn first_at(text: Seq<char>, display: int, tab: usize, index: int) -> bool {
    &&& 0 <= index <= text.len()
    &&& index < text.len() ==> columns(text.take(index), tab) >= display
    &&& forall|j: int| 0 <= j < index ==> columns(#[trigger] text.take(j), tab) < display
}

/// Which character a click at a display column landed on. Past the end of the
/// line it clamps to the end.
pub fn char_index_at(raw: &str, display: usize, tab: usize) -> (index: usize)
    ensures
        first_at(raw@, display as int, tab, index as int),
{
    let chars = chars_of(raw);
    let mut at: usize = 0;
    let mut i: usize = 0;
    while i < chars.len()
        invariant
            0 <= i <= chars@.len(),
            chars@ == raw@,
            at == capped(columns(raw@.take(i as int), tab)),
            forall|j: int| 0 <= j < i ==> columns(#[trigger] raw@.take(j), tab) < display,
        decreases chars@.len() - i,
    {
        if at >= display {
            return i;
        }
        proof {
            columns_step(raw@, i as int, tab);
        }
        at = at.saturating_add(char_width(chars[i], tab));
        i += 1;
    }
    i
}

/// Whether a column lies in a selected span.
pub open spec fn selected(selection: Option<(usize, usize)>, col: int) -> bool {
    match selection {
        Some((from, to)) => from <= col < to,
        None => false,
    }
}

pub open spec fn later_of(a: int, b: int) -> int {
    if a >= b {
        a
    } else {
        b
    }
}

pub open spec fn sooner_of(a: int, b: int) -> int {
    if a <= b {
        a
    } else {
        b
    }
}

/// Blank cells from column `from` to column `to`, each selected or not.
pub open spec fn blanks(from: int, to: int, selection: Option<(usize, usize)>) -> Seq<(char, bool)> {
    Seq::new(
        if from < to {
            (to - from) as nat
        } else {
            0
        },
        |i: int| (' ', selected(selection, from + i)),
    )
}

/// What a character that starts at column `col` puts on screen: nothing where it
/// is off screen or has no width, itself where all of it is on screen, and
/// blanks for a tab or for the visible part of a glyph that straddles an edge.
pub open spec fn piece(
    ch: char,
    col: int,
    hscroll: int,
    end: int,
    tab: usize,
    selection: Option<(usize, usize)>,
) -> Seq<(char, bool)> {
    let width = cells(ch, tab);
    if width == 0 || col >= end || col + width <= hscroll {
        Seq::empty()
    } else if ch == '\t' || col < hscroll || col + width > end {
        blanks(later_of(col, hscroll), sooner_of(col + width, end), selection)
    } else {
        seq![(ch, selected(selection, col))]
    }
}

/// What the characters of a line put on screen.
pub open spec fn pieces(
    text: Seq<char>,
    hscroll: int,
    end: int,
    tab: usize,
    selection: Option<(usize, usize)>,
) -> Seq<(char, bool)>
    decreases text.len(),
{
    if text.len() == 0 {
        Seq::empty()
    } else {
        pieces(text.drop_last(), hscroll, end, tab, selection) + piece(
            text.last(),
            columns(text.drop_last(), tab),
            hscroll,
            end,
            tab,
            selection,
        )
    }
}

/// The blanks after the end of a line that a selection running through it
/// covers.
pub open spec fn trail(
    width: int,
    hscroll: int,
    end: int,
    selection: Option<(usize, usize)>,
) -> Seq<(char, bool)> {
    let from = later_of(width, hscroll);
    match selection {
        Some((first, to)) => if first <= from {
            blanks(from, sooner_of(to as int, end), selection)
        } else {
            Seq::empty()
        },
        None => Seq::empty(),
    }
}

/// What a pane shows of a line between two columns.
pub open spec fn visible(
    text: Seq<char>,
    hscroll: int,
    end: int,
    tab: usize,
    selection: Option<(usize, usize)>,
) -> Seq<(char, bool)> {
    pieces(text, hscroll, end, tab, selection) + trail(columns(text, tab), hscroll, end, selection)
}

/// The characters of runs, each with whether it is selected.
pub open spec fn flat(runs: Seq<(String, bool)>) -> Seq<(char, bool)>
    decreases runs.len(),
{
    if runs.len() == 0 {
        Seq::empty()
    } else {
        flat(runs.drop_last()) + marked(runs.last().0@, runs.last().1)
    }
}

pub open spec fn marked(text: Seq<char>, on: bool) -> Seq<(char, bool)> {
    Seq::new(text.len(), |i: int| (text[i], on))
}

/// No run is empty, and neighbouring runs differ.
pub open spec fn maximal(runs: Seq<(String, bool)>) -> bool {
    &&& forall|i: int| 0 <= i < runs.len() ==> (#[trigger] runs[i]).0@.len() > 0
    &&& forall|i: int|
        #![trigger runs[i]]
        0 < i < runs.len() ==> runs[i].1 != runs[i - 1].1
}

/// Put one more character at the end of the runs.
fn push_cell(runs: &mut Vec<(String, bool)>, ch: char, on: bool)
    requires
        maximal(old(runs)@),
    ensures
        maximal(final(runs)@),
        flat(final(runs)@) == flat(old(runs)@).push((ch, on)),
{
    let ghost before = runs@;
    let mut text = String::new();
    if runs.len() > 0 && runs[runs.len() - 1].1 == on {
        if let Some(last) = runs.pop() {
            text = last.0;
            proof {
                assert(before.drop_last() == runs@);
                assert(before.last() == last);
            }
        }
    }
    let ghost head = runs@;
    let ghost had = text@;
    text.push(ch);
    runs.push((text, on));
    proof {
        assert(runs@.drop_last() == head);
        assert(marked(had.push(ch), on) == marked(had, on).push((ch, on)));
        if had.len() == 0 {
            assert(marked(had, on) == Seq::<(char, bool)>::empty());
        }
        assert(flat(runs@) == flat(head) + marked(had.push(ch), on));
        assert(flat(before) == flat(head) + marked(had, on));
    }
}

fn is_selected(selection: Option<(usize, usize)>, col: usize) -> (on: bool)
    ensures
        on == selected(selection, col as int),
{
    match selection {
        Some((from, to)) => col >= from && col < to,
        None => false,
    }
}

/// Put blanks for the columns from `from` to `to` at the end of the runs.
fn push_blanks(
    runs: &mut Vec<(String, bool)>,
    from: usize,
    to: usize,
    selection: Option<(usize, usize)>,
)
    requires
        maximal(old(runs)@),
    ensures
        maximal(final(runs)@),
        flat(final(runs)@) == flat(old(runs)@) + blanks(from as int, to as int, selection),
{
    let ghost before = flat(runs@);
    let mut cell: usize = from;
    while cell < to
        invariant
            from <= cell,
            from < to ==> cell <= to,
            from >= to ==> cell == from,
            maximal(runs@),
            flat(runs@) == before + blanks(from as int, cell as int, selection),
        decreases to - cell,
    {
        push_cell(runs, ' ', is_selected(selection, cell));
        proof {
            assert(blanks(from as int, cell + 1, selection) == blanks(
                from as int,
                cell as int,
                selection,
            ).push((' ', selected(selection, cell as int))));
        }
        cell += 1;
    }
    proof {
        assert(blanks(from as int, cell as int, selection) == blanks(
            from as int,
            to as int,
            selection,
        ));
    }
}

/// Characters that start past the right edge put nothing on screen.
proof fn pieces_end(
    text: Seq<char>,
    i: int,
    hscroll: int,
    end: int,
    tab: usize,
    selection: Option<(usize, usize)>,
)
    requires
        0 <= i <= text.len(),
        columns(text.take(i), tab) >= end,
    ensures
        pieces(text, hscroll, end, tab, selection) == pieces(
            text.take(i),
            hscroll,
            end,
            tab,
            selection,
        ),
    decreases text.len(),
{
    if i == text.len() {
        assert(text.take(i) == text);
    } else {
        let init = text.drop_last();
        assert(init.take(i) == text.take(i));
        pieces_end(init, i, hscroll, end, tab, selection);
        columns_mono(init, i, init.len() as int, tab);
        assert(init.take(init.len() as int) == init);
    }
}

/// The visible part of a line, as runs of equal selectedness. One pass that
/// stops at the right edge. A tab, or a wide glyph straddling an edge,
/// contributes the spaces of it that are actually on screen: half a glyph cannot
/// be drawn. A selection running through a line covers its newline too, so the
/// rest of the row reads as selected rather than stopping at the last character.
pub fn segments(
    raw: &str,
    hscroll: usize,
    width: usize,
    tab: usize,
    selection: Option<(usize, usize)>,
) -> (runs: Vec<(String, bool)>)
    requires
        hscroll + width <= usize::MAX,
    ensures
        maximal(runs@),
        flat(runs@) == visible(raw@, hscroll as int, hscroll + width, tab, selection),
        painted(flat(runs@)) <= width,
        selection is None ==> painted(flat(runs@)) == sooner_of(
            columns(raw@, tab),
            hscroll + width,
        ) - sooner_of(columns(raw@, tab), hscroll as int),
        forall|i: int|
            0 <= i < flat(runs@).len() ==> (#[trigger] flat(runs@)[i]).0 != '\t' && glyph_cells(
                flat(runs@)[i].0,
            ) > 0,
        selection is None ==> forall|i: int|
            0 <= i < flat(runs@).len() ==> !(#[trigger] flat(runs@)[i]).1,
{
    let mut runs: Vec<(String, bool)> = Vec::new();
    let chars = chars_of(raw);
    let end: usize = hscroll + width;
    let mut col: usize = 0;
    let mut i: usize = 0;
    while i < chars.len() && col < end
        invariant
            0 <= i <= chars@.len(),
            chars@ == raw@,
            hscroll <= end,
            maximal(runs@),
            col == capped(columns(raw@.take(i as int), tab)),
            flat(runs@) == pieces(raw@.take(i as int), hscroll as int, end as int, tab, selection),
        decreases chars@.len() - i,
    {
        let ch = chars[i];
        let cells: usize = char_width(ch, tab);
        proof {
            columns_step(raw@, i as int, tab);
            columns_mono(raw@, i as int, i as int, tab);
            assert(raw@.take(i + 1).drop_last() == raw@.take(i as int));
            assert(raw@.take(i + 1).last() == ch);
        }
        let next: usize = col.saturating_add(cells);
        if cells != 0 && next > hscroll {
            if ch == '\t' || col < hscroll || next > end || cells > end - col {
                let from: usize = if col >= hscroll {
                    col
                } else {
                    hscroll
                };
                let to: usize = if next <= end {
                    next
                } else {
                    end
                };
                push_blanks(&mut runs, from, to, selection);
            } else {
                push_cell(&mut runs, ch, is_selected(selection, col));
            }
        }
        col = next;
        i += 1;
    }
    let ghost cells_of_line = flat(runs@);
    proof {
        if col >= end {
            pieces_end(raw@, i as int, hscroll as int, end as int, tab, selection);
        } else {
            assert(raw@.take(i as int) == raw@);
        }
        assert(cells_of_line == pieces(raw@, hscroll as int, end as int, tab, selection));
        columns_mono(raw@, i as int, raw@.len() as int, tab);
        assert(raw@.take(raw@.len() as int) == raw@);
    }
    if let Some((first, to)) = selection {
        let from: usize = if col >= hscroll {
            col
        } else {
            hscroll
        };
        if first <= from && from < end {
            let stop: usize = if to <= end {
                to
            } else {
                end
            };
            push_blanks(&mut runs, from, stop, selection);
        }
    }
    proof {
        let total = columns(raw@, tab);
        let tail = trail(total, hscroll as int, end as int, selection);
        if col >= end {
            assert(total >= end);
            assert(tail == Seq::<(char, bool)>::empty());
        }
        assert(flat(runs@) == cells_of_line + tail);
        a_row_keeps_its_width(raw@, hscroll as int, end as int, tab, selection);
        assert forall|i: int| 0 <= i < flat(runs@).len() implies (#[trigger] flat(runs@)[i]).0
            != '\t' && glyph_cells(flat(runs@)[i].0) > 0 by {
            only_columns_are_painted(raw@, hscroll as int, end as int, tab, selection, i);
        }
        if selection is None {
            nothing_is_marked(raw@, hscroll as int, end as int, tab);
        }
    }
    runs
}

/// The selected span of one line, in display columns, or `None` when the line
/// is outside the selection.
pub open spec fn span_of(
    range: ((usize, usize), (usize, usize)),
    line: int,
    text: Seq<char>,
    tab: usize,
) -> Option<(int, int)> {
    let from = if line == range.0.0 {
        column_of(text, range.0.1 as int, tab)
    } else {
        0
    };
    let to = if line == range.1.0 {
        column_of(text, range.1.1 as int, tab)
    } else {
        columns(text, tab) + 1
    };
    if range.0.0 <= line <= range.1.0 && to > from {
        Some((from, to))
    } else {
        None
    }
}

/// The selected span of one line, in display columns, or `None` when the line
/// is outside the selection.
pub fn selected_columns(
    range: ((usize, usize), (usize, usize)),
    line: usize,
    raw: &str,
    tab: usize,
) -> (span: Option<(usize, usize)>)
    requires
        columns(raw@, tab) < usize::MAX,
    ensures
        match span {
            Some((from, to)) => span_of(range, line as int, raw@, tab) == Some(
                (from as int, to as int),
            ),
            None => span_of(range, line as int, raw@, tab) is None,
        },
{
    let ((from_row, from_col), (to_row, to_col)) = range;
    if line < from_row || line > to_row {
        return None;
    }
    proof {
        let len = raw@.len() as int;
        assert(raw@.take(len) == raw@);
        columns_mono(raw@, if from_col <= len { from_col as int } else { len }, len, tab);
        columns_mono(raw@, if to_col <= len { to_col as int } else { len }, len, tab);
    }
    let from: usize = if line == from_row {
        display_col(raw, from_col, tab)
    } else {
        0
    };
    let to: usize = if line == to_row {
        display_col(raw, to_col, tab)
    } else {
        display_width(raw, tab) + 1
    };
    if to > from {
        Some((from, to))
    } else {
        None
    }
}

/// The characters of a text that take a column, as many from the start as fit in
/// `room` columns.
pub open spec fn kept(text: Seq<char>, room: int) -> Seq<char>
    decreases text.len(),
{
    if text.len() == 0 {
        Seq::empty()
    } else {
        let before = kept(text.drop_last(), room);
        let width = glyph_cells(text.last());
        if width > 0 && glyphs(text) <= room {
            before.push(text.last())
        } else {
            before
        }
    }
}

/// The columns of a text with no tab stops.
pub open spec fn glyphs(text: Seq<char>) -> int
    decreases text.len(),
{
    if text.len() == 0 {
        0
    } else {
        glyphs(text.drop_last()) + glyph_cells(text.last())
    }
}

proof fn glyphs_mono(text: Seq<char>, i: int, j: int)
    requires
        0 <= i <= j <= text.len(),
    ensures
        0 <= glyphs(text.take(i)) <= glyphs(text.take(j)),
    decreases j,
{
    if i < j {
        glyphs_mono(text, i, j - 1);
        assert(text.take(j).drop_last() == text.take(j - 1));
    } else if i > 0 {
        glyphs_mono(text, i - 1, i - 1);
        assert(text.take(i).drop_last() == text.take(i - 1));
    }
}

/// Once the room is used up nothing more is kept.
proof fn kept_end(text: Seq<char>, i: int, room: int)
    requires
        0 <= i <= text.len(),
        glyphs(text.take(i)) > room,
    ensures
        kept(text, room) == kept(text.take(i), room),
    decreases text.len(),
{
    if i == text.len() {
        assert(text.take(i) == text);
    } else {
        let init = text.drop_last();
        assert(init.take(i) == text.take(i));
        kept_end(init, i, room);
        glyphs_mono(text, i, text.len() as int);
        assert(text.take(text.len() as int) == text);
    }
}

/// A string cut to a number of display columns, so a wide glyph is never halved
/// by the pane's edge. A character that takes no column is dropped: a commit
/// subject is text anyone could have written, and a control character in it
/// would otherwise reach the terminal as the escape sequence it is.
pub fn cut(text: &str, room: usize) -> (part: String)
    ensures
        part@ == kept(text@, room as int),
{
    let chars = chars_of(text);
    let mut out = String::new();
    let mut col: usize = 0;
    let mut i: usize = 0;
    while i < chars.len()
        invariant
            0 <= i <= chars@.len(),
            chars@ == text@,
            col == glyphs(text@.take(i as int)),
            col <= room,
            out@ == kept(text@.take(i as int), room as int),
        decreases chars@.len() - i,
    {
        proof {
            assert(text@.take(i + 1).drop_last() == text@.take(i as int));
            assert(text@.take(i + 1).last() == text@[i as int]);
        }
        let cells: usize = match glyph_width(chars[i]) {
            Some(cells) => cells,
            None => 0,
        };
        if cells > room - col {
            proof {
                kept_end(text@, i + 1, room as int);
            }
            return out;
        }
        if cells > 0 {
            out.push(chars[i]);
        }
        col += cells;
        i += 1;
    }
    proof {
        assert(text@.take(text@.len() as int) == text@);
    }
    out
}

/// How wide the line numbers of a side are: as many columns as its largest has
/// digits.
pub open spec fn gutter(lines: int) -> int {
    crate::text::decimal(
        if lines >= 1 {
            lines
        } else {
            1
        },
    ).len() as int
}

/// Line numbers take twenty columns at most.
pub proof fn gutter_small(lines: int)
    requires
        0 <= lines <= usize::MAX,
    ensures
        1 <= gutter(lines) <= 20,
{
    assert(crate::text::power_of_ten(20) == 100_000_000_000_000_000_000) by {
        reveal_with_fuel(crate::text::power_of_ten, 21);
    }
    crate::text::decimal_digits(
        if lines >= 1 {
            lines
        } else {
            1
        },
        20,
    );
}

/// Columns of the line numbers of a side with this many lines.
pub fn gutter_width(line_count: usize) -> (width: usize)
    ensures
        width == gutter(line_count as int),
        1 <= width,
{
    let largest: usize = if line_count >= 1 {
        line_count
    } else {
        1
    };
    let digits = number(largest as u64);
    proof {
        reveal_with_fuel(crate::text::decimal, 1);
    }
    chars_of(digits.as_str()).len()
}

/// A character starts at a column.
pub proof fn column_bounds(text: Seq<char>, index: int, tab: usize)
    requires
        0 <= index,
    ensures
        0 <= column_of(text, index, tab),
{
    let end = if index <= text.len() {
        index
    } else {
        text.len() as int
    };
    columns_mono(text, end, end, tab);
    assert(text.take(text.len() as int) =~= text);
}

/// The start of a line is no wider than the line.
pub proof fn columns_grow(text: Seq<char>, index: int, tab: usize)
    requires
        0 <= index <= text.len(),
    ensures
        columns(text.take(index), tab) <= columns(text, tab),
{
    columns_mono(text, index, text.len() as int, tab);
    assert(text.take(text.len() as int) =~= text);
}

// ---- Laws ----------------------------------------------------------------

/// Past the end of a line every character index is the column of its end.
pub proof fn column_past_the_end(text: Seq<char>, index: int, tab: usize)
    requires
        index >= text.len(),
    ensures
        column_of(text, index, tab) == columns(text, tab),
{
    assert(text.take(text.len() as int) == text);
}

/// A click on the column where a character starts lands on a character that
/// starts in that very column, and on that character itself unless the one
/// before it takes no column.
pub proof fn click_round_trip(text: Seq<char>, index: int, tab: usize, found: int)
    requires
        0 <= index <= text.len(),
        first_at(text, column_of(text, index, tab), tab, found),
    ensures
        column_of(text, found, tab) == column_of(text, index, tab),
        found <= index,
        index == 0 || cells(text[index - 1], tab) > 0 ==> found == index,
{
    if found > index {
        assert(columns(text.take(index), tab) < column_of(text, index, tab));
    }
    columns_mono(text, found, index, tab);
    if index > 0 && found < index {
        columns_mono(text, found, index - 1, tab);
        columns_step(text, index - 1, tab);
    }
}

/// Columns that painted cells take.
pub open spec fn painted(shown: Seq<(char, bool)>) -> int
    decreases shown.len(),
{
    if shown.len() == 0 {
        0
    } else {
        let ch = shown.last().0;
        painted(shown.drop_last()) + glyph_cells(ch)
    }
}

proof fn painted_concat(a: Seq<(char, bool)>, b: Seq<(char, bool)>)
    ensures
        painted(a + b) == painted(a) + painted(b),
    decreases b.len(),
{
    if b.len() == 0 {
        assert(a + b == a);
    } else {
        painted_concat(a, b.drop_last());
        assert((a + b).drop_last() == a + b.drop_last());
    }
}

proof fn painted_blanks(from: int, to: int, selection: Option<(usize, usize)>)
    requires
        from <= to,
    ensures
        painted(blanks(from, to, selection)) == to - from,
    decreases to - from,
{
    let all = blanks(from, to, selection);
    if from < to {
        painted_blanks(from, to - 1, selection);
        assert(all.drop_last() == blanks(from, to - 1, selection));
    }
}

/// Where the painted part of a line ends.
proof fn painted_pieces(
    text: Seq<char>,
    hscroll: int,
    end: int,
    tab: usize,
    selection: Option<(usize, usize)>,
)
    requires
        0 <= hscroll <= end,
    ensures
        painted(pieces(text, hscroll, end, tab, selection)) == sooner_of(
            later_of(columns(text, tab), hscroll),
            end,
        ) - hscroll,
    decreases text.len(),
{
    if text.len() > 0 {
        let init = text.drop_last();
        let col = columns(init, tab);
        let ch = text.last();
        let width = cells(ch, tab);
        painted_pieces(init, hscroll, end, tab, selection);
        let mine = piece(ch, col, hscroll, end, tab, selection);
        painted_concat(pieces(init, hscroll, end, tab, selection), mine);
        columns_mono(init, 0, init.len() as int, tab);
        assert(init.take(init.len() as int) == init);
        if width == 0 || col >= end || col + width <= hscroll {
        } else if ch == '\t' || col < hscroll || col + width > end {
            painted_blanks(later_of(col, hscroll), sooner_of(col + width, end), selection);
        } else {
            assert(mine.drop_last() == Seq::<(char, bool)>::empty());
            assert(painted(mine.drop_last()) == 0);
        }
    }
}

/// Nothing that is painted is marked where nothing is selected.
pub proof fn nothing_is_marked(text: Seq<char>, hscroll: int, end: int, tab: usize)
    ensures
        forall|i: int|
            0 <= i < pieces(text, hscroll, end, tab, None).len() ==> !(#[trigger] pieces(
                text,
                hscroll,
                end,
                tab,
                None,
            )[i]).1,
    decreases text.len(),
{
    if text.len() > 0 {
        let init = text.drop_last();
        nothing_is_marked(init, hscroll, end, tab);
        let before = pieces(init, hscroll, end, tab, None);
        let mine = piece(text.last(), columns(init, tab), hscroll, end, tab, None);
        assert(pieces(text, hscroll, end, tab, None) == before + mine);
        assert forall|i: int| 0 <= i < (before + mine).len() implies !(#[trigger] (before
            + mine)[i]).1 by {
            if i >= before.len() {
                assert((before + mine)[i] == mine[i - before.len()]);
            } else {
                assert((before + mine)[i] == before[i]);
            }
        }
    }
}

/// A row never takes more columns than its pane has, and takes exactly those
/// that its line covers when nothing is selected: no glyph is halved and nothing
/// to the right of it shifts.
pub proof fn a_row_keeps_its_width(
    text: Seq<char>,
    hscroll: int,
    end: int,
    tab: usize,
    selection: Option<(usize, usize)>,
)
    requires
        0 <= hscroll <= end,
    ensures
        painted(visible(text, hscroll, end, tab, selection)) <= end - hscroll,
        selection is None ==> painted(visible(text, hscroll, end, tab, selection)) == sooner_of(
            columns(text, tab),
            end,
        ) - sooner_of(columns(text, tab), hscroll),
{
    let total = columns(text, tab);
    let tail = trail(total, hscroll, end, selection);
    painted_pieces(text, hscroll, end, tab, selection);
    painted_concat(pieces(text, hscroll, end, tab, selection), tail);
    let from = later_of(total, hscroll);
    if let Some((first, to)) = selection {
        let stop = sooner_of(to as int, end);
        if first <= from && from < stop {
            painted_blanks(from, stop, selection);
        } else {
            assert(tail == Seq::<(char, bool)>::empty());
        }
    }
}

/// What is painted of a line is blanks and characters that take a column: no
/// control character reaches the screen.
pub proof fn only_columns_are_painted(
    text: Seq<char>,
    hscroll: int,
    end: int,
    tab: usize,
    selection: Option<(usize, usize)>,
    i: int,
)
    requires
        0 <= i < visible(text, hscroll, end, tab, selection).len(),
    ensures
        ({
            let ch = visible(text, hscroll, end, tab, selection)[i].0;
            ch != '\t' && glyph_cells(ch) > 0
        }),
    decreases text.len(),
{
    if i < pieces(text, hscroll, end, tab, selection).len() {
        piece_columns(text, hscroll, end, tab, selection, i);
    }
}

proof fn piece_columns(
    text: Seq<char>,
    hscroll: int,
    end: int,
    tab: usize,
    selection: Option<(usize, usize)>,
    i: int,
)
    requires
        0 <= i < pieces(text, hscroll, end, tab, selection).len(),
    ensures
        ({
            let ch = pieces(text, hscroll, end, tab, selection)[i].0;
            ch != '\t' && glyph_cells(ch) > 0
        }),
    decreases text.len(),
{
    let init = text.drop_last();
    let before = pieces(init, hscroll, end, tab, selection);
    if i < before.len() {
        piece_columns(init, hscroll, end, tab, selection, i);
    }
}

/// A cut text fits its room, and holds only characters that take a column: what
/// anyone wrote in a commit subject cannot write to the terminal.
pub proof fn a_cut_text_fits(text: Seq<char>, room: int)
    requires
        0 <= room,
    ensures
        glyphs(kept(text, room)) <= room,
        glyphs(text) <= room ==> glyphs(kept(text, room)) == glyphs(text),
        forall|i: int|
            0 <= i < kept(text, room).len() ==> glyph_cells(#[trigger] kept(text, room)[i]) > 0,
    decreases text.len(),
{
    if text.len() > 0 {
        let init = text.drop_last();
        a_cut_text_fits(init, room);
        let before = kept(init, room);
        glyphs_mono(text, init.len() as int, text.len() as int);
        assert(text.take(init.len() as int) == init);
        assert(text.take(text.len() as int) == text);
        if glyph_cells(text.last()) > 0 && glyphs(text) <= room {
            assert(before.push(text.last()).drop_last() == before);
        }
    }
}

/// What a run holds is part of the row.
pub proof fn a_run_is_in_the_row(runs: Seq<(String, bool)>, k: int)
    requires
        0 <= k < runs.len(),
        runs[k].0@.len() > 0,
    ensures
        exists|i: int| 0 <= i < flat(runs).len() && (#[trigger] flat(runs)[i]).1 == runs[k].1,
    decreases runs.len(),
{
    let init = runs.drop_last();
    let mine = marked(runs.last().0@, runs.last().1);
    assert(flat(runs) == flat(init) + mine);
    if k == runs.len() - 1 {
        assert(mine.len() > 0);
        let i = flat(init).len() as int;
        assert(flat(runs)[i] == mine[0]);
    } else {
        a_run_is_in_the_row(init, k);
        let i = choose|i: int| 0 <= i < flat(init).len() && (#[trigger] flat(init)[i]).1 == init[k].1;
        assert(flat(runs)[i] == flat(init)[i]);
    }
}

proof fn narrow_columns(text: Seq<char>, tab: usize)
    requires
        crate::area::narrow(text),
    ensures
        columns(text, tab) == text.len(),
        forall|i: int| 0 <= i <= text.len() ==> columns(#[trigger] text.take(i), tab) == i,
    decreases text.len(),
{
    if text.len() > 0 {
        let init = text.drop_last();
        assert(crate::area::narrow(init)) by {
            assert forall|i: int| 0 <= i < init.len() implies ' ' <= #[trigger] init[i] && init[i]
                <= '~' by {
                assert(init[i] == text[i]);
            }
        }
        narrow_columns(init, tab);
        assert(text[text.len() - 1] == text.last());
        assert(' ' <= text[text.len() - 1]);
        assert forall|i: int| 0 <= i <= text.len() implies columns(#[trigger] text.take(i), tab)
            == i by {
            if i < text.len() {
                assert(text.take(i) =~= init.take(i));
            } else {
                assert(text.take(i) =~= text);
            }
        }
    } else {
        assert forall|i: int| 0 <= i <= text.len() implies columns(#[trigger] text.take(i), tab)
            == i by {
            assert(text.take(i) =~= Seq::<char>::empty());
        }
    }
}

proof fn narrow_pieces(
    text: Seq<char>,
    hscroll: int,
    end: int,
    tab: usize,
    selection: Option<(usize, usize)>,
)
    requires
        crate::area::narrow(text),
        0 <= hscroll <= end,
    ensures
        ({
            let stop = sooner_of(text.len() as int, end);
            let all = pieces(text, hscroll, end, tab, selection);
            &&& all.len() == later_of(stop - hscroll, 0)
            &&& forall|i: int|
                0 <= i < all.len() ==> (#[trigger] all[i]).0 == text[hscroll + i] && all[i].1 == (
                selection is Some && (selection->0).0 <= hscroll + i && hscroll + i < (
                selection->0).1)
        }),
    decreases text.len(),
{
    if text.len() > 0 {
        let init = text.drop_last();
        let ch = text.last();
        assert(crate::area::narrow(init)) by {
            assert forall|i: int| 0 <= i < init.len() implies ' ' <= #[trigger] init[i] && init[i]
                <= '~' by {
                assert(init[i] == text[i]);
            }
        }
        assert(' ' <= text[text.len() - 1] && text[text.len() - 1] <= '~');
        narrow_pieces(init, hscroll, end, tab, selection);
        narrow_columns(init, tab);
        let col = init.len() as int;
        let before = pieces(init, hscroll, end, tab, selection);
        let mine = piece(ch, col, hscroll, end, tab, selection);
        assert(pieces(text, hscroll, end, tab, selection) == before + mine);
        if col >= end || col + 1 <= hscroll {
            assert(mine =~= Seq::<(char, bool)>::empty());
        } else {
            assert(mine =~= seq![(ch, selected(selection, col))]);
        }
    }
}

/// A line of printable ASCII characters is shown as it is, from the column it is
/// scrolled to and as far as the pane is wide, and the columns that are marked are
/// those of the selection. Behind the end of the line there are only marked blanks.
pub proof fn a_plain_line_is_shown_as_it_is(
    text: Seq<char>,
    hscroll: int,
    end: int,
    tab: usize,
    selection: Option<(usize, usize)>,
)
    requires
        crate::area::narrow(text),
        0 <= hscroll <= end,
    ensures
        ({
            let shown = visible(text, hscroll, end, tab, selection);
            let len = text.len() as int;
            let inside = |col: int|
                selection is Some && (selection->0).0 <= col && col < (selection->0).1;
            &&& forall|col: int|
                #![trigger text[col]]
                hscroll <= col < len && col < end ==> col - hscroll < shown.len() && shown[col
                    - hscroll] == (text[col], inside(col))
            &&& forall|i: int|
                #![trigger shown[i]]
                0 <= i < shown.len() && hscroll + i < len ==> hscroll + i < end && shown[i] == (
                    text[hscroll + i],
                    inside(hscroll + i),
                )
            &&& selection is None ==> hscroll + shown.len() <= later_of(len, hscroll)
            &&& hscroll < len ==> forall|i: int|
                #![trigger shown[i]]
                0 <= i < shown.len() && hscroll + i >= len ==> shown[i] == (' ', true) && inside(
                    hscroll + i,
                )
        }),
{
    narrow_pieces(text, hscroll, end, tab, selection);
    narrow_columns(text, tab);
    let len = text.len() as int;
    let all = pieces(text, hscroll, end, tab, selection);
    let tail = trail(len, hscroll, end, selection);
    let shown = visible(text, hscroll, end, tab, selection);
    assert(shown == all + tail);
    assert forall|col: int| #![trigger text[col]] hscroll <= col < len && col < end implies col
        - hscroll < shown.len() && shown[col - hscroll] == (
        text[col],
        selection is Some && (selection->0).0 <= col && col < (selection->0).1,
    ) by {
        assert(shown[col - hscroll] == all[col - hscroll]);
    }
    if hscroll < len && len >= end {
        assert(tail =~= Seq::<(char, bool)>::empty());
    }
}

/// Every tab of a text written as the spaces it is shown as.
pub open spec fn untabbed(text: Seq<char>, tab: usize) -> Seq<char>
    decreases text.len(),
{
    if text.len() == 0 {
        Seq::empty()
    } else if text.last() == '\t' {
        untabbed(text.drop_last(), tab) + crate::text::run(
            ' ',
            if tab == 0 {
                1
            } else {
                tab as int
            },
        )
    } else {
        untabbed(text.drop_last(), tab).push(text.last())
    }
}

proof fn spaces_are_blanks(
    text: Seq<char>,
    count: int,
    hscroll: int,
    end: int,
    tab: usize,
    selection: Option<(usize, usize)>,
)
    requires
        0 <= count,
        0 <= hscroll <= end,
    ensures
        columns(text + crate::text::run(' ', count), tab) == columns(text, tab) + count,
        pieces(text + crate::text::run(' ', count), hscroll, end, tab, selection) == pieces(
            text,
            hscroll,
            end,
            tab,
            selection,
        ) + blanks(
            later_of(columns(text, tab), hscroll),
            sooner_of(columns(text, tab) + count, end),
            selection,
        ),
    decreases count,
{
    let col = columns(text, tab);
    let all = text + crate::text::run(' ', count);
    columns_mono(text, 0, text.len() as int, tab);
    assert(text.take(text.len() as int) =~= text);
    if count == 0 {
        assert(all =~= text);
        assert(blanks(later_of(col, hscroll), sooner_of(col, end), selection) =~= Seq::<
            (char, bool),
        >::empty());
        assert(pieces(all, hscroll, end, tab, selection) =~= pieces(
            text,
            hscroll,
            end,
            tab,
            selection,
        ) + blanks(later_of(col, hscroll), sooner_of(col, end), selection));
    } else {
        spaces_are_blanks(text, count - 1, hscroll, end, tab, selection);
        let init = text + crate::text::run(' ', count - 1);
        assert(all.drop_last() =~= init);
        assert(all.last() == ' ');
        let at = col + count - 1;
        let mine = piece(' ', at, hscroll, end, tab, selection);
        let before = blanks(later_of(col, hscroll), sooner_of(at, end), selection);
        let whole = blanks(later_of(col, hscroll), sooner_of(at + 1, end), selection);
        if at >= end || at + 1 <= hscroll {
            assert(mine =~= Seq::<(char, bool)>::empty());
            assert(before =~= whole);
        } else {
            assert(mine =~= seq![(' ', selected(selection, at))]);
            assert(before + mine =~= whole);
        }
        assert(pieces(all, hscroll, end, tab, selection) =~= pieces(
            text,
            hscroll,
            end,
            tab,
            selection,
        ) + whole);
    }
}

/// A line with tabs is shown as the same line with every tab written as so many spaces,
/// and is as wide.
pub proof fn a_tab_is_shown_as_spaces(
    text: Seq<char>,
    hscroll: int,
    end: int,
    tab: usize,
    selection: Option<(usize, usize)>,
)
    requires
        0 <= hscroll <= end,
    ensures
        columns(text, tab) == columns(untabbed(text, tab), tab),
        visible(text, hscroll, end, tab, selection) == visible(
            untabbed(text, tab),
            hscroll,
            end,
            tab,
            selection,
        ),
{
    tabs_are_blanks(text, hscroll, end, tab, selection);
}

proof fn tabs_are_blanks(
    text: Seq<char>,
    hscroll: int,
    end: int,
    tab: usize,
    selection: Option<(usize, usize)>,
)
    requires
        0 <= hscroll <= end,
    ensures
        columns(text, tab) == columns(untabbed(text, tab), tab),
        pieces(text, hscroll, end, tab, selection) == pieces(
            untabbed(text, tab),
            hscroll,
            end,
            tab,
            selection,
        ),
    decreases text.len(),
{
    if text.len() > 0 {
        let init = text.drop_last();
        tabs_are_blanks(init, hscroll, end, tab, selection);
        let plain = untabbed(init, tab);
        let col = columns(init, tab);
        columns_mono(init, 0, init.len() as int, tab);
        assert(init.take(init.len() as int) =~= init);
        if text.last() == '\t' {
            let count = if tab == 0 {
                1
            } else {
                tab as int
            };
            spaces_are_blanks(plain, count, hscroll, end, tab, selection);
            let mine = piece('\t', col, hscroll, end, tab, selection);
            assert(mine =~= blanks(
                later_of(col, hscroll),
                sooner_of(col + count, end),
                selection,
            ));
        } else {
            let longer = plain.push(text.last());
            assert(longer.drop_last() =~= plain);
        }
    }
}

/// The columns of a line that a selection covers are those of the places between its
/// ends: on a line of printable ASCII, column by column, the end of the line counting as
/// one where the selection goes on below.
pub proof fn a_selection_covers_what_lies_between(
    range: ((usize, usize), (usize, usize)),
    line: int,
    text: Seq<char>,
    tab: usize,
    col: int,
)
    requires
        crate::area::narrow(text),
        0 <= col <= text.len(),
        line == range.0.0 ==> range.0.1 <= text.len(),
        line == range.1.0 ==> range.1.1 <= text.len(),
    ensures
        ({
            let from = range.0;
            let to = range.1;
            let behind = from.0 < line || (from.0 == line && from.1 <= col);
            let before = line < to.0 || (line == to.0 && col < to.1);
            let span = span_of(range, line, text, tab);
            (span is Some && (span->0).0 <= col && col < (span->0).1) <==> behind && before
        }),
{
    narrow_columns(text, tab);
    assert(text.take(text.len() as int) =~= text);
}

/// A text of printable ASCII characters is cut to as many of them as there is room for.
pub proof fn a_plain_text_is_cut_to_its_start(text: Seq<char>, room: int)
    requires
        crate::area::narrow(text),
        0 <= room,
    ensures
        kept(text, room) == text.take(sooner_of(text.len() as int, room)),
    decreases text.len(),
{
    if text.len() > 0 {
        let init = text.drop_last();
        assert(crate::area::narrow(init)) by {
            assert forall|i: int| 0 <= i < init.len() implies ' ' <= #[trigger] init[i] && init[i]
                <= '~' by {
                assert(init[i] == text[i]);
            }
        }
        a_plain_text_is_cut_to_its_start(init, room);
        narrow_glyphs(text);
        assert(' ' <= text[text.len() - 1] && text[text.len() - 1] <= '~');
        if text.len() <= room {
            assert(init.take(init.len() as int).push(text.last()) =~= text.take(text.len() as int));
        } else {
            assert(init.take(room) =~= text.take(room));
        }
    } else {
        assert(kept(text, room) =~= text.take(0));
    }
}

proof fn narrow_glyphs(text: Seq<char>)
    requires
        crate::area::narrow(text),
    ensures
        glyphs(text) == text.len(),
    decreases text.len(),
{
    if text.len() > 0 {
        let init = text.drop_last();
        assert forall|i: int| 0 <= i < init.len() implies ' ' <= #[trigger] init[i] && init[i]
            <= '~' by {
            assert(init[i] == text[i]);
        }
        narrow_glyphs(init);
        assert(' ' <= text[text.len() - 1] && text[text.len() - 1] <= '~');
    }
}

/// The line numbers are as wide as the largest has digits.
pub proof fn the_gutter_holds_the_largest_number(lines: int)
    requires
        1 <= lines,
    ensures
        crate::text::power_of_ten((gutter(lines) - 1) as nat) <= lines
            < crate::text::power_of_ten(gutter(lines) as nat),
{
    crate::text::a_number_has_its_digits(lines);
}

/// On a line of printable ASCII a click lands on the character in its column, or on the
/// end of the line.
pub proof fn a_click_lands_on_its_column(text: Seq<char>, display: int, tab: usize, index: int)
    requires
        crate::area::narrow(text),
        0 <= display,
        first_at(text, display, tab, index),
    ensures
        index == sooner_of(display, text.len() as int),
{
    narrow_columns(text, tab);
    if index > display {
        assert(columns(text.take(display), tab) < display);
    }
}

/// A line of printable ASCII without a selection shows as many cells as it has characters
/// from the first column that is shown, as far as there is room.
pub proof fn a_plain_line_fills_its_columns(text: Seq<char>, hscroll: int, end: int, tab: usize)
    requires
        crate::area::narrow(text),
        0 <= hscroll <= end,
    ensures
        visible(text, hscroll, end, tab, None).len() == later_of(
            sooner_of(text.len() as int, end) - hscroll,
            0,
        ),
{
    narrow_pieces(text, hscroll, end, tab, None);
    narrow_columns(text, tab);
}

/// In a line of printable ASCII a place is as many columns in as it is characters in.
pub proof fn a_plain_place_is_its_column(text: Seq<char>, at: int, tab: usize)
    requires
        crate::area::narrow(text),
        0 <= at <= text.len(),
    ensures
        column_of(text, at, tab) == at,
{
    narrow_columns(text, tab);
}

/// A selection that goes on behind the end of a line marks a blank there for every column
/// of it that is in view.
pub proof fn a_selection_goes_on_behind_the_line(
    text: Seq<char>,
    hscroll: int,
    end: int,
    tab: usize,
    selection: (usize, usize),
    col: int,
)
    requires
        crate::area::narrow(text),
        0 <= hscroll <= text.len() <= col,
        col < end,
        selection.0 <= text.len(),
        col < selection.1,
    ensures
        col - hscroll < visible(text, hscroll, end, tab, Some(selection)).len(),
        visible(text, hscroll, end, tab, Some(selection))[col - hscroll] == (' ', true),
{
    narrow_pieces(text, hscroll, end, tab, Some(selection));
    narrow_columns(text, tab);
    let all = pieces(text, hscroll, end, tab, Some(selection));
    let tail = trail(text.len() as int, hscroll, end, Some(selection));
    assert(all.len() == text.len() - hscroll);
    assert((all + tail)[col - hscroll] == tail[col - text.len()]);
}

} // verus!

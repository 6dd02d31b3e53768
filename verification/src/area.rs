//! The text area of the editor: lines, a cursor, and a selection.
use crate::input::{Key, KeyPress};
use ratatui_textarea::{CursorMove, Input, Key as AreaKey, TextArea, WrapMode};
use vstd::prelude::*;

verus! {

/// A text area of `ratatui-textarea`.
#[verifier::external_body]
pub struct Area {
    inner: TextArea<'static>,
}

/// The lines that a text area holds.
pub uninterp spec fn area_lines(area: Area) -> Seq<Seq<char>>;

/// Where the cursor of a text area is: a line, and a character of it.
pub uninterp spec fn area_cursor(area: Area) -> (int, int);

/// Where the selection of a text area was started, if one was.
pub uninterp spec fn area_anchor(area: Area) -> Option<(int, int)>;

/// What a text area was set up with.
pub struct Setup {
    /// Whether the tab key writes a tab.
    pub tabs: bool,
    /// How wide a tab is.
    pub tab: int,
    /// How many edits the area keeps for an undo of its own.
    pub kept: int,
}

/// What a text area was set up with.
pub uninterp spec fn area_setup(area: Area) -> Setup;

/// A place among lines: a line there is, and a character of it or its end.
pub open spec fn inside(lines: Seq<Seq<char>>, at: (int, int)) -> bool {
    0 <= at.0 < lines.len() && 0 <= at.1 <= lines[at.0].len()
}

/// No line holds a line feed.
pub open spec fn unbroken(lines: Seq<Seq<char>>) -> bool {
    forall|i: int| 0 <= i < lines.len() ==> !(#[trigger] lines[i]).contains('\n')
}

/// There is always a line, no line holds a line feed, and the cursor and the start of
/// a selection are among the lines.
pub open spec fn area_ok(area: Area) -> bool {
    &&& area_lines(area).len() > 0
    &&& unbroken(area_lines(area))
    &&& inside(area_lines(area), area_cursor(area))
    &&& area_anchor(area) is Some ==> inside(area_lines(area), area_anchor(area)->0)
}

pub open spec fn earlier(a: (int, int), b: (int, int)) -> bool {
    a.0 < b.0 || (a.0 == b.0 && a.1 < b.1)
}

/// Two places in the order of the text.
pub open spec fn ordered(a: (int, int), b: (int, int)) -> ((int, int), (int, int)) {
    if earlier(b, a) {
        (b, a)
    } else {
        (a, b)
    }
}

/// The stretch that an edit replaces: the selection, or nothing at the cursor.
pub open spec fn target(cursor: (int, int), anchor: Option<(int, int)>) -> (
    (int, int),
    (int, int),
) {
    match anchor {
        Some(anchor) => ordered(anchor, cursor),
        None => (cursor, cursor),
    }
}

/// Lines with the text between two places replaced by pieces, each piece but the
/// last ending its line.
pub open spec fn spliced(
    lines: Seq<Seq<char>>,
    from: (int, int),
    to: (int, int),
    pieces: Seq<Seq<char>>,
) -> Seq<Seq<char>> {
    let head = lines[from.0].take(from.1);
    let tail = lines[to.0].skip(to.1);
    let middle = if pieces.len() == 1 {
        seq![head + pieces[0] + tail]
    } else {
        seq![head + pieces[0]] + pieces.subrange(1, pieces.len() - 1) + seq![pieces.last() + tail]
    };
    lines.take(from.0) + middle + lines.skip(to.0 + 1)
}

/// Where the cursor is behind pieces that were put in at `from`.
pub open spec fn behind(from: (int, int), pieces: Seq<Seq<char>>) -> (int, int) {
    if pieces.len() == 1 {
        (from.0, from.1 + pieces[0].len())
    } else {
        (from.0 + pieces.len() - 1, pieces.last().len() as int)
    }
}

/// An edit put `pieces` in the place of the selection, or at the cursor.
pub open spec fn replaced(
    before: Area,
    after: Area,
    pieces: Seq<Seq<char>>,
) -> bool {
    let (from, to) = target(area_cursor(before), area_anchor(before));
    &&& area_lines(after) == spliced(area_lines(before), from, to, pieces)
    &&& area_cursor(after) == behind(from, pieces)
    &&& area_anchor(after) is None
}

/// A line without the carriage return that ends it, if one does.
pub open spec fn without_return(line: Seq<char>) -> Seq<char> {
    if line.len() > 0 && line.last() == '\r' {
        line.drop_last()
    } else {
        line
    }
}

/// The lines of a text: its pieces between line feeds, each without a carriage
/// return at its end.
pub open spec fn text_lines(text: Seq<char>) -> Seq<Seq<char>> {
    crate::text::pieces(text, '\n').map_values(|line: Seq<char>| without_return(line))
}

/// `TextArea::new`: the lines, or one empty line where there are none, with the
/// cursor at the start and nothing selected. A tab is four columns wide and is
/// written as spaces, and fifty edits are kept. A line feed inside a line is kept out:
/// pasting a piece that holds one trips an assertion of the area.
#[verifier::external_body]
pub(crate) fn area_new(lines: Vec<String>) -> (area: Area)
    requires
        unbroken(crate::text::views(lines@)),
    ensures
        area_lines(area) == (if lines@.len() == 0 {
            seq![Seq::<char>::empty()]
        } else {
            crate::text::views(lines@)
        }),
        area_cursor(area) == (0int, 0int),
        area_anchor(area) is None,
        area_setup(area) == (Setup { tabs: false, tab: 4, kept: 50 }),
        area_ok(area),
{
    Area { inner: TextArea::new(lines) }
}

/// The contents of a text area are as they were.
pub open spec fn untouched(before: Area, after: Area) -> bool {
    &&& area_lines(after) == area_lines(before)
    &&& area_cursor(after) == area_cursor(before)
    &&& area_anchor(after) == area_anchor(before)
}

/// `TextArea::set_max_histories`: how many edits the area keeps for its own undo,
/// starting with none.
#[verifier::external_body]
pub(crate) fn area_set_max_histories(area: &mut Area, max: usize)
    ensures
        untouched(*old(area), *final(area)),
        area_setup(*final(area)) == (Setup { kept: max as int, ..area_setup(*old(area)) }),
{
    area.inner.set_max_histories(max);
}

/// `TextArea::set_wrap_mode` with `WrapMode::None`: no line is wrapped, as in a new
/// area.
#[verifier::external_body]
pub(crate) fn area_set_no_wrap(area: &mut Area)
    ensures
        untouched(*old(area), *final(area)),
        area_setup(*final(area)) == area_setup(*old(area)),
{
    area.inner.set_wrap_mode(WrapMode::None);
}

/// `TextArea::set_hard_tab_indent`: whether the area indents with tabs.
#[verifier::external_body]
pub(crate) fn area_set_hard_tab_indent(area: &mut Area, enabled: bool)
    ensures
        untouched(*old(area), *final(area)),
        area_setup(*final(area)) == (Setup { tabs: enabled, ..area_setup(*old(area)) }),
{
    area.inner.set_hard_tab_indent(enabled);
}

/// `TextArea::set_tab_length`: how wide a tab is.
#[verifier::external_body]
pub(crate) fn area_set_tab_length(area: &mut Area, len: u8)
    ensures
        untouched(*old(area), *final(area)),
        area_setup(*final(area)) == (Setup { tab: len as int, ..area_setup(*old(area)) }),
{
    area.inner.set_tab_length(len);
}

/// `TextArea::lines`.
#[verifier::external_body]
pub(crate) fn lines_of<'b>(area: &'b Area) -> (lines: &'b [String])
    ensures
        crate::text::views(lines@) == area_lines(*area),
{
    area.inner.lines()
}

/// `TextArea::cursor`: a place among the lines.
#[verifier::external_body]
pub(crate) fn cursor_of(area: &Area) -> (cursor: (usize, usize))
    ensures
        (cursor.0 as int, cursor.1 as int) == area_cursor(*area),
        inside(area_lines(*area), (cursor.0 as int, cursor.1 as int)),
{
    let cursor = area.inner.cursor();
    (cursor.0, cursor.1)
}

/// A sorted pair of places as numbers.
pub open spec fn span_ints(range: ((usize, usize), (usize, usize))) -> ((int, int), (int, int)) {
    ((range.0.0 as int, range.0.1 as int), (range.1.0 as int, range.1.1 as int))
}

/// `TextArea::selection_range`: where the selection was started and the cursor, in
/// the order of the text, as soon as one was started.
#[verifier::external_body]
pub(crate) fn selection_of(area: &Area) -> (range: Option<
    ((usize, usize), (usize, usize)),
>)
    ensures
        range is Some <==> area_anchor(*area) is Some,
        range is Some ==> span_ints(range->0) == ordered(area_anchor(*area)->0, area_cursor(*area)),
{
    area.inner.selection_range()
}

/// `TextArea::start_selection`: the selection starts at the cursor.
#[verifier::external_body]
pub(crate) fn area_start_selection(area: &mut Area)
    ensures
        area_setup(*final(area)) == area_setup(*old(area)),
        area_lines(*final(area)) == area_lines(*old(area)),
        area_cursor(*final(area)) == area_cursor(*old(area)),
        area_anchor(*final(area)) == Some(area_cursor(*old(area))),
{
    area.inner.start_selection();
}

/// `TextArea::cancel_selection`: nothing is selected.
#[verifier::external_body]
pub(crate) fn area_cancel_selection(area: &mut Area)
    ensures
        area_setup(*final(area)) == area_setup(*old(area)),
        area_lines(*final(area)) == area_lines(*old(area)),
        area_cursor(*final(area)) == area_cursor(*old(area)),
        area_anchor(*final(area)) is None,
{
    area.inner.cancel_selection();
}

/// Where a jump to a place lands: on the last line at most, and at the end of the
/// line at most.
pub open spec fn landing(lines: Seq<Seq<char>>, row: int, col: int) -> (int, int) {
    let line = if row < lines.len() {
        row
    } else {
        lines.len() - 1
    };
    (
        line,
        if col < lines[line].len() {
            col
        } else {
            lines[line].len() as int
        },
    )
}

/// `TextArea::move_cursor` with `CursorMove::Jump`: the cursor goes to the place,
/// clamped to the text; the lines and the start of a selection stay.
#[verifier::external_body]
pub(crate) fn area_jump(area: &mut Area, row: u16, col: u16)
    ensures
        area_setup(*final(area)) == area_setup(*old(area)),
        area_lines(*final(area)) == area_lines(*old(area)),
        area_cursor(*final(area)) == landing(area_lines(*old(area)), row as int, col as int),
        area_anchor(*final(area)) == area_anchor(*old(area)),
        area_ok(*final(area)),
{
    area.inner.move_cursor(CursorMove::Jump(row, col));
}

/// `TextArea::insert_str`: the lines of the text take the place of the selection,
/// or go in at the cursor. The answer is whether there was any text.
#[verifier::external_body]
pub(crate) fn area_insert_str(area: &mut Area, text: &str) -> (changed: bool)
    ensures
        area_setup(*final(area)) == area_setup(*old(area)),
        replaced(*old(area), *final(area), text_lines(text@)),
        changed == !(text_lines(text@).len() == 1 && text_lines(text@)[0].len() == 0),
        area_ok(*final(area)),
{
    area.inner.insert_str(text)
}

/// `TextArea::cut`: the selection goes. The answer is whether it held anything.
#[verifier::external_body]
pub(crate) fn area_cut(area: &mut Area) -> (changed: bool)
    ensures
        area_setup(*final(area)) == area_setup(*old(area)),
        replaced(*old(area), *final(area), seq![Seq::<char>::empty()]),
        changed == (area_anchor(*old(area)) is Some && area_anchor(*old(area))->0 != area_cursor(
            *old(area),
        )),
        area_ok(*final(area)),
{
    area.inner.cut()
}

/// A way the cursor goes.
pub enum Stride {
    Left,
    Right,
    Up,
    Down,
    /// The start of the line.
    Head,
    /// The end of the line.
    End,
    /// The first line.
    Top,
    /// The last line.
    Bottom,
    /// A page of a view that was never drawn, which starts and ends with the first
    /// character.
    Page,
    WordLeft,
    WordRight,
    ParagraphUp,
    ParagraphDown,
}

/// What is deleted where nothing is selected.
pub enum Rub {
    /// Nothing.
    Selection,
    /// The character before the cursor, or the end of the line before.
    Back,
    /// The character behind the cursor, or the end of the line.
    Ahead,
    /// The line before the cursor, or the end of the line before.
    LineHead,
    /// The line behind the cursor, or its end.
    LineEnd,
    WordBack,
    WordAhead,
}

/// What a key means to a text area.
pub enum Deed {
    Write(char),
    Break,
    Indent,
    Rub(Rub),
    Move(Stride),
    Copy,
    /// An undo or redo of the area's own.
    Travel,
    /// A paste of what the area has kept for itself.
    Paste,
    Nothing,
}

/// The keys of a text area.
pub open spec fn deed(key: KeyPress) -> Deed {
    let plain = !key.ctrl && !key.alt;
    let ctrl = key.ctrl && !key.alt;
    let alt = !key.ctrl && key.alt;
    match key.code {
        Key::Enter => Deed::Break,
        Key::Char(ch) => if plain {
            if ch == '\n' || ch == '\r' {
                Deed::Break
            } else {
                Deed::Write(ch)
            }
        } else if ctrl {
            match ch {
                'm' => Deed::Break,
                'h' => Deed::Rub(Rub::Back),
                'd' => Deed::Rub(Rub::Ahead),
                'j' => Deed::Rub(Rub::LineHead),
                'k' => Deed::Rub(Rub::LineEnd),
                'w' => Deed::Rub(Rub::WordBack),
                'x' => Deed::Rub(Rub::Selection),
                'b' => Deed::Move(Stride::Left),
                'f' => Deed::Move(Stride::Right),
                'p' => Deed::Move(Stride::Up),
                'n' => Deed::Move(Stride::Down),
                'a' => Deed::Move(Stride::Head),
                'e' => Deed::Move(Stride::End),
                'v' => Deed::Move(Stride::Page),
                'c' => Deed::Copy,
                'y' => Deed::Paste,
                'u' => Deed::Travel,
                'r' => Deed::Travel,
                _ => Deed::Nothing,
            }
        } else if alt {
            match ch {
                'h' => Deed::Rub(Rub::WordBack),
                'd' => Deed::Rub(Rub::WordAhead),
                '<' => Deed::Move(Stride::Top),
                '>' => Deed::Move(Stride::Bottom),
                'b' => Deed::Move(Stride::WordLeft),
                'f' => Deed::Move(Stride::WordRight),
                '[' => Deed::Move(Stride::ParagraphUp),
                'p' => Deed::Move(Stride::ParagraphUp),
                ']' => Deed::Move(Stride::ParagraphDown),
                'n' => Deed::Move(Stride::ParagraphDown),
                'v' => Deed::Move(Stride::Page),
                _ => Deed::Nothing,
            }
        } else {
            match ch {
                'b' => Deed::Move(Stride::Head),
                'f' => Deed::Move(Stride::End),
                'p' => Deed::Move(Stride::Top),
                'n' => Deed::Move(Stride::Bottom),
                _ => Deed::Nothing,
            }
        },
        Key::Tab | Key::BackTab => if plain {
            Deed::Indent
        } else {
            Deed::Nothing
        },
        Key::Backspace => if plain {
            Deed::Rub(Rub::Back)
        } else if alt {
            Deed::Rub(Rub::WordBack)
        } else {
            Deed::Nothing
        },
        Key::Delete => if plain {
            Deed::Rub(Rub::Ahead)
        } else if alt {
            Deed::Rub(Rub::WordAhead)
        } else {
            Deed::Nothing
        },
        Key::Left => arrow(key, Stride::Left, Stride::WordLeft, Stride::Head),
        Key::Right => arrow(key, Stride::Right, Stride::WordRight, Stride::End),
        Key::Up => arrow(key, Stride::Up, Stride::ParagraphUp, Stride::Top),
        Key::Down => arrow(key, Stride::Down, Stride::ParagraphDown, Stride::Bottom),
        Key::Home => Deed::Move(Stride::Head),
        Key::End => Deed::Move(Stride::End),
        Key::PageUp | Key::PageDown => Deed::Move(Stride::Page),
        Key::Esc | Key::Other => Deed::Nothing,
    }
}

/// An arrow key: a step of its own, a longer one with Ctrl, and one all the way with
/// Ctrl and Alt.
pub open spec fn arrow(key: KeyPress, step: Stride, leap: Stride, whole: Stride) -> Deed {
    if key.ctrl && key.alt {
        Deed::Move(whole)
    } else if key.ctrl {
        Deed::Move(leap)
    } else if key.alt {
        Deed::Nothing
    } else {
        Deed::Move(step)
    }
}

/// The place one character before a place.
pub open spec fn place_before(lines: Seq<Seq<char>>, at: (int, int)) -> Option<(int, int)> {
    if at.1 > 0 {
        Some((at.0, at.1 - 1))
    } else if at.0 > 0 {
        Some((at.0 - 1, lines[at.0 - 1].len() as int))
    } else {
        None
    }
}

/// The place one character behind a place.
pub open spec fn place_behind(lines: Seq<Seq<char>>, at: (int, int)) -> Option<(int, int)> {
    if at.1 < lines[at.0].len() {
        Some((at.0, at.1 + 1))
    } else if at.0 + 1 < lines.len() {
        Some((at.0 + 1, 0))
    } else {
        None
    }
}

/// A line of printable ASCII characters, each one column wide.
pub open spec fn narrow(line: Seq<char>) -> bool {
    forall|i: int| 0 <= i < line.len() ==> ' ' <= #[trigger] line[i] && line[i] <= '~'
}

/// A line and those next to it are narrow.
pub open spec fn narrow_around(lines: Seq<Seq<char>>, row: int) -> bool {
    forall|i: int|
        0 <= i < lines.len() && row - 1 <= i <= row + 1 ==> narrow(#[trigger] lines[i])
}

/// How far a key takes the cursor from a place, or how far it deletes, where that
/// goes by words, by paragraphs, or over characters of any width. Nothing is where
/// it goes nowhere.
pub uninterp spec fn reach(
    lines: Seq<Seq<char>>,
    tab: int,
    at: (int, int),
    key: KeyPress,
) -> Option<(int, int)>;

/// Where a move of the cursor goes from a place, or nothing where it goes nowhere.
/// `far` is how far the key reaches.
pub open spec fn goes(
    lines: Seq<Seq<char>>,
    at: (int, int),
    stride: Stride,
    far: Option<(int, int)>,
) -> Option<(int, int)> {
    let near = narrow_around(lines, at.0);
    match stride {
        Stride::Left if near => place_before(lines, at),
        Stride::Right if near => place_behind(lines, at),
        Stride::Up if near => if at.0 > 0 {
            Some(landing(lines, at.0 - 1, at.1))
        } else {
            None
        },
        Stride::Down if near => if at.0 + 1 < lines.len() {
            Some(landing(lines, at.0 + 1, at.1))
        } else {
            None
        },
        Stride::Head => Some((at.0, 0)),
        Stride::End => Some((at.0, lines[at.0].len() as int)),
        Stride::Top => Some(landing(lines, 0, at.1)),
        Stride::Bottom => Some(landing(lines, lines.len() - 1, at.1)),
        Stride::Page => Some((0, 0)),
        _ => far,
    }
}

/// What a key deletes where nothing is selected.
pub open spec fn rubs(
    lines: Seq<Seq<char>>,
    at: (int, int),
    rub: Rub,
    far: Option<(int, int)>,
) -> Option<((int, int), (int, int))> {
    match rub {
        Rub::Selection => None,
        Rub::Back => match place_before(lines, at) {
            Some(from) => Some((from, at)),
            None => None,
        },
        // The cursor goes on first, and the character it is then behind is deleted.
        Rub::Ahead => match goes(lines, at, Stride::Right, far) {
            Some(to) => match place_before(lines, to) {
                Some(from) => Some((from, to)),
                None => None,
            },
            None => None,
        },
        Rub::LineHead => if at.1 > 0 {
            Some(((at.0, 0), at))
        } else {
            match place_before(lines, at) {
                Some(from) => Some((from, at)),
                None => None,
            }
        },
        Rub::LineEnd => if at.1 < lines[at.0].len() {
            Some((at, (at.0, lines[at.0].len() as int)))
        } else {
            match place_behind(lines, at) {
                Some(to) => Some((at, to)),
                None => None,
            }
        },
        Rub::WordBack => match far {
            Some(from) => Some((from, at)),
            None => None,
        },
        Rub::WordAhead => match far {
            Some(to) => Some((at, to)),
            None => None,
        },
    }
}

/// What a text area deletes: the selection, or else what the key means.
pub open spec fn doomed(area: Area, rub: Rub, far: Option<(int, int)>) -> Option<
    ((int, int), (int, int)),
> {
    let at = area_cursor(area);
    if area_anchor(area) is Some && area_anchor(area)->0 != at {
        Some(ordered(area_anchor(area)->0, at))
    } else {
        rubs(area_lines(area), at, rub, far)
    }
}

/// A stretch of the text went, if there was one, and the selection did.
pub open spec fn rubbed(
    before: Area,
    after: Area,
    rub: Rub,
    far: Option<(int, int)>,
    changed: bool,
) -> bool {
    &&& area_anchor(after) is None
    &&& match doomed(before, rub, far) {
        Some((from, to)) => {
            &&& inside(area_lines(before), from)
            &&& inside(area_lines(before), to)
            &&& earlier(from, to)
            &&& changed
            &&& area_lines(after) == spliced(
                area_lines(before),
                from,
                to,
                seq![Seq::<char>::empty()],
            )
            &&& area_cursor(after) == from
        },
        None => {
            &&& !changed
            &&& area_lines(after) == area_lines(before)
            &&& area_cursor(after) == area_cursor(before)
        },
    }
}

/// The cursor went somewhere: with Shift it carries a selection along, from where it
/// was at the latest, else it drops it. Where it goes nowhere all stays as it is.
pub open spec fn strode(
    before: Area,
    after: Area,
    stride: Stride,
    far: Option<(int, int)>,
    shift: bool,
) -> bool {
    let at = area_cursor(before);
    match goes(area_lines(before), at, stride, far) {
        Some(to) => {
            &&& area_lines(after) == area_lines(before)
            &&& area_cursor(after) == to
            &&& area_anchor(after) == (if !shift {
                None
            } else if area_anchor(before) is Some {
                area_anchor(before)
            } else {
                Some(at)
            })
        },
        None => untouched(before, after),
    }
}

/// Something is selected.
pub open spec fn has_selection(area: Area) -> bool {
    area_anchor(area) is Some && area_anchor(area)->0 != area_cursor(area)
}

/// The first line that an edit touched, given the area before and after it.
pub open spec fn first_touched(before: Area, after: Area) -> int {
    let from = target(area_cursor(before), area_anchor(before)).0.0;
    if from < area_cursor(after).0 {
        from
    } else {
        area_cursor(after).0
    }
}

/// An edit touched the lines from the first one to the one the cursor is on: those
/// before and behind them are as they were.
pub open spec fn touched_only(before: Area, after: Area) -> bool {
    let old = area_lines(before);
    let new = area_lines(after);
    let first = first_touched(before, after);
    let last = area_cursor(after).0;
    let behind = new.len() - 1 - last;
    &&& 0 <= first <= last < new.len()
    &&& first + behind < old.len()
    &&& new.take(first) == old.take(first)
    &&& new.skip(last + 1) == old.skip(old.len() - behind)
}

/// Replacing a stretch touches no other line.
pub proof fn replacing_touches_only(before: Area, after: Area, pieces: Seq<Seq<char>>)
    requires
        area_ok(before),
        pieces.len() > 0,
        replaced(before, after, pieces),
    ensures
        touched_only(before, after),
{
    let old = area_lines(before);
    let new = area_lines(after);
    let (from, to) = target(area_cursor(before), area_anchor(before));
    let last = area_cursor(after).0;
    assert(last == from.0 + pieces.len() - 1);
    assert(new.len() == from.0 + pieces.len() + old.len() - to.0 - 1);
    assert(new.take(from.0) =~= old.take(from.0));
    assert(new.skip(last + 1) =~= old.skip(to.0 + 1));
}

/// Deleting a stretch touches no other line.
pub proof fn rubbing_touches_only(
    before: Area,
    after: Area,
    rub: Rub,
    far: Option<(int, int)>,
)
    requires
        area_ok(before),
        rubbed(before, after, rub, far, true),
    ensures
        touched_only(before, after),
{
    let old = area_lines(before);
    let new = area_lines(after);
    let (from, to) = doomed(before, rub, far)->0;
    let first = first_touched(before, after);
    assert(new.len() == from.0 + old.len() - to.0);
    assert(new.take(from.0) =~= old.take(from.0));
    assert(new.take(first) =~= old.take(first)) by {
        assert(new.take(first) =~= new.take(from.0).take(first));
        assert(old.take(first) =~= old.take(from.0).take(first));
    }
    assert(new.skip(from.0 + 1) =~= old.skip(to.0 + 1));
}

/// What a key does to a text area, and the answer whether it changed the lines. `far`
/// is how far the key reaches.
pub open spec fn did(
    before: Area,
    after: Area,
    key: KeyPress,
    far: Option<(int, int)>,
    changed: bool,
) -> bool {
    match deed(key) {
        Deed::Write(ch) => changed && replaced(before, after, seq![seq![ch]]),
        Deed::Break => changed && replaced(
            before,
            after,
            seq![Seq::<char>::empty(), Seq::<char>::empty()],
        ),
        Deed::Indent => if area_setup(before).tab == 0 {
            rubbed(before, after, Rub::Selection, far, changed)
        } else {
            area_setup(before).tabs ==> changed && replaced(before, after, seq![seq!['\t']])
        },
        Deed::Rub(rub) => rubbed(before, after, rub, far, changed),
        Deed::Move(stride) => !changed && strode(before, after, stride, far, key.shift),
        Deed::Copy => {
            &&& !changed
            &&& area_lines(after) == area_lines(before)
            &&& area_cursor(after) == area_cursor(before)
            &&& area_anchor(after) is None
        },
        Deed::Travel => area_setup(before).kept == 0 ==> !changed && untouched(before, after),
        Deed::Paste => exists|pieces: Seq<Seq<char>>|
            pieces.len() > 0 && #[trigger] replaced(before, after, pieces) && changed == (pieces
                != seq![Seq::<char>::empty()]),
        Deed::Nothing => !changed && untouched(before, after),
    }
}

/// `TextArea::input`: a key does what the area's table of keys gives it. How far it
/// reaches by words, by paragraphs or over wide characters is only named. Left unsaid
/// is what the area has on its own clipboard for the key that pastes from it, how many
/// spaces a tab becomes, and what an area undoes that keeps edits for it.
#[verifier::external_body]
pub(crate) fn area_input(area: &mut Area, key: KeyPress) -> (changed: bool)
    requires
        area_ok(*old(area)),
    ensures
        area_ok(*final(area)),
        area_setup(*final(area)) == area_setup(*old(area)),
        did(
            *old(area),
            *final(area),
            key,
            reach(area_lines(*old(area)), area_setup(*old(area)).tab, area_cursor(*old(area)), key),
            changed,
        ),
{
    let code = match key.code {
        Key::Char(ch) => AreaKey::Char(ch), Key::Enter => AreaKey::Enter,
        Key::Esc => AreaKey::Esc, Key::Backspace => AreaKey::Backspace,
        Key::Delete => AreaKey::Delete, Key::Tab => AreaKey::Tab,
        Key::BackTab => AreaKey::Tab, Key::Up => AreaKey::Up,
        Key::Down => AreaKey::Down, Key::Left => AreaKey::Left,
        Key::Right => AreaKey::Right, Key::Home => AreaKey::Home,
        Key::End => AreaKey::End, Key::PageUp => AreaKey::PageUp,
        Key::PageDown => AreaKey::PageDown, Key::Other => AreaKey::Null,
    };
    area.inner.input(Input { key: code, ctrl: key.ctrl, alt: key.alt, shift: key.shift })
}

} // verus!

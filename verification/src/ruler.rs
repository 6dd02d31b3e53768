//! The overview ruler: the whole diff on one border, and the band of it that is
//! on screen.
use crate::diff::{DiffRow, RowKind};
use std::ops::Range;
use vstd::prelude::*;

verus! {

/// Cells the viewport band never goes below, however small a share of the file
/// is on screen.
pub const MIN_THUMB: usize = 2;

/// What one ruler cell says about the rows it stands for.
#[derive(Debug, Clone, Copy, PartialEq, Eq, Structural)]
pub enum Mark {
    Deleted,
    Added,
    Modified,
}

impl Mark {
    /// Bars, not text, so these are backgrounds: red, green and blue, muted enough to
    /// sit next to the panes without shouting, saturated enough to be findable at a
    /// glance.
    pub fn color(self) -> (rgb: (u8, u8, u8))
        ensures
            rgb == (match self {
                Mark::Deleted => (0x8fu8, 0x3du8, 0x43u8),
                Mark::Added => (0x3fu8, 0x7du8, 0x52u8),
                Mark::Modified => (0x93u8, 0x78u8, 0x30u8),
            }),
    {
        match self {
            Mark::Deleted => (0x8f, 0x3d, 0x43),
            Mark::Added => (0x3f, 0x7d, 0x52),
            Mark::Modified => (0x93, 0x78, 0x30),
        }
    }

    /// The same mark, inside the band. A mark is a background and so is the band, so
    /// they cannot both be drawn in that cell; instead the band brightens what it
    /// covers. One rule for the whole ruler: what is on screen is lighter. The hue is
    /// untouched, so a mark is still red, green or yellow first and on-screen second.
    pub fn lit(self) -> (rgb: (u8, u8, u8))
        ensures
            rgb == (match self {
                Mark::Deleted => (0xb5u8, 0x60u8, 0x66u8),
                Mark::Added => (0x6bu8, 0xa0u8, 0x7au8),
                Mark::Modified => (0xc4u8, 0xa2u8, 0x4au8),
            }),
    {
        match self {
            Mark::Deleted => (0xb5, 0x60, 0x66),
            Mark::Added => (0x6b, 0xa0, 0x7a),
            Mark::Modified => (0xc4, 0xa2, 0x4a),
        }
    }
}

/// The mark of one row, if it is changed.
pub open spec fn mark_of(kind: RowKind) -> Option<Mark> {
    match kind {
        RowKind::Equal => None,
        RowKind::Delete => Some(Mark::Deleted),
        RowKind::Insert => Some(Mark::Added),
        RowKind::Replace => Some(Mark::Modified),
    }
}

pub open spec fn span(rows: int, height: int) -> int {
    if rows >= height {
        rows
    } else {
        height
    }
}

/// The ruler cell that row `index` falls in.
pub open spec fn cell_of(index: int, rows: int, height: int) -> int {
    let cell = index * height / span(rows, height);
    if cell <= height - 1 {
        cell
    } else {
        height - 1
    }
}

/// Rows per ruler cell, as a denominator. A diff shorter than the ruler is laid
/// out one row to one cell rather than stretched over the whole column.
pub fn ruler_span(rows: usize, height: usize) -> (denominator: usize)
    ensures
        denominator == span(rows as int, height as int),
{
    if rows >= height {
        rows
    } else {
        height
    }
}

/// `a * b / c`, without a bound on the product.
fn scaled(a: usize, b: usize, c: usize) -> (q: u128)
    requires
        c > 0,
    ensures
        q == (a as int) * (b as int) / (c as int),
        (a as int) * (b as int) <= 0xffff_ffff_ffff_ffff * 0xffff_ffff_ffff_ffff,
{
    proof {
        assert((a as int) * (b as int) <= 0xffff_ffff_ffff_ffff * 0xffff_ffff_ffff_ffff
            && 0 <= (a as int) * (b as int)) by (nonlinear_arith)
            requires
                0 <= a <= 0xffff_ffff_ffff_ffff,
                0 <= b <= 0xffff_ffff_ffff_ffff,
        ;
    }
    (a as u128) * (b as u128) / (c as u128)
}

/// The quotient rounded up.
pub open spec fn ceil(a: int, b: int) -> int {
    (a + b - 1) / b
}

/// `a * b / c` rounded up, without a bound on the product.
fn scaled_up(a: usize, b: usize, c: usize) -> (q: u128)
    requires
        c > 0,
    ensures
        q == ceil((a as int) * (b as int), c as int),
{
    proof {
        assert((a as int) * (b as int) <= 0xffff_ffff_ffff_ffff * 0xffff_ffff_ffff_ffff
            && 0 <= (a as int) * (b as int)) by (nonlinear_arith)
            requires
                0 <= a <= 0xffff_ffff_ffff_ffff,
                0 <= b <= 0xffff_ffff_ffff_ffff,
        ;
    }
    ((a as u128) * (b as u128) + (c as u128) - 1) / (c as u128)
}

/// What a cell shows: nothing where no row of it is changed, one kind of change
/// where all its changed rows are of that kind, and a modification otherwise.
pub open spec fn cell_shows(
    rows: Seq<DiffRow>,
    upto: int,
    height: int,
    cell: int,
    mark: Option<Mark>,
) -> bool {
    match mark {
        None => forall|r: int|
            0 <= r < upto && cell_of(r, rows.len() as int, height) == cell ==> mark_of(
                (#[trigger] rows[r]).kind,
            ) is None,
        Some(m) => {
            let same = |k: Mark|
                forall|r: int|
                    0 <= r < upto && cell_of(r, rows.len() as int, height) == cell && mark_of(
                        (#[trigger] rows[r]).kind,
                    ) is Some ==> mark_of(rows[r].kind) == Some(k);
            &&& exists|r: int|
                0 <= r < upto && cell_of(r, rows.len() as int, height) == cell && mark_of(
                    (#[trigger] rows[r]).kind,
                ) is Some
            &&& m != Mark::Modified ==> same(m)
            &&& m == Mark::Modified ==> !same(Mark::Deleted) && !same(Mark::Added)
        },
    }
}

/// The whole diff, one entry per cell of the ruler. A cell takes the union of
/// the rows it covers rather than the first of them.
pub fn ruler_marks(rows: &[DiffRow], height: usize) -> (marks: Vec<Option<Mark>>)
    ensures
        marks@.len() == height,
        forall|cell: int|
            0 <= cell < height ==> cell_shows(
                rows@,
                rows@.len() as int,
                height as int,
                cell,
                #[trigger] marks@[cell],
            ),
{
    let mut marks: Vec<Option<Mark>> = Vec::new();
    let mut i: usize = 0;
    while i < height
        invariant
            0 <= i <= height,
            marks@.len() == i,
            forall|cell: int| 0 <= cell < i ==> #[trigger] marks@[cell] is None,
        decreases height - i,
    {
        marks.push(None);
        i += 1;
    }
    if height == 0 {
        return marks;
    }
    let denominator: usize = ruler_span(rows.len(), height);
    let mut index: usize = 0;
    while index < rows.len()
        invariant
            0 <= index <= rows@.len(),
            height > 0,
            denominator == span(rows@.len() as int, height as int),
            marks@.len() == height,
            forall|cell: int|
                0 <= cell < height ==> cell_shows(
                    rows@,
                    index as int,
                    height as int,
                    cell,
                    #[trigger] marks@[cell],
                ),
        decreases rows@.len() - index,
    {
        let mark = match rows[index].kind {
            RowKind::Equal => None,
            RowKind::Delete => Some(Mark::Deleted),
            RowKind::Insert => Some(Mark::Added),
            RowKind::Replace => Some(Mark::Modified),
        };
        let ghost before = marks@;
        let scaled_cell: u128 = scaled(index, height, denominator);
        let cell: usize = if scaled_cell <= (height - 1) as u128 {
            scaled_cell as usize
        } else {
            height - 1
        };
        proof {
            assert((index as int) * (height as int) / (denominator as int) >= 0) by (nonlinear_arith)
                requires
                    index >= 0,
                    height > 0,
                    denominator > 0,
            ;
            assert(cell == cell_of(index as int, rows@.len() as int, height as int));
        }
        if let Some(mark) = mark {
            let joined = match marks[cell] {
                Some(seen) => if seen == mark {
                    seen
                } else {
                    Mark::Modified
                },
                None => mark,
            };
            marks.set(cell, Some(joined));
        }
        proof {
            assert(mark == mark_of(rows@[index as int].kind));
            assert forall|c: int| 0 <= c < height implies cell_shows(
                rows@,
                index + 1,
                height as int,
                c,
                #[trigger] marks@[c],
            ) by {
                assert(cell_shows(rows@, index as int, height as int, c, before[c]));
                shows_step(rows@, index as int, height as int, c, before[c], marks@[c]);
            }
        }
        index += 1;
    }
    marks
}

/// One more row joins its mark to the cell it falls in.
proof fn shows_step(
    rows: Seq<DiffRow>,
    upto: int,
    height: int,
    cell: int,
    before: Option<Mark>,
    after: Option<Mark>,
)
    requires
        0 <= upto < rows.len(),
        cell_shows(rows, upto, height, cell, before),
        ({
            let mark = mark_of(rows[upto].kind);
            if mark is Some && cell_of(upto, rows.len() as int, height) == cell {
                after == Some(
                    match before {
                        Some(seen) => if Some(seen) == mark {
                            seen
                        } else {
                            Mark::Modified
                        },
                        None => mark->0,
                    },
                )
            } else {
                after == before
            }
        }),
    ensures
        cell_shows(rows, upto + 1, height, cell, after),
{
    let n = rows.len() as int;
    let mark = mark_of(rows[upto].kind);
    let hit = mark is Some && cell_of(upto, n, height) == cell;
    let has = |r: int, limit: int|
        0 <= r < limit && cell_of(r, n, height) == cell && mark_of(rows[r].kind) is Some;
    if before is Some {
        let r = choose|r: int|
            0 <= r < upto && cell_of(r, n, height) == cell && mark_of(
                (#[trigger] rows[r]).kind,
            ) is Some;
        assert(mark_of(rows[r].kind) is Some);
        if before == Some(Mark::Modified) {
            let d = choose|r: int|
                0 <= r < upto && cell_of(r, n, height) == cell && mark_of(
                    (#[trigger] rows[r]).kind,
                ) is Some && mark_of(rows[r].kind) != Some(Mark::Deleted);
            let a = choose|r: int|
                0 <= r < upto && cell_of(r, n, height) == cell && mark_of(
                    (#[trigger] rows[r]).kind,
                ) is Some && mark_of(rows[r].kind) != Some(Mark::Added);
            assert(mark_of(rows[d].kind) != Some(Mark::Deleted));
            assert(mark_of(rows[a].kind) != Some(Mark::Added));
        } else if hit && before != mark {
            assert(mark_of(rows[r].kind) == before);
            assert(mark_of(rows[upto].kind) == mark);
        }
    } else if hit {
        assert(mark_of(rows[upto].kind) is Some);
    }
}

pub open spec fn clamped(x: int, low: int, high: int) -> int {
    if x < low {
        low
    } else if x > high {
        high
    } else {
        x
    }
}

/// The cells that stand for any row.
pub open spec fn used_cells(rows: int, height: int) -> int {
    clamped(ceil(rows * height, span(rows, height)), 1, height)
}

/// The length of the band: a share of the ruler as large as the share of the
/// rows on screen, with a floor under it.
pub open spec fn thumb_cells(rows: int, height: int, viewport: int) -> int {
    let used = used_cells(rows, height);
    clamped(
        ceil(viewport * height, span(rows, height)),
        if MIN_THUMB <= used {
            MIN_THUMB as int
        } else {
            used
        },
        used,
    )
}

/// Where the band starts: at the cell of the first row on screen, or as far down
/// as leaves room for it.
pub open spec fn band_start(rows: int, height: int, scroll: int, viewport: int) -> int {
    let cell = scroll * height / span(rows, height);
    let last = used_cells(rows, height) - thumb_cells(rows, height, viewport);
    if cell <= last {
        cell
    } else {
        last
    }
}

/// The cells the rows on screen fall in. The band is the only thing that says
/// how far through a file the view is.
pub fn ruler_band(rows: usize, height: usize, scroll: usize, viewport: usize) -> (band: Range<usize>)
    ensures
        height == 0 || rows == 0 ==> band.start == 0 && band.end == 0,
        height > 0 && rows > 0 ==> {
            &&& band.start == band_start(
                rows as int,
                height as int,
                scroll as int,
                viewport as int,
            )
            &&& band.end == band.start + thumb_cells(rows as int, height as int, viewport as int)
        },
{
    if height == 0 || rows == 0 {
        return Range { start: 0, end: 0 };
    }
    let denominator: usize = ruler_span(rows, height);
    let all: u128 = scaled_up(rows, height, denominator);
    let used: usize = if all < 1 {
        1
    } else if all > height as u128 {
        height
    } else {
        all as usize
    };
    let share: u128 = scaled_up(viewport, height, denominator);
    let floor: usize = if MIN_THUMB <= used {
        MIN_THUMB
    } else {
        used
    };
    let thumb: usize = if share < floor as u128 {
        floor
    } else if share > used as u128 {
        used
    } else {
        share as usize
    };
    let cell: u128 = scaled(scroll, height, denominator);
    let last: usize = used - thumb;
    let start: usize = if cell <= last as u128 {
        cell as usize
    } else {
        last
    };
    Range { start, end: start + thumb }
}

// ---- Laws ----------------------------------------------------------------

/// Every cell that stands for a row is used, and no other: one per row while
/// there is room, the whole ruler otherwise.
proof fn used_is_the_smaller(rows: int, height: int)
    requires
        rows > 0,
        height > 0,
    ensures
        used_cells(rows, height) == (if rows <= height {
            rows
        } else {
            height
        }),
        ceil(rows * height, span(rows, height)) == used_cells(rows, height),
{
    let d = span(rows, height);
    let m = if rows <= height { rows } else { height };
    assert(rows * height == m * d) by (nonlinear_arith)
        requires
            (m == rows && d == height) || (m == height && d == rows),
    ;
    assert((m * d + d - 1) / d == m) by (nonlinear_arith)
        requires
            d > 0,
            m > 0,
    ;
}

/// The band has the same length wherever the view is, is never shorter than its
/// floor, and stays inside the cells in use.
pub proof fn the_band_stays_on_the_ruler(rows: int, height: int, scroll: int, viewport: int)
    requires
        rows > 0,
        height > 0,
        scroll >= 0,
        viewport >= 0,
    ensures
        0 <= band_start(rows, height, scroll, viewport),
        band_start(rows, height, scroll, viewport) + thumb_cells(rows, height, viewport)
            <= used_cells(rows, height) <= height,
        thumb_cells(rows, height, viewport) >= MIN_THUMB || thumb_cells(rows, height, viewport)
            == used_cells(rows, height),
        1 <= thumb_cells(rows, height, viewport),
{
    used_is_the_smaller(rows, height);
    let d = span(rows, height);
    assert(scroll * height / d >= 0) by (nonlinear_arith)
        requires
            scroll >= 0,
            height > 0,
            d > 0,
    ;
}

/// The cell that the first row on screen falls in is in the band, and the cell
/// of the last row is in it or just past its end.
pub proof fn the_band_holds_the_rows_on_screen(
    rows: int,
    height: int,
    scroll: int,
    viewport: int,
)
    requires
        height > 0,
        viewport > 0,
        scroll >= 0,
        scroll + viewport <= rows,
    ensures
        ({
            let start = band_start(rows, height, scroll, viewport);
            let end = start + thumb_cells(rows, height, viewport);
            &&& start <= cell_of(scroll, rows, height) < end
            &&& cell_of(scroll + viewport - 1, rows, height) <= end
        }),
{
    let d = span(rows, height);
    let used = used_cells(rows, height);
    let thumb = thumb_cells(rows, height, viewport);
    used_is_the_smaller(rows, height);
    the_band_stays_on_the_ruler(rows, height, scroll, viewport);
    let first = scroll * height / d;
    let last = (scroll + viewport - 1) * height / d;
    let share = ceil(viewport * height, d);
    below_used(scroll, rows, height);
    below_used(scroll + viewport - 1, rows, height);
    assert(share <= used) by {
        assert(viewport * height <= rows * height) by (nonlinear_arith)
            requires
                viewport <= rows,
                height > 0,
        ;
        vstd::arithmetic::div_mod::lemma_div_is_ordered(viewport * height + d - 1, rows * height + d - 1, d);
    }
    assert(last <= first + share) by (nonlinear_arith)
        requires
            d > 0,
            height > 0,
            first == scroll * height / d,
            last == (scroll + viewport - 1) * height / d,
            share == (viewport * height + d - 1) / d,
    ;
}

/// The cell of a row, before it is clipped to the ruler, is among those in use.
proof fn below_used(index: int, rows: int, height: int)
    requires
        0 <= index < rows,
        height > 0,
    ensures
        0 <= index * height / span(rows, height) < used_cells(rows, height),
{
    used_is_the_smaller(rows, height);
    let d = span(rows, height);
    let m = used_cells(rows, height);
    assert(rows * height == m * d) by (nonlinear_arith)
        requires
            (m == rows && d == height) || (m == height && d == rows),
    ;
    assert(0 <= index * height < m * d) by (nonlinear_arith)
        requires
            0 <= index < rows,
            height > 0,
            rows * height == m * d,
    ;
    assert(0 <= index * height / d < m) by (nonlinear_arith)
        requires
            0 <= index * height < m * d,
            d > 0,
    ;
}

/// The top of the file puts the band at the top of the ruler, and the end of the
/// file puts it at the end of the cells in use.
pub proof fn the_band_reaches_both_ends(rows: int, height: int, viewport: int)
    requires
        height > 0,
        0 < viewport <= rows,
    ensures
        band_start(rows, height, 0, viewport) == 0,
        band_start(rows, height, rows - viewport, viewport) + thumb_cells(rows, height, viewport)
            == used_cells(rows, height),
{
    let d = span(rows, height);
    let used = used_cells(rows, height);
    used_is_the_smaller(rows, height);
    the_band_stays_on_the_ruler(rows, height, 0, viewport);
    the_band_stays_on_the_ruler(rows, height, rows - viewport, viewport);
    assert(0 * height / d == 0) by (nonlinear_arith)
        requires
            d > 0,
    ;
    let first = (rows - viewport) * height / d;
    let share = ceil(viewport * height, d);
    assert(rows * height == used * d) by (nonlinear_arith)
        requires
            (used == rows && d == height) || (used == height && d == rows),
    ;
    assert(first + share >= used) by (nonlinear_arith)
        requires
            d > 0,
            rows * height == used * d,
            first == (rows - viewport) * height / d,
            share == (viewport * height + d - 1) / d,
    ;
    assert(share <= used) by {
        assert(viewport * height <= rows * height) by (nonlinear_arith)
            requires
                viewport <= rows,
                height > 0,
        ;
        vstd::arithmetic::div_mod::lemma_div_is_ordered(viewport * height + d - 1, rows * height + d - 1, d);
    }
}

/// A diff no longer than the ruler has a cell for each row. In a longer one a row is as
/// far down the ruler as it is down the diff.
pub proof fn a_row_is_as_far_down_the_ruler(row: int, rows: int, height: int)
    requires
        0 <= row < rows,
        0 < height,
    ensures
        0 <= cell_of(row, rows, height) < height,
        rows <= height ==> cell_of(row, rows, height) == row,
        rows > height ==> cell_of(row, rows, height) * rows <= row * height < (cell_of(
            row,
            rows,
            height,
        ) + 1) * rows,
{
    let d = span(rows, height);
    if rows <= height {
        assert(row * height / height == row) by (nonlinear_arith)
            requires
                height > 0,
        ;
    } else {
        let q = row * height / rows;
        assert(q * rows <= row * height < (q + 1) * rows && 0 <= q < height) by (nonlinear_arith)
            requires
                0 <= row < rows,
                0 < height,
                q == row * height / rows,
        ;
    }
}

/// Every changed row has a mark in its cell. A mark of deleted lines stands where only
/// lines were deleted, one of added lines where only lines were added, and one of both
/// wherever a line was replaced or there are lines of both kinds.
pub proof fn a_mark_tells_what_changed(
    rows: Seq<DiffRow>,
    height: int,
    cell: int,
    mark: Option<Mark>,
)
    requires
        cell_shows(rows, rows.len() as int, height, cell, mark),
    ensures
        forall|r: int|
            #![trigger rows[r]]
            0 <= r < rows.len() && cell_of(r, rows.len() as int, height) == cell ==> {
                &&& rows[r].kind == RowKind::Delete ==> mark == Some(Mark::Deleted) || mark == Some(
                    Mark::Modified,
                )
                &&& rows[r].kind == RowKind::Insert ==> mark == Some(Mark::Added) || mark == Some(
                    Mark::Modified,
                )
                &&& rows[r].kind == RowKind::Replace ==> mark == Some(Mark::Modified)
            },
        mark == Some(Mark::Deleted) ==> has_kind(rows, height, cell, RowKind::Delete),
        mark == Some(Mark::Added) ==> has_kind(rows, height, cell, RowKind::Insert),
        mark == Some(Mark::Modified) ==> has_kind(rows, height, cell, RowKind::Replace) || (
        has_kind(rows, height, cell, RowKind::Delete) && has_kind(
            rows,
            height,
            cell,
            RowKind::Insert,
        )),
{
    if mark is Some {
        let r = choose|r: int|
            0 <= r < rows.len() && cell_of(r, rows.len() as int, height) == cell && mark_of(
                (#[trigger] rows[r]).kind,
            ) is Some;
        assert(has_kind(rows, height, cell, rows[r].kind));
    }
    if mark == Some(Mark::Modified) && !has_kind(rows, height, cell, RowKind::Replace) {
        if !has_kind(rows, height, cell, RowKind::Delete) {
            assert forall|r: int|
                0 <= r < rows.len() && cell_of(r, rows.len() as int, height) == cell && mark_of(
                    (#[trigger] rows[r]).kind,
                ) is Some implies mark_of(rows[r].kind) == Some(Mark::Added) by {
                assert(has_kind(rows, height, cell, rows[r].kind));
            }
        }
        if !has_kind(rows, height, cell, RowKind::Insert) {
            assert forall|r: int|
                0 <= r < rows.len() && cell_of(r, rows.len() as int, height) == cell && mark_of(
                    (#[trigger] rows[r]).kind,
                ) is Some implies mark_of(rows[r].kind) == Some(Mark::Deleted) by {
                assert(has_kind(rows, height, cell, rows[r].kind));
            }
        }
    }
}

/// A cell stands for a row of this kind.
pub open spec fn has_kind(rows: Seq<DiffRow>, height: int, cell: int, kind: RowKind) -> bool {
    exists|r: int|
        0 <= r < rows.len() && cell_of(r, rows.len() as int, height) == cell && (
        #[trigger] rows[r]).kind == kind
}

} // verus!

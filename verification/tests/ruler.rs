use difv::diff::{DiffRow, RowKind};
use difv::ruler::{ruler_band, ruler_marks, ruler_span, Mark, MIN_THUMB};

fn rows(kinds: &[RowKind]) -> Vec<DiffRow> {
    kinds
        .iter()
        .map(|&kind| DiffRow {
            old_line: None,
            new_line: None,
            kind,
        })
        .collect()
}

/// A cell stands for every row it covers, not the first of them: the whole
/// point of an overview is that a one-line deletion in the middle of a
/// rewrite is still on it.
#[test]
fn a_ruler_cell_takes_the_union_of_what_it_covers() {
    let mut kinds = vec![RowKind::Equal; 100];
    kinds[10] = RowKind::Delete;
    for kind in &mut kinds[11..20] {
        *kind = RowKind::Insert;
    }
    let marks = ruler_marks(&rows(&kinds), 10);

    assert_eq!(marks[1], Some(Mark::Modified), "both kinds in one cell");
    assert_eq!(marks[0], None);
    assert_eq!(marks[2], None);

    // Far enough apart to land in different cells, they keep their colours.
    let mut kinds = vec![RowKind::Equal; 100];
    kinds[5] = RowKind::Delete;
    kinds[95] = RowKind::Insert;
    let marks = ruler_marks(&rows(&kinds), 10);
    assert_eq!(marks[0], Some(Mark::Deleted));
    assert_eq!(marks[9], Some(Mark::Added));
    assert!(marks[1..9].iter().all(Option::is_none), "{marks:?}");
}

#[test]
fn a_replaced_row_is_a_modification() {
    let marks = ruler_marks(&rows(&[RowKind::Equal, RowKind::Replace]), 4);
    assert_eq!(marks, vec![None, Some(Mark::Modified), None, None]);
}

/// A diff shorter than the ruler is laid out one row to one cell, so a mark
/// sits beside the row it stands for while there is room for that.
#[test]
fn a_short_diff_is_not_stretched_down_the_column() {
    let kinds = [
        RowKind::Equal,
        RowKind::Insert,
        RowKind::Equal,
        RowKind::Delete,
        RowKind::Equal,
    ];
    let marks = ruler_marks(&rows(&kinds), 40);

    assert_eq!(marks[1], Some(Mark::Added));
    assert_eq!(marks[3], Some(Mark::Deleted));
    assert_eq!(marks.iter().filter(|m| m.is_some()).count(), 2);
    assert!(marks[4..].iter().all(Option::is_none));
}

#[test]
fn an_unchanged_diff_leaves_the_border_alone() {
    assert!(
        ruler_marks(&rows(&[RowKind::Equal; 50]), 10)
            .iter()
            .all(Option::is_none)
    );
    assert!(ruler_marks(&rows(&[]), 4).iter().all(Option::is_none));
    assert!(ruler_marks(&rows(&[RowKind::Insert]), 0).is_empty());
}

/// The band is difv's only answer to "how far through am I", so it has to
/// track the view and stop where the view stops.
#[test]
fn the_band_covers_the_rows_on_screen() {
    assert_eq!(ruler_band(100, 10, 0, 20), 0..2);
    assert_eq!(ruler_band(100, 10, 50, 20), 5..7);
    // The end of the file puts the thumb against the end of the ruler.
    assert_eq!(ruler_band(100, 10, 80, 20), 8..10);
    // A diff shorter than the ruler is laid out one row to one cell, so the
    // band covers the rows that exist rather than the whole column.
    assert_eq!(ruler_band(5, 40, 0, 40), 0..5);
    assert_eq!(ruler_band(5, 40, 1, 3), 1..4);
    assert_eq!(ruler_band(0, 10, 0, 20), 0..0);
    assert_eq!(ruler_band(100, 0, 0, 20), 0..0);
}

/// Proportion alone shrinks the band toward nothing on a long file, and a
/// one-cell band reads as a stray mark rather than as where the view is.
#[test]
fn the_band_has_a_floor_under_it() {
    // Forty rows of ten thousand is a fifth of a cell, proportionally.
    assert_eq!(ruler_band(10_000, 38, 0, 40).len(), MIN_THUMB);
    assert_eq!(
        ruler_band(10_000, 38, 9_960, 40),
        36..38,
        "still reaches the end"
    );

    // Every position on the way keeps the floor and stays inside the ruler.
    for scroll in (0..=9_960).step_by(37) {
        let band = ruler_band(10_000, 38, scroll, 40);
        assert_eq!(band.len(), MIN_THUMB, "{scroll}");
        assert!(band.end <= 38, "{scroll}: {band:?}");
    }

    // A ruler with fewer cells than the floor is all band, not more.
    assert_eq!(ruler_band(500, 1, 0, 40), 0..1);
}

/// The band and the marks have to agree about where a row is, or a change
/// on screen is drawn dim while the cell above it is lit. They only do if
/// the band is positioned by the row it starts on, like the marks, rather
/// than by the fraction of the scroll travelled.
#[test]
fn the_band_holds_the_cells_the_marks_put_on_screen() {
    // The case the two coordinate systems used to disagree on: the view is
    // at row 600 of 1000, which is cell 6, and the band used to be 4..6.
    assert!(ruler_band(1000, 10, 600, 10).contains(&6));

    // A viewport can straddle one cell more than a fixed-length band can
    // cover, so the two can be one cell apart — but never further, and the
    // cell the first row on screen falls in is always banded.
    for (rows, height, viewport) in [(1000, 10, 10), (208, 22, 22), (57, 17, 9), (41, 40, 12)] {
        let span = ruler_span(rows, height);
        for scroll in 0..=rows - viewport {
            let band = ruler_band(rows, height, scroll, viewport);
            let first = scroll * height / span;
            let last = (scroll + viewport - 1) * height / span;
            assert!(band.contains(&first), "{rows}/{height}/{scroll}: {band:?}");
            assert!(
                last < band.end + 1,
                "{rows}/{height}/{scroll}: {band:?} misses {last} by more than a cell"
            );
        }
    }
}

/// A thumb that grows and shrinks as it travels is the classic symptom of
/// rounding each of its ends separately. Its length is a property of how
/// much of the file is on screen, and that does not change while scrolling.
#[test]
fn the_thumb_keeps_its_length_wherever_it_is() {
    for (rows, height, viewport) in [(208, 22, 22), (1000, 30, 25), (57, 17, 9), (41, 40, 12)] {
        let lengths: Vec<usize> = (0..=rows - viewport)
            .map(|scroll| ruler_band(rows, height, scroll, viewport).len())
            .collect();
        let first = lengths[0];
        assert!(
            lengths.iter().all(|len| *len == first),
            "{rows}/{height}/{viewport}: {lengths:?}"
        );
        assert!(first >= MIN_THUMB);

        // And it reaches both ends: the top at the top, the bottom at the
        // bottom, with nothing left over.
        let used = ruler_band(rows, height, 0, viewport);
        let end = ruler_band(rows, height, rows - viewport, viewport);
        assert_eq!(used.start, 0);
        assert_eq!(end.end, (rows * height).div_ceil(ruler_span(rows, height)));
    }
}

use difv::diff::{past, CoarseSpan, DiffModel, RowKind};
use std::time::{Duration, Instant};

fn shape(m: &DiffModel) -> Vec<(Option<usize>, Option<usize>, RowKind)> {
    m.rows
        .iter()
        .map(|r| (r.old_line, r.new_line, r.kind))
        .collect()
}

fn lines(text: &str) -> Vec<String> {
    text.lines().map(str::to_string).collect()
}

fn build(old: &str, new: &str) -> DiffModel {
    DiffModel::build(lines(old), &lines(new))
}

fn numbered(n: usize) -> Vec<String> {
    (0..n).map(|i| format!("line {i}")).collect()
}

/// 200 numbered lines with a deletion, an insertion and a change spread
/// out — the shape a positional pairing gets wrong for the whole stretch
/// between the first two, and right again after the insertion.
fn edited() -> (Vec<String>, Vec<String>) {
    let old = numbered(200);
    let mut new = old.clone();
    new.remove(20);
    new.insert(100, "inserted".into());
    new[189] = "changed".into();
    (old, new)
}

#[test]
fn a_build_that_ran_out_of_time_records_the_stretch_it_gave_up_on() {
    let (old, new) = edited();
    let m = DiffModel::build_coarse(old, &new);

    // The equal prefix and suffix are still found; the middle is one
    // positional stretch.
    assert_eq!(
        m.coarse,
        vec![CoarseSpan {
            old: 20..190,
            new: 20..190
        }]
    );
    assert_eq!(m.rows.len(), 200);
    assert_eq!(m.rows[9].kind, RowKind::Equal);
    // Drifted by the deletion, so wrong...
    assert_eq!(m.rows[50].kind, RowKind::Replace);
    // ...until the insertion cancels the drift, where equal pairs are
    // shown as equal even though Myers never confirmed them.
    assert_eq!(m.rows[150].kind, RowKind::Equal);
    for line in 0..new.len() {
        assert!(m.row_of_new_line(line).is_some(), "line {line} has no row");
    }

    // With time, the same input is fine and records nothing.
    let (old, new) = edited();
    let m = DiffModel::build(old, &new);
    assert!(m.coarse.is_empty());
    let changed = m.rows.iter().filter(|r| r.kind != RowKind::Equal).count();
    assert_eq!(changed, 3);
}

#[test]
fn insert_creates_phantom_on_the_old_side() {
    let m = build("foo\nbar\nbaz\n", "foo\nbar\nhello\nbaz\n");
    assert_eq!(
        shape(&m),
        vec![
            (Some(0), Some(0), RowKind::Equal),
            (Some(1), Some(1), RowKind::Equal),
            (None, Some(2), RowKind::Insert),
            (Some(2), Some(3), RowKind::Equal),
        ]
    );
}

#[test]
fn replace_pairs_lines_then_spills() {
    let m = build("a\n", "x\ny\n");
    assert_eq!(
        shape(&m),
        vec![
            (Some(0), Some(0), RowKind::Replace),
            (None, Some(1), RowKind::Insert),
        ]
    );
}

#[test]
fn both_sides_stay_aligned_row_for_row() {
    let new = lines("a\nX\nd\ne\n");
    let m = DiffModel::build(lines("a\nb\nc\nd\n"), &new);
    // Every row must be renderable on both sides without drifting.
    for row in &m.rows {
        assert!(row.old_line.is_some() || row.new_line.is_some());
        assert!(row.old_line.is_none_or(|i| i < m.old.len()));
        assert!(row.new_line.is_none_or(|i| i < new.len()));
    }
}

#[test]
fn hunk_navigation_walks_change_blocks() {
    let m = build("a\nb\nc\nd\ne\n", "a\nX\nc\nd\nY\n");
    assert_eq!(m.changed_row_after(0), Some(1));
    assert_eq!(m.changed_row_after(1), Some(4));
    assert_eq!(m.changed_row_after(4), None);
    assert_eq!(m.changed_row_before(4), Some(1));
}

#[test]
fn added_file_is_all_inserts() {
    let m = build("", "one\ntwo\n");
    assert_eq!(m.rows.len(), 2);
    assert!(m.rows.iter().all(|r| r.kind == RowKind::Insert));
}

#[test]
fn mapping_round_trips_a_buffer_line() {
    let m = build("foo\nbar\nbaz\n", "foo\nbar\nhello\nbaz\n");
    for line in 0..4 {
        let row = m.row_of_new_line(line).unwrap();
        assert_eq!(m.new_line_at_or_after(row), Some(line));
    }
}

#[test]
fn a_phantom_row_resolves_forward_and_then_to_the_last_line() {
    // The deleted `b` leaves a phantom row on the new side at row 1.
    let m = build("a\nb\nc\n", "a\nc\n");
    assert_eq!(m.rows[1].new_line, None);
    assert_eq!(m.new_line_at_or_after(1), Some(1));

    // Trailing deletions leave no following line at all.
    let m = build("a\nb\nc\n", "a\n");
    assert_eq!(m.new_line_at_or_after(m.rows.len() - 1), Some(0));
}

#[test]
fn mapping_follows_rows_inserted_above() {
    let before = build("a\nb\n", "a\nb\n");
    assert_eq!(before.row_of_new_line(1), Some(1));
    let after = build("a\nb\n", "a\nX\nY\nb\n");
    assert_eq!(after.row_of_new_line(3), Some(3));
    assert_eq!(after.new_line_at_or_after(3), Some(3));
}

fn far() -> Instant {
    Instant::now() + Duration::from_secs(60)
}

#[test]
fn refining_a_stretch_gives_it_the_real_diff_and_leaves_the_rest_alone() {
    let (old, new) = edited();
    let mut m = DiffModel::build_coarse(old, &new);
    let before = m.rows.clone();
    assert_eq!(m.coarse_at(100..120), Some(0));
    assert_eq!(m.coarse_at(0..20), None);
    assert_eq!(m.coarse_at(190..200), None);

    m.refine(0, 100..120, &new, far());

    // The window covered the whole stretch, so nothing is left coarse.
    assert!(m.coarse.is_empty());
    assert_eq!(m.coarse_at(0..200), None);
    // Delete, insert, replace: the same three changes the fine build finds.
    let changed = m.rows.iter().filter(|r| r.kind != RowKind::Equal).count();
    assert_eq!(changed, 3);
    // One row more than before, since the delete and the insert no longer
    // share a row with anything.
    assert_eq!(m.rows.len(), 201);
    // Rows outside the stretch are exactly what they were, shifted by that
    // one row after it.
    assert_eq!(&m.rows[..20], &before[..20]);
    assert_eq!(&m.rows[191..], &before[190..]);
    // And the map still round-trips every line.
    for line in 0..new.len() {
        let row = m.row_of_new_line(line).unwrap();
        assert_eq!(m.rows[row].new_line, Some(line));
    }
}

#[test]
fn refining_only_touches_the_window_around_the_focus() {
    // 800 changed lines in a row, far more than one window covers.
    let old = numbered(1000);
    let new: Vec<String> = old
        .iter()
        .enumerate()
        .map(|(i, l)| {
            if (100..900).contains(&i) {
                format!("{l} x")
            } else {
                l.clone()
            }
        })
        .collect();
    let mut m = DiffModel::build_coarse(old, &new);
    assert_eq!(
        m.coarse,
        vec![CoarseSpan {
            old: 100..900,
            new: 100..900
        }]
    );

    m.refine(0, 480..500, &new, far());

    // Rows 280..700 were re-diffed; what is left on either side is still
    // coarse, and the focus is no longer in a coarse stretch.
    assert_eq!(
        m.coarse,
        vec![
            CoarseSpan {
                old: 100..280,
                new: 100..280
            },
            CoarseSpan {
                old: 700..900,
                new: 700..900
            },
        ]
    );
    assert_eq!(m.rows.len(), 1000);
    assert_eq!(m.coarse_at(480..500), None);
    assert_eq!(m.coarse_at(150..170), Some(0));
    assert_eq!(m.coarse_at(890..950), Some(1));

    // A second refinement from the top of the first piece finishes it.
    m.refine(0, 100..120, &new, far());
    assert_eq!(
        m.coarse,
        vec![CoarseSpan {
            old: 700..900,
            new: 700..900
        }]
    );
}

#[test]
fn a_window_that_runs_out_of_time_stays_coarse_and_loses_nothing() {
    let (old, new) = edited();
    let mut m = DiffModel::build_coarse(old, &new);
    let before = m.rows.clone();
    let spans = m.coarse.clone();

    // A deadline that has already passed: the window's own diff bails and
    // comes back as the same coarse stretch.
    m.refine(0, 100..120, &new, past());

    assert_eq!(m.coarse, spans);
    assert_eq!(m.rows, before);
    for line in 0..new.len() {
        let row = m.row_of_new_line(line).unwrap();
        assert_eq!(m.rows[row].new_line, Some(line));
    }
}

#[test]
fn refining_from_a_focus_outside_the_stretch_does_not_panic() {
    let (old, new) = edited();
    let mut m = DiffModel::build_coarse(old, &new);

    // A stale focus, far past the stretch (rows 20..190) and past the end
    // of the file — the kind of mismatch a scroll or an edit between
    // `coarse_at` and `refine` could produce. Clamped to the stretch, this
    // is wide enough to cover it whole.
    m.refine(0, 100_000..100_010, &new, far());

    assert!(m.coarse.is_empty());
    // Every line still resolves to exactly one row.
    for line in 0..new.len() {
        let row = m.row_of_new_line(line).unwrap();
        assert_eq!(m.rows[row].new_line, Some(line));
    }
}

#[test]
fn a_bounded_rebuild_still_covers_every_line() {
    // A file that differs almost everywhere is where the deadline bites.
    let old: Vec<String> = (0..4000).map(|i| format!("old line {i}")).collect();
    let new: Vec<String> = (0..4000).map(|i| format!("new line {i}")).collect();
    let m = DiffModel::build_bounded(old.clone(), &new);

    let mut seen_old: Vec<usize> = m.rows.iter().filter_map(|r| r.old_line).collect();
    let mut seen_new: Vec<usize> = m.rows.iter().filter_map(|r| r.new_line).collect();
    seen_old.dedup();
    seen_new.dedup();
    assert_eq!(seen_old, (0..old.len()).collect::<Vec<_>>());
    assert_eq!(seen_new, (0..new.len()).collect::<Vec<_>>());
    assert_eq!(m.new_line_to_row.len(), new.len());
    assert!(m.new_line_to_row.iter().all(Option::is_some));
}

/// No row of a stretch is among no rows.
#[test]
fn an_empty_range_meets_no_coarse_stretch() {
    let (old, new) = edited();
    let m = DiffModel::build_coarse(old, &new);
    assert_eq!(m.coarse_at(100..101), Some(0));
    assert_eq!(m.coarse_at(100..100), None);
}

//! Rows of the side-by-side view, and the work of refining the stretches that
//! a bounded diff gave up on.
use crate::text::{same, views};
use similar::{capture_diff_slices_deadline, Algorithm, DiffTag};
use std::ops::Range;
use std::time::{Duration, Instant};
use vstd::prelude::*;

verus! {

/// Milliseconds a rebuild may take. It runs on every keystroke, so it is bounded
/// rather than debounced: hitting the bound coarsens the change markers, where a
/// debounce would leave the model describing a buffer that no longer exists.
/// Refining a window of a coarse stretch later runs under the same bound.
pub const BUDGET: u64 = 20;

/// Rows on each side of the viewport refined along with it, so a few scrolls'
/// worth is ready before it is seen.
pub const REFINE_MARGIN: usize = 200;

/// A Replace at least this long, in a build that ran out of time, is taken to be
/// a stretch the diff gave up on rather than a real rewrite.
pub const COARSE_MIN: usize = 32;

#[derive(Debug, Clone, Copy, PartialEq, Eq, Structural)]
pub enum RowKind {
    Equal,
    Delete,
    Insert,
    Replace,
}

/// One visual row of the side-by-side view. A `None` on either side is a
/// phantom row: the pane renders filler there so both sides stay aligned.
#[derive(Debug, Clone, Copy, PartialEq, Eq)]
pub struct DiffRow {
    pub old_line: Option<usize>,
    pub new_line: Option<usize>,
    pub kind: RowKind,
}

/// A stretch the last build ran out of time on: inside, both sides are paired
/// positionally; outside, the alignment is right.
#[derive(Debug, PartialEq, Eq)]
pub struct CoarseSpan {
    pub old: Range<usize>,
    pub new: Range<usize>,
}

impl Clone for CoarseSpan {
    fn clone(&self) -> (copy: Self)
        ensures
            copy == *self,
    {
        CoarseSpan {
            old: Range { start: self.old.start, end: self.old.end },
            new: Range { start: self.new.start, end: self.new.end },
        }
    }
}

/// What a piece of an edit script does with the lines of its two ranges.
#[derive(Debug, Clone, Copy, PartialEq, Eq, Structural)]
pub enum Tag {
    Equal,
    Delete,
    Insert,
    Replace,
}

/// One piece of an edit script: a range of lines on each side.
#[derive(Debug, PartialEq, Eq)]
pub struct Op {
    pub tag: Tag,
    pub old: Range<usize>,
    pub new: Range<usize>,
}

/// The Before side plus the row alignment. The Current side is not stored: it
/// lives in the editor buffer, which is the only copy of that text.
pub struct DiffModel {
    pub old: Vec<String>,
    pub rows: Vec<DiffRow>,
    /// Buffer line to visual row, so the cursor can be placed in one step and
    /// cannot be resolved against a mapping the last rebuild left behind.
    pub new_line_to_row: Vec<Option<usize>>,
    /// Stretches still waiting for a real diff, in row order.
    pub coarse: Vec<CoarseSpan>,
}

/// A reading of the monotonic clock.
#[verifier::external_type_specification]
#[verifier::external_body]
pub struct ExInstant(Instant);

// ---- What the rows say -------------------------------------------------

pub open spec fn larger(a: int, b: int) -> int {
    if a >= b {
        a
    } else {
        b
    }
}

/// The line a side has at offset `i` of the range `start..end`, if it reaches
/// that far.
pub open spec fn line_in(start: int, end: int, i: int) -> Option<usize> {
    if start + i < end {
        Some((start + i) as usize)
    } else {
        None
    }
}

/// The row that shows the given lines: two equal lines are drawn as equal, two
/// different ones as a replacement, one line alone as a deletion or insertion.
pub open spec fn row_of(
    old_line: Option<usize>,
    new_line: Option<usize>,
    old: Seq<Seq<char>>,
    new: Seq<Seq<char>>,
) -> DiffRow {
    DiffRow {
        old_line,
        new_line,
        kind: match (old_line, new_line) {
            (Some(o), Some(n)) => if old[o as int] == new[n as int] {
                RowKind::Equal
            } else {
                RowKind::Replace
            },
            (Some(_), None) => RowKind::Delete,
            (None, _) => RowKind::Insert,
        },
    }
}

/// The lines of two ranges put opposite each other, the longer side spilling
/// into phantom-backed rows.
pub open spec fn paired(
    o0: int,
    o1: int,
    n0: int,
    n1: int,
    old: Seq<Seq<char>>,
    new: Seq<Seq<char>>,
) -> Seq<DiffRow> {
    Seq::new(
        larger(o1 - o0, n1 - n0) as nat,
        |i: int| row_of(line_in(o0, o1, i), line_in(n0, n1, i), old, new),
    )
}

/// The rows lead from line `o0`/`n0` of the two sides to `o1`/`n1`: each row
/// takes the next line of one side or of both, and no line is left out or taken
/// twice.
pub open spec fn walks(rows: Seq<DiffRow>, o0: int, n0: int, o1: int, n1: int) -> bool
    decreases rows.len(),
{
    if rows.len() == 0 {
        o0 == o1 && n0 == n1
    } else {
        let row = rows.last();
        let o = if row.old_line is Some {
            o1 - 1
        } else {
            o1
        };
        let n = if row.new_line is Some {
            n1 - 1
        } else {
            n1
        };
        &&& row.old_line is Some || row.new_line is Some
        &&& row.old_line is Some ==> row.old_line->0 == o
        &&& row.new_line is Some ==> row.new_line->0 == n
        &&& walks(rows.drop_last(), o0, n0, o, n)
    }
}

/// Each row is the one that shows its lines.
pub open spec fn drawn(rows: Seq<DiffRow>, old: Seq<Seq<char>>, new: Seq<Seq<char>>) -> bool {
    forall|i: int|
        0 <= i < rows.len() ==> #[trigger] rows[i] == row_of(
            rows[i].old_line,
            rows[i].new_line,
            old,
            new,
        )
}

/// The rows align the whole of both sides.
pub open spec fn aligned(rows: Seq<DiffRow>, old: Seq<Seq<char>>, new: Seq<Seq<char>>) -> bool {
    &&& walks(rows, 0, 0, old.len() as int, new.len() as int)
    &&& drawn(rows, old, new)
}

/// A piece of an edit script is what its tag says: equal lines, lines of one
/// side only, or lines of both sides.
pub open spec fn op_fits(op: Op, old: Seq<Seq<char>>, new: Seq<Seq<char>>) -> bool {
    &&& op.old.start <= op.old.end <= old.len()
    &&& op.new.start <= op.new.end <= new.len()
    &&& match op.tag {
        Tag::Equal => {
            &&& op.old.start < op.old.end
            &&& op.old.end - op.old.start == op.new.end - op.new.start
            &&& forall|i: int|
                0 <= i < op.old.end - op.old.start ==> #[trigger] old[op.old.start + i]
                    == new[op.new.start + i]
        },
        Tag::Delete => op.old.start < op.old.end && op.new.start == op.new.end,
        Tag::Insert => op.old.start == op.old.end && op.new.start < op.new.end,
        Tag::Replace => op.old.start < op.old.end && op.new.start < op.new.end,
    }
}

/// The pieces follow each other without a gap, up to line `o1` of the old side
/// and line `n1` of the new.
pub open spec fn script_to(
    ops: Seq<Op>,
    o1: int,
    n1: int,
    old: Seq<Seq<char>>,
    new: Seq<Seq<char>>,
) -> bool
    decreases ops.len(),
{
    if ops.len() == 0 {
        o1 == 0 && n1 == 0
    } else {
        let op = ops.last();
        &&& op_fits(op, old, new)
        &&& op.old.end == o1
        &&& op.new.end == n1
        &&& script_to(ops.drop_last(), op.old.start as int, op.new.start as int, old, new)
    }
}

/// An edit script from `old` to `new`.
pub open spec fn script(ops: Seq<Op>, old: Seq<Seq<char>>, new: Seq<Seq<char>>) -> bool {
    script_to(ops, old.len() as int, new.len() as int, old, new)
}

/// The rows of an edit script between two stretches of lines that start at
/// `oo` and `no`.
pub open spec fn rows_of_ops(
    ops: Seq<Op>,
    old: Seq<Seq<char>>,
    new: Seq<Seq<char>>,
    oo: int,
    no: int,
) -> Seq<DiffRow>
    decreases ops.len(),
{
    if ops.len() == 0 {
        Seq::empty()
    } else {
        let op = ops.last();
        rows_of_ops(ops.drop_last(), old, new, oo, no) + paired(
            op.old.start + oo,
            op.old.end + oo,
            op.new.start + no,
            op.new.end + no,
            old,
            new,
        )
    }
}

/// A piece long enough to be a stretch that the diff gave up on.
pub open spec fn gave_up(op: Op) -> bool {
    op.tag == Tag::Replace && (op.old.end - op.old.start) + (op.new.end - op.new.start)
        >= COARSE_MIN
}

/// The stretches of an edit script that a build which ran out of time gave up
/// on, as line numbers of the whole sides.
pub open spec fn spans_of_ops(ops: Seq<Op>, oo: int, no: int) -> Seq<(int, int, int, int)>
    decreases ops.len(),
{
    if ops.len() == 0 {
        Seq::empty()
    } else {
        let op = ops.last();
        let before = spans_of_ops(ops.drop_last(), oo, no);
        if gave_up(op) {
            before.push((op.old.start + oo, op.old.end + oo, op.new.start + no, op.new.end + no))
        } else {
            before
        }
    }
}

/// The bounds of a stretch: old start and end, new start and end.
pub open spec fn bounds(span: CoarseSpan) -> (int, int, int, int) {
    (span.old.start as int, span.old.end as int, span.new.start as int, span.new.end as int)
}

pub open spec fn all_bounds(spans: Seq<CoarseSpan>) -> Seq<(int, int, int, int)> {
    Seq::new(spans.len(), |i: int| bounds(spans[i]))
}

// ---- Reading the clock and diffing -------------------------------------

/// What `similar` answers for two lists of lines when it has all the time it
/// wants: the edit script of its Myers diff.
pub uninterp spec fn myers(old: Seq<Seq<char>>, new: Seq<Seq<char>>) -> Seq<Op>;

/// `similar::capture_diff_slices_deadline` with `Algorithm::Myers`. Whatever the
/// clock does, the pieces that come back tile both sides in order and each is
/// what its tag says; without a deadline they depend on the lines alone. With a
/// deadline, which of the valid scripts comes back is left open.
#[verifier::external_body]
fn capture(old: &[String], new: &[String], deadline: Option<Instant>) -> (ops: Vec<Op>)
    ensures
        script(ops@, views(old@), views(new@)),
        deadline is None ==> ops@ == myers(views(old@), views(new@)),
{
    capture_diff_slices_deadline(Algorithm::Myers, old, new, deadline)
        .iter()
        .map(|op| match op.as_tag_tuple() {
            (DiffTag::Equal, old, new) => Op { tag: Tag::Equal, old, new },
            (DiffTag::Delete, old, new) => Op { tag: Tag::Delete, old, new },
            (DiffTag::Insert, old, new) => Op { tag: Tag::Insert, old, new },
            (DiffTag::Replace, old, new) => Op { tag: Tag::Replace, old, new },
        })
        .collect()
}

/// `Instant::now`: a reading of the clock, of which nothing can be said.
pub assume_specification[ Instant::now ]() -> (reading: Instant)
;

/// `Duration::from_secs`: a number of seconds.
pub assume_specification[ Duration::from_secs ](secs: u64) -> (duration: Duration)
;

/// `Instant::checked_sub`: the instant that is so long before, where the clock goes
/// back that far.
pub assume_specification[ Instant::checked_sub ](
    instant: &Instant,
    duration: Duration,
) -> (earlier: Option<Instant>)
;

/// `Instant::checked_add` with a number of milliseconds.
#[verifier::external_body]
fn after(instant: Instant, millis: u64) -> Option<Instant> {
    instant.checked_add(Duration::from_millis(millis))
}

/// `Instant::gt`: whether one reading is later than another.
#[verifier::external_body]
fn later(a: Instant, b: Instant) -> bool {
    a > b
}

/// The clock gave this reading.
pub open spec fn is_reading(reading: Instant) -> bool {
    call_ensures(Instant::now, (), reading)
}

/// What came of going back from a reading by a number of seconds: the instant that
/// long before, or nothing where the clock does not go back that far.
pub open spec fn goes_back(reading: Instant, secs: u64, earlier: Option<Instant>) -> bool {
    exists|duration: Duration|
        call_ensures(Duration::from_secs, (secs,), duration) && #[trigger] call_ensures(
            Instant::checked_sub,
            (&reading, duration),
            earlier,
        )
}

/// One second before a reading of the clock, or a second reading where the clock
/// does not go back that far.
pub open spec fn second_before(reading: Instant, instant: Instant) -> bool {
    &&& is_reading(reading)
    &&& goes_back(reading, 1, Some(instant)) || (goes_back(reading, 1, None) && is_reading(instant))
}

/// A reading of the clock and the answer whether it is later than a deadline.
pub closed spec fn tells_time(at: Instant, deadline: Instant, ran_out: bool) -> bool {
    is_reading(at) && call_ensures(later, (at, deadline), ran_out)
}

/// A reading of the clock and the answer whether a deadline is later than it.
pub closed spec fn has_time(at: Instant, deadline: Instant, left: bool) -> bool {
    is_reading(at) && call_ensures(later, (deadline, at), left)
}

/// What came of going on from a reading by a number of milliseconds: the instant that
/// long after, or nothing where the clock does not go that far.
pub closed spec fn goes_on(reading: Instant, millis: u64, later: Option<Instant>) -> bool {
    call_ensures(after, (reading, millis), later)
}

/// A deadline a number of milliseconds from a reading of the clock, or none where the
/// clock does not go that far.
pub open spec fn due(millis: u64, deadline: Option<Instant>) -> bool {
    exists|reading: Instant| is_reading(reading) && #[trigger] goes_on(reading, millis, deadline)
}

/// An edit script that the diff of two lists of lines gave under a deadline.
pub closed spec fn captured(
    old: Seq<Seq<char>>,
    new: Seq<Seq<char>>,
    deadline: Option<Instant>,
    ops: Seq<Op>,
) -> bool {
    exists|before: &[String], after: &[String], found: Vec<Op>|
        views(before@) == old && views(after@) == new && found@ == ops && #[trigger] call_ensures(
            capture,
            (before, after, deadline),
            found,
        )
}

/// An edit script that the diff of two lists of lines gave under a deadline, and
/// whether the deadline had passed by then.
pub open spec fn timed(
    old: Seq<Seq<char>>,
    new: Seq<Seq<char>>,
    deadline: Option<Instant>,
    ops: Seq<Op>,
    ran_out: bool,
) -> bool {
    &&& captured(old, new, deadline, ops)
    &&& deadline is Some ==> exists|at: Instant| tells_time(at, deadline->0, ran_out)
    &&& deadline is None ==> !ran_out
}

/// Whether the deadline is over, by a new reading of the clock.
fn over(deadline: Instant) -> (ran_out: bool)
    ensures
        exists|at: Instant| tells_time(at, deadline, ran_out),
{
    let at = Instant::now();
    let ran_out = later(at, deadline);
    assert(tells_time(at, deadline, ran_out));
    ran_out
}

/// Whether there is time left until the deadline, by a new reading of the clock.
pub fn in_time(deadline: Instant) -> (left: bool)
    ensures
        exists|at: Instant| has_time(at, deadline, left),
{
    let at = Instant::now();
    let left = later(deadline, at);
    assert(has_time(at, deadline, left));
    left
}

/// The instant a number of milliseconds from now, where the clock goes that far.
pub fn deadline_in(millis: u64) -> (deadline: Option<Instant>)
    ensures
        due(millis, deadline),
{
    let reading = Instant::now();
    let deadline = after(reading, millis);
    assert(is_reading(reading));
    assert(goes_on(reading, millis, deadline));
    deadline
}

/// The edit script of two lists of lines under a deadline.
fn captured_ops(old: &[String], new: &[String], deadline: Option<Instant>) -> (ops: Vec<Op>)
    ensures
        script(ops@, views(old@), views(new@)),
        captured(views(old@), views(new@), deadline, ops@),
        deadline is None ==> ops@ == myers(views(old@), views(new@)),
{
    let ops = capture(old, new, deadline);
    assert(call_ensures(capture, (old, new, deadline), ops));
    ops
}

// ---- Facts about alignments ---------------------------------------------

/// One alignment continued by another is an alignment of the whole way.
pub proof fn walks_concat(
    a: Seq<DiffRow>,
    b: Seq<DiffRow>,
    o0: int,
    n0: int,
    o1: int,
    n1: int,
    o2: int,
    n2: int,
)
    requires
        walks(a, o0, n0, o1, n1),
        walks(b, o1, n1, o2, n2),
    ensures
        walks(a + b, o0, n0, o2, n2),
    decreases b.len(),
{
    if b.len() == 0 {
        assert(a + b == a);
    } else {
        let row = b.last();
        let o = if row.old_line is Some { o2 - 1 } else { o2 };
        let n = if row.new_line is Some { n2 - 1 } else { n2 };
        walks_concat(a, b.drop_last(), o0, n0, o1, n1, o, n);
        assert((a + b).drop_last() == a + b.drop_last());
        assert((a + b).last() == row);
    }
}

/// Where an alignment stands after its first `at` rows.
pub open spec fn reached(rows: Seq<DiffRow>, o1: int, n1: int, at: int) -> (int, int)
    decreases rows.len(),
{
    if rows.len() <= at || rows.len() == 0 {
        (o1, n1)
    } else {
        let row = rows.last();
        reached(
            rows.drop_last(),
            if row.old_line is Some { o1 - 1 } else { o1 },
            if row.new_line is Some { n1 - 1 } else { n1 },
            at,
        )
    }
}

/// An alignment can be cut at any row into two.
proof fn walks_split(rows: Seq<DiffRow>, o0: int, n0: int, o1: int, n1: int, at: int)
    requires
        walks(rows, o0, n0, o1, n1),
        0 <= at <= rows.len(),
    ensures
        ({
            let (o, n) = reached(rows, o1, n1, at);
            &&& walks(rows.take(at), o0, n0, o, n)
            &&& walks(rows.skip(at), o, n, o1, n1)
        }),
    decreases rows.len(),
{
    if rows.len() == at {
        assert(rows.take(at) == rows);
        assert(rows.skip(at).len() == 0);
    } else {
        let row = rows.last();
        let o = if row.old_line is Some { o1 - 1 } else { o1 };
        let n = if row.new_line is Some { n1 - 1 } else { n1 };
        walks_split(rows.drop_last(), o0, n0, o, n, at);
        assert(rows.drop_last().take(at) == rows.take(at));
        assert(rows.skip(at).drop_last() == rows.drop_last().skip(at));
        assert(rows.skip(at).last() == row);
    }
}

/// The lines that an alignment shows lie between its ends.
proof fn walks_bounds(rows: Seq<DiffRow>, o0: int, n0: int, o1: int, n1: int)
    requires
        walks(rows, o0, n0, o1, n1),
    ensures
        o0 <= o1,
        n0 <= n1,
        rows.len() <= (o1 - o0) + (n1 - n0),
        forall|i: int| #![trigger rows[i]] 0 <= i < rows.len() ==> {
            &&& rows[i].old_line is Some || rows[i].new_line is Some
            &&& rows[i].old_line is Some ==> o0 <= rows[i].old_line->0 < o1
            &&& rows[i].new_line is Some ==> n0 <= rows[i].new_line->0 < n1
        },
    decreases rows.len(),
{
    if rows.len() > 0 {
        let row = rows.last();
        let o = if row.old_line is Some { o1 - 1 } else { o1 };
        let n = if row.new_line is Some { n1 - 1 } else { n1 };
        walks_bounds(rows.drop_last(), o0, n0, o, n);
        assert forall|i: int| #![trigger rows[i]] 0 <= i < rows.len() implies {
            &&& rows[i].old_line is Some || rows[i].new_line is Some
            &&& rows[i].old_line is Some ==> o0 <= rows[i].old_line->0 < o1
            &&& rows[i].new_line is Some ==> n0 <= rows[i].new_line->0 < n1
        } by {
            if i < rows.len() - 1 {
                assert(rows[i] == rows.drop_last()[i]);
            }
        }
    }
}

/// Lines of either side appear in ascending order, each once.
pub proof fn walks_ascend(rows: Seq<DiffRow>, o0: int, n0: int, o1: int, n1: int)
    requires
        walks(rows, o0, n0, o1, n1),
    ensures
        forall|i: int, j: int|
            #![trigger rows[i], rows[j]]
            0 <= i < j < rows.len() && rows[i].old_line is Some && rows[j].old_line is Some
                ==> rows[i].old_line->0 < rows[j].old_line->0,
        forall|i: int, j: int|
            #![trigger rows[i], rows[j]]
            0 <= i < j < rows.len() && rows[i].new_line is Some && rows[j].new_line is Some
                ==> rows[i].new_line->0 < rows[j].new_line->0,
    decreases rows.len(),
{
    if rows.len() > 0 {
        let row = rows.last();
        let o = if row.old_line is Some { o1 - 1 } else { o1 };
        let n = if row.new_line is Some { n1 - 1 } else { n1 };
        let init = rows.drop_last();
        walks_ascend(init, o0, n0, o, n);
        walks_bounds(init, o0, n0, o, n);
        assert(forall|i: int| 0 <= i < init.len() ==> #[trigger] rows[i] == init[i]);
    }
}

/// The row that shows new line `line`.
proof fn walks_finds_new(rows: Seq<DiffRow>, o0: int, n0: int, o1: int, n1: int, line: int) -> (at:
    int)
    requires
        walks(rows, o0, n0, o1, n1),
        n0 <= line < n1,
    ensures
        0 <= at < rows.len(),
        rows[at].new_line is Some,
        rows[at].new_line->0 == line,
    decreases rows.len(),
{
    let row = rows.last();
    let o = if row.old_line is Some { o1 - 1 } else { o1 };
    let n = if row.new_line is Some { n1 - 1 } else { n1 };
    if row.new_line is Some && line == n1 - 1 {
        rows.len() - 1
    } else {
        walks_finds_new(rows.drop_last(), o0, n0, o, n, line)
    }
}

/// The row that shows old line `line`.
proof fn walks_finds_old(rows: Seq<DiffRow>, o0: int, n0: int, o1: int, n1: int, line: int) -> (at:
    int)
    requires
        walks(rows, o0, n0, o1, n1),
        o0 <= line < o1,
    ensures
        0 <= at < rows.len(),
        rows[at].old_line is Some,
        rows[at].old_line->0 == line,
    decreases rows.len(),
{
    let row = rows.last();
    let o = if row.old_line is Some { o1 - 1 } else { o1 };
    let n = if row.new_line is Some { n1 - 1 } else { n1 };
    if row.old_line is Some && line == o1 - 1 {
        rows.len() - 1
    } else {
        walks_finds_old(rows.drop_last(), o0, n0, o, n, line)
    }
}

/// Pairing two ranges walks from their starts to their ends.
proof fn paired_walks(
    o0: int,
    o1: int,
    n0: int,
    n1: int,
    old: Seq<Seq<char>>,
    new: Seq<Seq<char>>,
)
    requires
        0 <= o0 <= o1 <= usize::MAX,
        0 <= n0 <= n1 <= usize::MAX,
    ensures
        walks(paired(o0, o1, n0, n1, old, new), o0, n0, o1, n1),
        drawn(paired(o0, o1, n0, n1, old, new), old, new),
    decreases larger(o1 - o0, n1 - n0),
{
    let rows = paired(o0, o1, n0, n1, old, new);
    if rows.len() > 0 {
        let o = if o1 - o0 >= n1 - n0 { o1 - 1 } else { o1 };
        let n = if n1 - n0 >= o1 - o0 { n1 - 1 } else { n1 };
        paired_walks(o0, o, n0, n, old, new);
        assert(rows.drop_last() == paired(o0, o, n0, n, old, new));
    }
}

/// The rows of an edit script walk as far as the script goes, and each shows
/// its lines.
proof fn ops_walk(
    ops: Seq<Op>,
    o1: int,
    n1: int,
    part_old: Seq<Seq<char>>,
    part_new: Seq<Seq<char>>,
    old: Seq<Seq<char>>,
    new: Seq<Seq<char>>,
    oo: int,
    no: int,
)
    requires
        script_to(ops, o1, n1, part_old, part_new),
        0 <= oo,
        0 <= no,
        oo + part_old.len() <= usize::MAX,
        no + part_new.len() <= usize::MAX,
    ensures
        walks(rows_of_ops(ops, old, new, oo, no), oo, no, oo + o1, no + n1),
        drawn(rows_of_ops(ops, old, new, oo, no), old, new),
    decreases ops.len(),
{
    if ops.len() > 0 {
        let op = ops.last();
        ops_walk(
            ops.drop_last(),
            op.old.start as int,
            op.new.start as int,
            part_old,
            part_new,
            old,
            new,
            oo,
            no,
        );
        paired_walks(op.old.start + oo, op.old.end + oo, op.new.start + no, op.new.end + no, old, new);
        walks_concat(
            rows_of_ops(ops.drop_last(), old, new, oo, no),
            paired(
                op.old.start + oo,
                op.old.end + oo,
                op.new.start + no,
                op.new.end + no,
                old,
                new,
            ),
            oo,
            no,
            op.old.start + oo,
            op.new.start + no,
            op.old.end + oo,
            op.new.end + no,
        );
    }
}

/// An alignment starts at the lines it shows first.
proof fn walks_first(rows: Seq<DiffRow>, o0: int, n0: int, o1: int, n1: int)
    requires
        walks(rows, o0, n0, o1, n1),
        rows.len() > 0,
    ensures
        rows[0].old_line is Some ==> rows[0].old_line->0 == o0,
        rows[0].new_line is Some ==> rows[0].new_line->0 == n0,
    decreases rows.len(),
{
    let row = rows.last();
    let o = if row.old_line is Some { o1 - 1 } else { o1 };
    let n = if row.new_line is Some { n1 - 1 } else { n1 };
    if rows.len() > 1 {
        walks_first(rows.drop_last(), o0, n0, o, n);
        assert(rows.drop_last()[0] == rows[0]);
    } else {
        assert(walks(rows.drop_last(), o0, n0, o, n));
    }
}

/// The rows and the start of an alignment fix where it ends.
proof fn walks_end(rows: Seq<DiffRow>, o0: int, n0: int, o1: int, n1: int, o2: int, n2: int)
    requires
        walks(rows, o0, n0, o1, n1),
        walks(rows, o0, n0, o2, n2),
    ensures
        o1 == o2,
        n1 == n2,
    decreases rows.len(),
{
    if rows.len() > 0 {
        let row = rows.last();
        walks_end(
            rows.drop_last(),
            o0,
            n0,
            if row.old_line is Some { o1 - 1 } else { o1 },
            if row.new_line is Some { n1 - 1 } else { n1 },
            if row.old_line is Some { o2 - 1 } else { o2 },
            if row.new_line is Some { n2 - 1 } else { n2 },
        );
    }
}

/// The rows from `at` on pair the two sides of the stretch `b`.
pub open spec fn span_at(
    rows: Seq<DiffRow>,
    b: (int, int, int, int),
    at: int,
    old: Seq<Seq<char>>,
    new: Seq<Seq<char>>,
) -> bool {
    let len = larger(b.1 - b.0, b.3 - b.2);
    &&& 0 <= at
    &&& at + len <= rows.len()
    &&& rows.subrange(at, at + len) == paired(b.0, b.1, b.2, b.3, old, new)
}

/// The stretch `b` is drawn as pairs somewhere among the rows.
pub open spec fn placed(
    rows: Seq<DiffRow>,
    b: (int, int, int, int),
    old: Seq<Seq<char>>,
    new: Seq<Seq<char>>,
) -> bool {
    exists|at: int| span_at(rows, b, at, old, new)
}

/// The stretches lie between the two ends, follow each other, have lines on
/// both sides, and are drawn as pairs.
pub open spec fn spans_fit(
    spans: Seq<(int, int, int, int)>,
    rows: Seq<DiffRow>,
    o0: int,
    n0: int,
    o1: int,
    n1: int,
    old: Seq<Seq<char>>,
    new: Seq<Seq<char>>,
) -> bool {
    &&& forall|k: int|
        0 <= k < spans.len() ==> {
            let b = #[trigger] spans[k];
            o0 <= b.0 < b.1 <= o1 && n0 <= b.2 < b.3 <= n1
        }
    &&& forall|j: int, k: int|
        #![trigger spans[j], spans[k]]
        0 <= j < k < spans.len() ==> spans[j].1 <= spans[k].0 && spans[j].3 <= spans[k].2
    &&& forall|k: int| 0 <= k < spans.len() ==> placed(rows, #[trigger] spans[k], old, new)
}

/// Stretches of two alignments, one after the other, are stretches of the whole.
proof fn spans_concat(
    a: Seq<(int, int, int, int)>,
    b: Seq<(int, int, int, int)>,
    ra: Seq<DiffRow>,
    rb: Seq<DiffRow>,
    o0: int,
    n0: int,
    o1: int,
    n1: int,
    o2: int,
    n2: int,
    old: Seq<Seq<char>>,
    new: Seq<Seq<char>>,
)
    requires
        o0 <= o1 <= o2,
        n0 <= n1 <= n2,
        spans_fit(a, ra, o0, n0, o1, n1, old, new),
        spans_fit(b, rb, o1, n1, o2, n2, old, new),
    ensures
        spans_fit(a + b, ra + rb, o0, n0, o2, n2, old, new),
{
    let all = a + b;
    let rows = ra + rb;
    assert forall|k: int| 0 <= k < all.len() implies placed(
        rows,
        #[trigger] all[k],
        old,
        new,
    ) by {
        if k < a.len() {
            assert(placed(ra, a[k], old, new));
            let at = choose|at: int| span_at(ra, a[k], at, old, new);
            assert(span_at(ra, a[k], at, old, new));
            let len = larger(a[k].1 - a[k].0, a[k].3 - a[k].2);
            assert(rows.subrange(at, at + len) == ra.subrange(at, at + len));
            assert(span_at(rows, all[k], at, old, new));
        } else {
            let s = b[k - a.len()];
            assert(placed(rb, s, old, new));
            let at = choose|at: int| span_at(rb, s, at, old, new);
            assert(span_at(rb, s, at, old, new));
            let len = larger(s.1 - s.0, s.3 - s.2);
            assert(rows.subrange(at + ra.len(), at + ra.len() + len) == rb.subrange(at, at + len));
            assert(span_at(rows, all[k], at + ra.len(), old, new));
        }
    }
    assert forall|j: int, k: int|
        #![trigger all[j], all[k]]
        0 <= j < k < all.len() implies all[j].1 <= all[k].0 && all[j].3 <= all[k].2 by {
        if j < a.len() {
            assert(all[j] == a[j]);
        } else {
            assert(all[j] == b[j - a.len()]);
        }
        if k < a.len() {
            assert(all[k] == a[k]);
        } else {
            assert(all[k] == b[k - a.len()]);
        }
    }
    assert forall|k: int| 0 <= k < all.len() implies {
        let s = #[trigger] all[k];
        o0 <= s.0 < s.1 <= o2 && n0 <= s.2 < s.3 <= n2
    } by {
        if k < a.len() {
            assert(all[k] == a[k]);
        } else {
            assert(all[k] == b[k - a.len()]);
        }
    }
}

/// A stretch alone, drawn as pairs, is a stretch of its own rows.
proof fn span_alone(b: (int, int, int, int), old: Seq<Seq<char>>, new: Seq<Seq<char>>)
    requires
        0 <= b.0 < b.1 <= usize::MAX,
        0 <= b.2 < b.3 <= usize::MAX,
    ensures
        spans_fit(
            seq![b],
            paired(b.0, b.1, b.2, b.3, old, new),
            b.0,
            b.2,
            b.1,
            b.3,
            old,
            new,
        ),
{
    let rows = paired(b.0, b.1, b.2, b.3, old, new);
    assert(rows.subrange(0, rows.len() as int) == rows);
    assert(span_at(rows, b, 0, old, new));
    assert(placed(rows, b, old, new));
}

/// The stretches that a script gave up on are drawn as pairs in its rows.
proof fn ops_spans(
    ops: Seq<Op>,
    o1: int,
    n1: int,
    part_old: Seq<Seq<char>>,
    part_new: Seq<Seq<char>>,
    old: Seq<Seq<char>>,
    new: Seq<Seq<char>>,
    oo: int,
    no: int,
)
    requires
        script_to(ops, o1, n1, part_old, part_new),
        0 <= oo,
        0 <= no,
        oo + part_old.len() <= usize::MAX,
        no + part_new.len() <= usize::MAX,
    ensures
        0 <= o1,
        0 <= n1,
        spans_fit(
            spans_of_ops(ops, oo, no),
            rows_of_ops(ops, old, new, oo, no),
            oo,
            no,
            oo + o1,
            no + n1,
            old,
            new,
        ),
    decreases ops.len(),
{
    if ops.len() > 0 {
        let op = ops.last();
        let o = op.old.start as int;
        let n = op.new.start as int;
        ops_spans(ops.drop_last(), o, n, part_old, part_new, old, new, oo, no);
        let b = (op.old.start + oo, op.old.end + oo, op.new.start + no, op.new.end + no);
        let mine = paired(b.0, b.1, b.2, b.3, old, new);
        let before = spans_of_ops(ops.drop_last(), oo, no);
        let rest = rows_of_ops(ops.drop_last(), old, new, oo, no);
        if gave_up(op) {
            span_alone(b, old, new);
            spans_concat(
                before,
                seq![b],
                rest,
                mine,
                oo,
                no,
                oo + o,
                no + n,
                oo + o1,
                no + n1,
                old,
                new,
            );
            assert(before + seq![b] == before.push(b));
        } else {
            let none = Seq::<(int, int, int, int)>::empty();
            spans_concat(
                before,
                none,
                rest,
                mine,
                oo,
                no,
                oo + o,
                no + n,
                oo + o1,
                no + n1,
                old,
                new,
            );
            assert(before + none == before);
        }
    }
}

/// A stretch sits at the row that shows its first new line, and cuts the
/// alignment in three.
#[verifier::spinoff_prover]
proof fn span_found(
    b: (int, int, int, int),
    rows: Seq<DiffRow>,
    o1: int,
    n1: int,
    old: Seq<Seq<char>>,
    new: Seq<Seq<char>>,
    at: int,
)
    requires
        walks(rows, 0, 0, o1, n1),
        o1 <= usize::MAX,
        n1 <= usize::MAX,
        0 <= b.0 < b.1 <= o1,
        0 <= b.2 < b.3 <= n1,
        placed(rows, b, old, new),
        0 <= at < rows.len(),
        rows[at].new_line is Some,
        rows[at].new_line->0 == b.2,
    ensures
        span_at(rows, b, at, old, new),
        rows[at].old_line == Some(b.0 as usize),
        ({
            let end = at + larger(b.1 - b.0, b.3 - b.2);
            &&& walks(rows.take(at), 0, 0, b.0, b.2)
            &&& walks(rows.skip(end), b.1, b.3, o1, n1)
            &&& rows[end - 1].old_line == Some((b.1 - 1) as usize) || rows[end - 1].new_line
                == Some((b.3 - 1) as usize)
        }),
{
    let len = larger(b.1 - b.0, b.3 - b.2);
    let end = at + len;
    let r = choose|r: int| span_at(rows, b, r, old, new);
    let mine = paired(b.0, b.1, b.2, b.3, old, new);
    assert(rows.subrange(r, r + len)[0] == mine[0]);
    assert(rows[r].new_line == Some(b.2 as usize));
    assert(r == at) by {
        walks_ascend(rows, 0, 0, o1, n1);
    }
    assert(rows.subrange(at, end)[len - 1] == mine[len - 1]);
    walks_split(rows, 0, 0, o1, n1, at);
    let (o, n) = reached(rows, o1, n1, at);
    walks_first(rows.skip(at), o, n, o1, n1);
    walks_split(rows.skip(at), b.0, b.2, o1, n1, len);
    assert(rows.skip(at).take(len) == mine);
    assert(rows.skip(at).skip(len) == rows.skip(end));
    let (oe, ne) = reached(rows.skip(at), o1, n1, len);
    paired_walks(b.0, b.1, b.2, b.3, old, new);
    walks_end(mine, b.0, b.2, oe, ne, b.1, b.3);
}

/// A stretch that ends before a row that shows both sides is drawn above it.
#[verifier::spinoff_prover]
proof fn span_above(
    s: (int, int, int, int),
    rows: Seq<DiffRow>,
    o1: int,
    n1: int,
    old: Seq<Seq<char>>,
    new: Seq<Seq<char>>,
    at: int,
)
    requires
        walks(rows, 0, 0, o1, n1),
        o1 <= usize::MAX,
        n1 <= usize::MAX,
        0 <= s.0 < s.1 <= o1,
        0 <= s.2 < s.3 <= n1,
        placed(rows, s, old, new),
        0 <= at < rows.len(),
        rows[at].old_line is Some,
        rows[at].new_line is Some,
        s.1 <= rows[at].old_line->0,
        s.3 <= rows[at].new_line->0,
    ensures
        placed(rows.take(at), s, old, new),
{
    walks_ascend(rows, 0, 0, o1, n1);
    let p = choose|p: int| span_at(rows, s, p, old, new);
    let l = larger(s.1 - s.0, s.3 - s.2);
    let theirs = paired(s.0, s.1, s.2, s.3, old, new);
    assert(rows.subrange(p, p + l)[l - 1] == theirs[l - 1]);
    assert(rows[p + l - 1] == theirs[l - 1]);
    assert(p + l - 1 < at);
    assert(rows.take(at).subrange(p, p + l) == rows.subrange(p, p + l));
    assert(span_at(rows.take(at), s, p, old, new));
}

/// A stretch that starts after the lines of a row is drawn below it.
#[verifier::spinoff_prover]
proof fn span_below(
    s: (int, int, int, int),
    rows: Seq<DiffRow>,
    o1: int,
    n1: int,
    old: Seq<Seq<char>>,
    new: Seq<Seq<char>>,
    end: int,
)
    requires
        walks(rows, 0, 0, o1, n1),
        o1 <= usize::MAX,
        n1 <= usize::MAX,
        0 <= s.0 < s.1 <= o1,
        0 <= s.2 < s.3 <= n1,
        placed(rows, s, old, new),
        0 < end <= rows.len(),
        (rows[end - 1].old_line is Some && rows[end - 1].old_line->0 < s.0) || (rows[end
            - 1].new_line is Some && rows[end - 1].new_line->0 < s.2),
    ensures
        placed(rows.skip(end), s, old, new),
{
    walks_ascend(rows, 0, 0, o1, n1);
    let p = choose|p: int| span_at(rows, s, p, old, new);
    let l = larger(s.1 - s.0, s.3 - s.2);
    let theirs = paired(s.0, s.1, s.2, s.3, old, new);
    assert(rows.subrange(p, p + l)[0] == theirs[0]);
    assert(rows[p] == theirs[0]);
    assert(p > end - 1);
    assert(rows.skip(end).subrange(p - end, p - end + l) == rows.subrange(p, p + l));
    assert(span_at(rows.skip(end), s, p - end, old, new));
}

/// What lies before and after one stretch of an alignment, and where the
/// stretch sits.
#[verifier::spinoff_prover]
proof fn spans_split(
    spans: Seq<(int, int, int, int)>,
    rows: Seq<DiffRow>,
    o1: int,
    n1: int,
    old: Seq<Seq<char>>,
    new: Seq<Seq<char>>,
    k: int,
    at: int,
)
    requires
        walks(rows, 0, 0, o1, n1),
        o1 <= usize::MAX,
        n1 <= usize::MAX,
        spans_fit(spans, rows, 0, 0, o1, n1, old, new),
        0 <= k < spans.len(),
        0 <= at < rows.len(),
        rows[at].new_line is Some,
        rows[at].new_line->0 == spans[k].2,
    ensures
        span_at(rows, spans[k], at, old, new),
        ({
            let b = spans[k];
            let end = at + larger(b.1 - b.0, b.3 - b.2);
            &&& walks(rows.take(at), 0, 0, b.0, b.2)
            &&& walks(rows.skip(end), b.1, b.3, o1, n1)
            &&& spans_fit(spans.take(k), rows.take(at), 0, 0, b.0, b.2, old, new)
            &&& spans_fit(spans.skip(k + 1), rows.skip(end), b.1, b.3, o1, n1, old, new)
        }),
{
    let b = spans[k];
    let end = at + larger(b.1 - b.0, b.3 - b.2);
    span_found(b, rows, o1, n1, old, new, at);
    let before = spans.take(k);
    assert forall|j: int| 0 <= j < before.len() implies placed(
        rows.take(at),
        #[trigger] before[j],
        old,
        new,
    ) by {
        assert(before[j] == spans[j]);
        span_above(spans[j], rows, o1, n1, old, new, at);
    }
    let after = spans.skip(k + 1);
    assert forall|j: int| 0 <= j < after.len() implies placed(
        rows.skip(end),
        #[trigger] after[j],
        old,
        new,
    ) by {
        let m = j + k + 1;
        assert(after[j] == spans[m]);
        assert(b.1 <= spans[m].0 && b.3 <= spans[m].2);
        span_below(spans[m], rows, o1, n1, old, new, end);
    }
}

// ---- Building rows -------------------------------------------------------

/// Replaced lines paired up so edits sit opposite each other, then whichever
/// side is longer spills into phantom-backed rows. A pair that happens to be
/// identical is drawn as equal.
fn paired_rows(o: Range<usize>, n: Range<usize>, old: &[String], new: &[String]) -> (rows: Vec<
    DiffRow,
>)
    requires
        o.start <= o.end <= old@.len(),
        n.start <= n.end <= new@.len(),
    ensures
        rows@ == paired(
            o.start as int,
            o.end as int,
            n.start as int,
            n.end as int,
            views(old@),
            views(new@),
        ),
{
    let mut rows: Vec<DiffRow> = Vec::new();
    let olen: usize = o.end - o.start;
    let nlen: usize = n.end - n.start;
    let len: usize = if olen >= nlen { olen } else { nlen };
    let mut i: usize = 0;
    while i < len
        invariant
            0 <= i <= len,
            o.start <= o.end <= old@.len(),
            n.start <= n.end <= new@.len(),
            olen == o.end - o.start,
            nlen == n.end - n.start,
            len == larger(olen as int, nlen as int),
            rows@ == paired(
                o.start as int,
                o.end as int,
                n.start as int,
                n.end as int,
                views(old@),
                views(new@),
            ).take(i as int),
        decreases len - i,
    {
        let ghost all = paired(
            o.start as int,
            o.end as int,
            n.start as int,
            n.end as int,
            views(old@),
            views(new@),
        );
        if i < olen && i < nlen {
            let kind = if same(&old[o.start + i], &new[n.start + i]) {
                RowKind::Equal
            } else {
                RowKind::Replace
            };
            rows.push(
                DiffRow { old_line: Some(o.start + i), new_line: Some(n.start + i), kind },
            );
        } else if i < olen {
            rows.push(
                DiffRow { old_line: Some(o.start + i), new_line: None, kind: RowKind::Delete },
            );
        } else {
            rows.push(
                DiffRow { old_line: None, new_line: Some(n.start + i), kind: RowKind::Insert },
            );
        }
        proof {
            assert(rows@.last() == all[i as int]);
            assert(all.take(i + 1) == all.take(i as int).push(all[i as int]));
        }
        i += 1;
    }
    proof {
        let all = paired(
            o.start as int,
            o.end as int,
            n.start as int,
            n.end as int,
            views(old@),
            views(new@),
        );
        assert(all.take(all.len() as int) == all);
    }
    rows
}

/// The script speaks of the lines that start at `oo` and `no` of the two sides.
pub open spec fn script_within(
    ops: Seq<Op>,
    old: Seq<Seq<char>>,
    new: Seq<Seq<char>>,
    wo: (int, int),
    wn: (int, int),
) -> bool {
    &&& 0 <= wo.0 <= wo.1 <= old.len()
    &&& 0 <= wn.0 <= wn.1 <= new.len()
    &&& script(ops, old.subrange(wo.0, wo.1), new.subrange(wn.0, wn.1))
}

/// Every piece of a script stays within the sides it was made for.
proof fn script_pieces(
    ops: Seq<Op>,
    o1: int,
    n1: int,
    old: Seq<Seq<char>>,
    new: Seq<Seq<char>>,
    k: int,
)
    requires
        script_to(ops, o1, n1, old, new),
        0 <= k < ops.len(),
    ensures
        op_fits(ops[k], old, new),
    decreases ops.len(),
{
    if k < ops.len() - 1 {
        let op = ops.last();
        script_pieces(
            ops.drop_last(),
            op.old.start as int,
            op.new.start as int,
            old,
            new,
            k,
        );
    }
}

/// Op ranges are relative to the lines that were diffed; the offsets put them
/// back on whole-file line numbers, so a diff of one window lands in place.
fn rows_from_ops(
    ops: &Vec<Op>,
    old: &[String],
    new: &[String],
    wo: &Range<usize>,
    wn: &Range<usize>,
) -> (rows: Vec<DiffRow>)
    requires
        script_within(
            ops@,
            views(old@),
            views(new@),
            (wo.start as int, wo.end as int),
            (wn.start as int, wn.end as int),
        ),
    ensures
        rows@ == rows_of_ops(ops@, views(old@), views(new@), wo.start as int, wn.start as int),
{
    let ghost part_old = views(old@).subrange(wo.start as int, wo.end as int);
    let ghost part_new = views(new@).subrange(wn.start as int, wn.end as int);
    let mut rows: Vec<DiffRow> = Vec::new();
    let mut k: usize = 0;
    while k < ops.len()
        invariant
            0 <= k <= ops@.len(),
            wo.start <= wo.end <= old@.len(),
            wn.start <= wn.end <= new@.len(),
            part_old == views(old@).subrange(wo.start as int, wo.end as int),
            part_new == views(new@).subrange(wn.start as int, wn.end as int),
            script(ops@, part_old, part_new),
            rows@ == rows_of_ops(
                ops@.take(k as int),
                views(old@),
                views(new@),
                wo.start as int,
                wn.start as int,
            ),
        decreases ops@.len() - k,
    {
        proof {
            script_pieces(
                ops@,
                part_old.len() as int,
                part_new.len() as int,
                part_old,
                part_new,
                k as int,
            );
            assert(ops@.take(k + 1).drop_last() == ops@.take(k as int));
        }
        let op = &ops[k];
        let o = Range { start: op.old.start + wo.start, end: op.old.end + wo.start };
        let n = Range { start: op.new.start + wn.start, end: op.new.end + wn.start };
        let ghost mine = paired(
            o.start as int,
            o.end as int,
            n.start as int,
            n.end as int,
            views(old@),
            views(new@),
        );
        let ghost before = rows@;
        match op.tag {
            Tag::Equal => {
                let len: usize = o.end - o.start;
                proof {
                    assert forall|j: int| 0 <= j < len implies #[trigger] mine[j] == (DiffRow {
                        old_line: Some((o.start + j) as usize),
                        new_line: Some((n.start + j) as usize),
                        kind: RowKind::Equal,
                    }) by {
                        assert(part_old[op.old.start + j] == part_new[op.new.start + j]);
                    }
                }
                let mut i: usize = 0;
                while i < len
                    invariant
                        0 <= i <= len,
                        len == o.end - o.start,
                        len == n.end - n.start,
                        o.end <= usize::MAX,
                        mine.len() == len,
                        forall|j: int|
                            0 <= j < len ==> #[trigger] mine[j] == (DiffRow {
                                old_line: Some((o.start + j) as usize),
                                new_line: Some((n.start + j) as usize),
                                kind: RowKind::Equal,
                            }),
                        rows@ == before + mine.take(i as int),
                    decreases len - i,
                {
                    rows.push(
                        DiffRow {
                            old_line: Some(o.start + i),
                            new_line: Some(n.start + i),
                            kind: RowKind::Equal,
                        },
                    );
                    proof {
                        assert(rows@.last() == mine[i as int]);
                        assert(mine.take(i + 1) == mine.take(i as int).push(mine[i as int]));
                    }
                    i += 1;
                }
            },
            Tag::Delete => {
                let len: usize = o.end - o.start;
                let mut i: usize = 0;
                while i < len
                    invariant
                        0 <= i <= len,
                        len == o.end - o.start,
                        mine.len() == len,
                        forall|j: int|
                            0 <= j < len ==> #[trigger] mine[j] == (DiffRow {
                                old_line: Some((o.start + j) as usize),
                                new_line: None,
                                kind: RowKind::Delete,
                            }),
                        rows@ == before + mine.take(i as int),
                    decreases len - i,
                {
                    rows.push(
                        DiffRow { old_line: Some(o.start + i), new_line: None, kind: RowKind::Delete },
                    );
                    proof {
                        assert(rows@.last() == mine[i as int]);
                        assert(mine.take(i + 1) == mine.take(i as int).push(mine[i as int]));
                    }
                    i += 1;
                }
            },
            Tag::Insert => {
                let len: usize = n.end - n.start;
                let mut i: usize = 0;
                while i < len
                    invariant
                        0 <= i <= len,
                        len == n.end - n.start,
                        mine.len() == len,
                        forall|j: int|
                            0 <= j < len ==> #[trigger] mine[j] == (DiffRow {
                                old_line: None,
                                new_line: Some((n.start + j) as usize),
                                kind: RowKind::Insert,
                            }),
                        rows@ == before + mine.take(i as int),
                    decreases len - i,
                {
                    rows.push(
                        DiffRow { old_line: None, new_line: Some(n.start + i), kind: RowKind::Insert },
                    );
                    proof {
                        assert(rows@.last() == mine[i as int]);
                        assert(mine.take(i + 1) == mine.take(i as int).push(mine[i as int]));
                    }
                    i += 1;
                }
            },
            Tag::Replace => {
                let mut pairs = paired_rows(o, n, old, new);
                rows.append(&mut pairs);
            },
        }
        proof {
            assert(mine.take(mine.len() as int) == mine);
            assert(rows@ == before + mine);
        }
        k += 1;
    }
    proof {
        assert(ops@.take(ops@.len() as int) == ops@);
    }
    rows
}

/// The stretches a build gave up on. Only a build that actually ran out of time
/// has any: a big Replace from a build that finished is a real rewrite.
fn coarse_spans(ops: &Vec<Op>, ran_out: bool, wo: &Range<usize>, wn: &Range<usize>) -> (spans: Vec<
    CoarseSpan,
>)
    requires
        forall|k: int|
            0 <= k < ops@.len() ==> {
                let op = #[trigger] ops@[k];
                &&& op.old.start <= op.old.end <= wo.end - wo.start
                &&& op.new.start <= op.new.end <= wn.end - wn.start
            },
    ensures
        ran_out ==> all_bounds(spans@) == spans_of_ops(ops@, wo.start as int, wn.start as int),
        !ran_out ==> spans@.len() == 0,
{
    let mut spans: Vec<CoarseSpan> = Vec::new();
    if !ran_out {
        return spans;
    }
    let mut k: usize = 0;
    while k < ops.len()
        invariant
            0 <= k <= ops@.len(),
            forall|k: int|
                0 <= k < ops@.len() ==> {
                    let op = #[trigger] ops@[k];
                    &&& op.old.start <= op.old.end <= wo.end - wo.start
                    &&& op.new.start <= op.new.end <= wn.end - wn.start
                },
            all_bounds(spans@) == spans_of_ops(
                ops@.take(k as int),
                wo.start as int,
                wn.start as int,
            ),
        decreases ops@.len() - k,
    {
        let op = &ops[k];
        proof {
            assert(ops@.take(k + 1).drop_last() == ops@.take(k as int));
        }
        let ghost before = spans@;
        if op.tag == Tag::Replace {
            let olen: usize = op.old.end - op.old.start;
            let nlen: usize = op.new.end - op.new.start;
            if olen >= COARSE_MIN || nlen >= COARSE_MIN - olen {
                let span = CoarseSpan {
                    old: Range { start: op.old.start + wo.start, end: op.old.end + wo.start },
                    new: Range { start: op.new.start + wn.start, end: op.new.end + wn.start },
                };
                spans.push(span);
                proof {
                    assert(all_bounds(spans@) == all_bounds(before).push(bounds(span)));
                }
            }
        }
        k += 1;
    }
    proof {
        assert(ops@.take(ops@.len() as int) == ops@);
    }
    spans
}

// ---- The model -----------------------------------------------------------

/// The map gives, for each new line, the row that shows it.
pub open spec fn indexed(map: Seq<Option<usize>>, rows: Seq<DiffRow>, new_len: int) -> bool {
    &&& map.len() == new_len
    &&& forall|line: int|
        0 <= line < map.len() ==> {
            let row = #[trigger] map[line];
            &&& row is Some
            &&& row->0 < rows.len()
            &&& rows[row->0 as int].new_line == Some(line as usize)
        }
}

/// The spans that a build which produced `ops` leaves to refine.
pub open spec fn left_coarse(ops: Seq<Op>, ran_out: bool, oo: int, no: int) -> Seq<
    (int, int, int, int),
> {
    if ran_out {
        spans_of_ops(ops, oo, no)
    } else {
        Seq::empty()
    }
}

pub open spec fn clamped(x: int, low: int, high: int) -> int {
    if x < low {
        low
    } else if x > high {
        high
    } else {
        x
    }
}

/// The rows of the stretch `b`, drawn from row `at` on, that are refined for
/// `focus`: the focus clamped to the stretch, widened by the margin and clipped
/// to the stretch again.
pub open spec fn window_rows(b: (int, int, int, int), at: int, focus: Range<usize>) -> (int, int) {
    let end = at + larger(b.1 - b.0, b.3 - b.2);
    let first = clamped(focus.start as int, at, end);
    let last = clamped(focus.end as int, at, end);
    (clamped(first - REFINE_MARGIN, at, end), clamped(last + REFINE_MARGIN, at, end))
}

/// The lines of one side in a window: row `i` of a stretch is line `start + i`
/// until that side runs out.
pub open spec fn window_side(start: int, end: int, at: int, window: (int, int)) -> (int, int) {
    (
        clamped(start + (window.0 - at), start, end),
        clamped(start + (window.1 - at), start, end),
    )
}

/// A stretch that is still a guess: one with lines on both sides.
pub open spec fn guess(b: (int, int, int, int)) -> Seq<(int, int, int, int)> {
    if b.0 < b.1 && b.2 < b.3 {
        seq![b]
    } else {
        Seq::empty()
    }
}

/// What is left of the stretches `spans` once the window `wo`/`wn` of stretch
/// `k` has been diffed into `ops`.
pub open spec fn refined_spans(
    spans: Seq<(int, int, int, int)>,
    k: int,
    wo: (int, int),
    wn: (int, int),
    ops: Seq<Op>,
    ran_out: bool,
) -> Seq<(int, int, int, int)> {
    let b = spans[k];
    spans.take(k) + guess((b.0, wo.0, b.2, wn.0)) + left_coarse(ops, ran_out, wo.0, wn.0) + guess(
        (wo.1, b.1, wn.1, b.3),
    ) + spans.skip(k + 1)
}

/// The rows with those of a window replaced.
pub open spec fn refined_rows(rows: Seq<DiffRow>, window: (int, int), fine: Seq<DiffRow>) -> Seq<
    DiffRow,
> {
    rows.take(window.0) + fine + rows.skip(window.1)
}

impl DiffModel {
    /// The model describes `new` against the lines it holds: the rows align the
    /// whole of both sides, every new line is found in the map, and the coarse
    /// stretches are drawn as pairs, in row order.
    pub open spec fn fits(&self, new: Seq<Seq<char>>) -> bool {
        &&& aligned(self.rows@, views(self.old@), new)
        &&& indexed(self.new_line_to_row@, self.rows@, new.len() as int)
        &&& spans_fit(
            all_bounds(self.coarse@),
            self.rows@,
            0,
            0,
            self.old@.len() as int,
            new.len() as int,
            views(self.old@),
            new,
        )
    }

    /// The row where a coarse stretch starts.
    pub open spec fn span_start(&self, k: int) -> int {
        self.new_line_to_row@[self.coarse@[k].new.start as int]->0 as int
    }

    /// The row after a coarse stretch.
    pub open spec fn span_end(&self, k: int) -> int {
        let b = bounds(self.coarse@[k]);
        self.span_start(k) + larger(b.1 - b.0, b.3 - b.2)
    }

    /// Every coarse stretch has its rows.
    pub open spec fn located(&self) -> bool {
        forall|k: int|
            0 <= k < self.coarse@.len() ==> {
                let span = #[trigger] self.coarse@[k];
                &&& span.new.start < self.new_line_to_row@.len()
                &&& self.new_line_to_row@[span.new.start as int] is Some
                &&& span.old.start <= span.old.end
                &&& span.new.start <= span.new.end
                &&& self.span_end(k) <= self.rows@.len()
            }
    }

    /// The rows that refining stretch `k` for `focus` looks at again.
    pub open spec fn window(&self, k: int, focus: Range<usize>) -> (int, int) {
        window_rows(bounds(self.coarse@[k]), self.span_start(k), focus)
    }

    /// The old lines of that window.
    pub open spec fn window_old(&self, k: int, focus: Range<usize>) -> (int, int) {
        let b = bounds(self.coarse@[k]);
        window_side(b.0, b.1, self.span_start(k), self.window(k, focus))
    }

    /// The new lines of that window.
    pub open spec fn window_new(&self, k: int, focus: Range<usize>) -> (int, int) {
        let b = bounds(self.coarse@[k]);
        window_side(b.2, b.3, self.span_start(k), self.window(k, focus))
    }

    /// The model holds what the edit script says.
    pub open spec fn shows(&self, new: Seq<Seq<char>>, ops: Seq<Op>, ran_out: bool) -> bool {
        &&& self.rows@ == rows_of_ops(ops, views(self.old@), new, 0, 0)
        &&& all_bounds(self.coarse@) == left_coarse(ops, ran_out, 0, 0)
    }

    /// The model of a diff under a deadline: what the edit script says that was found,
    /// with the stretches left coarse where the deadline had passed by then.
    pub open spec fn built(&self, new: Seq<Seq<char>>, deadline: Option<Instant>) -> bool {
        exists|ops: Seq<Op>, ran_out: bool|
            timed(views(self.old@), new, deadline, ops, ran_out) && script(
                ops,
                views(self.old@),
                new,
            ) && #[trigger] self.shows(new, ops, ran_out)
    }

    /// The model of a diff that had a number of milliseconds.
    pub open spec fn built_within(&self, new: Seq<Seq<char>>, millis: u64) -> bool {
        exists|deadline: Option<Instant>|
            due(millis, deadline) && #[trigger] self.built(new, deadline)
    }

    /// The model of a diff whose deadline was a second ago.
    pub open spec fn built_late(&self, new: Seq<Seq<char>>) -> bool {
        exists|reading: Instant, deadline: Instant| #[trigger]
            second_before(reading, deadline) && self.built(new, Some(deadline))
    }

    /// The model is `before` with a window of stretch `k` refined under a deadline: what
    /// the edit script says that was found for the lines of the window, with what the
    /// deadline cut short still coarse.
    pub open spec fn refined_by(
        &self,
        before: &DiffModel,
        k: int,
        focus: Range<usize>,
        new: Seq<Seq<char>>,
        deadline: Instant,
    ) -> bool {
        let wo = before.window_old(k, focus);
        let wn = before.window_new(k, focus);
        exists|ops: Seq<Op>, ran_out: bool|
            timed(
                views(before.old@).subrange(wo.0, wo.1),
                new.subrange(wn.0, wn.1),
                Some(deadline),
                ops,
                ran_out,
            ) && script_within(ops, views(before.old@), new, wo, wn) && #[trigger] self.refines(
                before,
                k,
                focus,
                new,
                ops,
                ran_out,
            )
    }

    /// The model holds what refining stretch `k` of `before` for `focus` gives.
    pub open spec fn refines(
        &self,
        before: &DiffModel,
        k: int,
        focus: Range<usize>,
        new: Seq<Seq<char>>,
        ops: Seq<Op>,
        ran_out: bool,
    ) -> bool {
        let wo = before.window_old(k, focus);
        let wn = before.window_new(k, focus);
        &&& self.rows@ == refined_rows(
            before.rows@,
            before.window(k, focus),
            rows_of_ops(ops, views(before.old@), new, wo.0, wn.0),
        )
        &&& all_bounds(self.coarse@) == refined_spans(
            all_bounds(before.coarse@),
            k,
            wo,
            wn,
            ops,
            ran_out,
        )
    }

    /// A coarse stretch of a model that fits sits where the map says.
    pub proof fn span_facts(&self, new: Seq<Seq<char>>, k: int)
        requires
            self.fits(new),
            0 <= k < self.coarse@.len(),
        ensures
            span_at(
                self.rows@,
                bounds(self.coarse@[k]),
                self.span_start(k),
                views(self.old@),
                new,
            ),
            self.rows@[self.span_start(k)].new_line == Some(self.coarse@[k].new.start),
            0 <= self.span_start(k) < self.span_end(k) <= self.rows@.len(),
            self.coarse@[k].old.start < self.coarse@[k].old.end <= self.old@.len(),
            self.coarse@[k].new.start < self.coarse@[k].new.end <= new.len(),
            self.new_line_to_row@[self.coarse@[k].new.start as int] is Some,
            self.new_line_to_row@.len() == new.len(),
    {
        let spans = all_bounds(self.coarse@);
        assert(self.old.len() == self.old@.len());
        assert(self.new_line_to_row.len() == self.new_line_to_row@.len());
        assert(spans[k] == bounds(self.coarse@[k]));
        let line = self.coarse@[k].new.start as int;
        assert(self.new_line_to_row@[line] is Some);
        spans_split(
            spans,
            self.rows@,
            self.old@.len() as int,
            new.len() as int,
            views(self.old@),
            new,
            k,
            self.span_start(k),
        );
    }

    /// A model that fits has rows for all its coarse stretches.
    pub proof fn fits_located(&self, new: Seq<Seq<char>>)
        requires
            self.fits(new),
        ensures
            self.located(),
    {
        assert forall|k: int| 0 <= k < self.coarse@.len() implies {
            let span = #[trigger] self.coarse@[k];
            &&& span.new.start < self.new_line_to_row@.len()
            &&& self.new_line_to_row@[span.new.start as int] is Some
            &&& span.old.start <= span.old.end
            &&& span.new.start <= span.new.end
            &&& self.span_end(k) <= self.rows@.len()
        } by {
            self.span_facts(new, k);
        }
    }
}

/// Of two new lines the one on the earlier row comes first, so no two rows share
/// a line and a map that has every line is the only one.
proof fn index_map(rows: Seq<DiffRow>, o1: int, n1: int) -> (found: Seq<int>)
    requires
        walks(rows, 0, 0, o1, n1),
    ensures
        0 <= n1,
        found.len() == n1,
        forall|line: int|
            0 <= line < n1 ==> 0 <= #[trigger] found[line] < rows.len()
                && rows[found[line]].new_line is Some && rows[found[line]].new_line->0 == line,
{
    walks_bounds(rows, 0, 0, o1, n1);
    let found = Seq::new(
        n1 as nat,
        |line: int|
            choose|at: int|
                0 <= at < rows.len() && (#[trigger] rows[at]).new_line is Some
                    && rows[at].new_line->0 == line,
    );
    assert forall|line: int| 0 <= line < n1 implies 0 <= #[trigger] found[line] < rows.len()
        && rows[found[line]].new_line is Some && rows[found[line]].new_line->0 == line by {
        let at = walks_finds_new(rows, 0, 0, o1, n1, line);
        assert(rows[at].new_line is Some);
    }
    found
}

/// The line-to-row map of an alignment.
fn index_rows(rows: &Vec<DiffRow>, old_len: Ghost<int>, new_len: usize) -> (map: Vec<Option<usize>>)
    requires
        walks(rows@, 0, 0, old_len@, new_len as int),
    ensures
        indexed(map@, rows@, new_len as int),
{
    let mut map: Vec<Option<usize>> = Vec::new();
    let mut i: usize = 0;
    while i < new_len
        invariant
            0 <= i <= new_len,
            map@.len() == i,
        decreases new_len - i,
    {
        map.push(None);
        i += 1;
    }
    let ghost found = index_map(rows@, old_len@, new_len as int);
    proof {
        walks_ascend(rows@, 0, 0, old_len@, new_len as int);
        walks_bounds(rows@, 0, 0, old_len@, new_len as int);
    }
    let mut k: usize = 0;
    while k < rows.len()
        invariant
            0 <= k <= rows@.len(),
            map@.len() == new_len,
            walks(rows@, 0, 0, old_len@, new_len as int),
            forall|i: int|
                #![trigger rows@[i]]
                0 <= i < rows@.len() && rows@[i].new_line is Some ==> rows@[i].new_line->0
                    < new_len,
            found.len() == new_len,
            forall|line: int|
                0 <= line < new_len ==> 0 <= #[trigger] found[line] < rows@.len()
                    && rows@[found[line]].new_line is Some && rows@[found[line]].new_line->0
                    == line,
            forall|line: int|
                0 <= line < new_len && found[line] < k ==> #[trigger] map@[line] == Some(
                    found[line] as usize,
                ),
            forall|i: int, j: int|
                #![trigger rows@[i], rows@[j]]
                0 <= i < j < rows@.len() && rows@[i].new_line is Some && rows@[j].new_line is Some
                    ==> rows@[i].new_line->0 < rows@[j].new_line->0,
        decreases rows@.len() - k,
    {
        if let Some(line) = rows[k].new_line {
            proof {
                let at = found[line as int];
                assert(rows@[at].new_line->0 == line);
                assert(at == k);
            }
            map.set(line, Some(k));
        } else {
            assert forall|line: int| 0 <= line < new_len implies found[line] != k by {
                assert(rows@[found[line]].new_line is Some);
            }
        }
        k += 1;
    }
    map
}

/// The rows of a stretch that are refined for `focus`.
fn clip_window(rows: &Range<usize>, focus: &Range<usize>) -> (window: Range<usize>)
    requires
        rows.start <= rows.end,
    ensures
        window.start == clamped(
            clamped(focus.start as int, rows.start as int, rows.end as int) - REFINE_MARGIN,
            rows.start as int,
            rows.end as int,
        ),
        window.end == clamped(
            clamped(focus.end as int, rows.start as int, rows.end as int) + REFINE_MARGIN,
            rows.start as int,
            rows.end as int,
        ),
{
    let first: usize = clamp(focus.start, rows.start, rows.end);
    let last: usize = clamp(focus.end, rows.start, rows.end);
    Range {
        start: clamp(first.saturating_sub(REFINE_MARGIN), rows.start, rows.end),
        end: clamp(last.saturating_add(REFINE_MARGIN), rows.start, rows.end),
    }
}

fn clamp(x: usize, low: usize, high: usize) -> (y: usize)
    ensures
        y == clamped(x as int, low as int, high as int),
{
    if x < low {
        low
    } else if x > high {
        high
    } else {
        x
    }
}

/// The lines of one side of a stretch that a window of its rows covers.
fn clip_side(side: &Range<usize>, rows: &Range<usize>, window: &Range<usize>) -> (part: Range<usize>)
    requires
        side.start <= side.end,
        rows.start <= window.start,
        rows.start <= window.end,
    ensures
        (part.start as int, part.end as int) == window_side(
            side.start as int,
            side.end as int,
            rows.start as int,
            (window.start as int, window.end as int),
        ),
{
    let len: usize = side.end - side.start;
    Range {
        start: side.start + clamp(window.start - rows.start, 0, len),
        end: side.start + clamp(window.end - rows.start, 0, len),
    }
}

/// Refining a window keeps the alignment whole and its stretches in place.
#[verifier::spinoff_prover]
#[verifier::rlimit(50)]
proof fn refine_fits(
    rows: Seq<DiffRow>,
    spans: Seq<(int, int, int, int)>,
    old: Seq<Seq<char>>,
    new: Seq<Seq<char>>,
    k: int,
    at: int,
    window: (int, int),
    wo: (int, int),
    wn: (int, int),
    ops: Seq<Op>,
    ran_out: bool,
)
    requires
        aligned(rows, old, new),
        old.len() <= usize::MAX,
        new.len() <= usize::MAX,
        spans_fit(spans, rows, 0, 0, old.len() as int, new.len() as int, old, new),
        0 <= k < spans.len(),
        0 <= at < rows.len(),
        rows[at].new_line is Some,
        rows[at].new_line->0 == spans[k].2,
        at <= window.0 <= window.1 <= at + larger(
            spans[k].1 - spans[k].0,
            spans[k].3 - spans[k].2,
        ),
        wo == window_side(spans[k].0, spans[k].1, at, window),
        wn == window_side(spans[k].2, spans[k].3, at, window),
        script_within(ops, old, new, wo, wn),
    ensures
        aligned(refined_rows(rows, window, rows_of_ops(ops, old, new, wo.0, wn.0)), old, new),
        spans_fit(
            refined_spans(spans, k, wo, wn, ops, ran_out),
            refined_rows(rows, window, rows_of_ops(ops, old, new, wo.0, wn.0)),
            0,
            0,
            old.len() as int,
            new.len() as int,
            old,
            new,
        ),
{
    let b = spans[k];
    let end = at + larger(b.1 - b.0, b.3 - b.2);
    let o1 = old.len() as int;
    let n1 = new.len() as int;
    spans_split(spans, rows, o1, n1, old, new, k, at);
    let mine = paired(b.0, b.1, b.2, b.3, old, new);
    let head = paired(b.0, wo.0, b.2, wn.0, old, new);
    let foot = paired(wo.1, b.1, wn.1, b.3, old, new);
    let fine = rows_of_ops(ops, old, new, wo.0, wn.0);
    let hb = (b.0, wo.0, b.2, wn.0);
    let fb = (wo.1, b.1, wn.1, b.3);

    // The pieces beside the window are drawn as they were.
    assert(rows.subrange(at, end) == mine);
    assert(rows.take(window.0) == rows.take(at) + head) by {
        assert forall|i: int| at <= i < window.0 implies rows[i] == head[i - at] by {
            assert(rows.subrange(at, end)[i - at] == mine[i - at]);
        }
    }
    assert(rows.skip(window.1) == foot + rows.skip(end)) by {
        assert forall|i: int| window.1 <= i < end implies rows[i] == foot[i - window.1] by {
            assert(rows.subrange(at, end)[i - at] == mine[i - at]);
        }
    }

    // Alignments of the five pieces, one after the other.
    let part_old = old.subrange(wo.0, wo.1);
    let part_new = new.subrange(wn.0, wn.1);
    paired_walks(b.0, wo.0, b.2, wn.0, old, new);
    paired_walks(wo.1, b.1, wn.1, b.3, old, new);
    ops_walk(
        ops,
        part_old.len() as int,
        part_new.len() as int,
        part_old,
        part_new,
        old,
        new,
        wo.0,
        wn.0,
    );
    let r1 = rows.take(at) + head;
    let r2 = r1 + fine;
    let r3 = r2 + foot;
    let r4 = r3 + rows.skip(end);
    walks_concat(rows.take(at), head, 0, 0, b.0, b.2, wo.0, wn.0);
    walks_concat(r1, fine, 0, 0, wo.0, wn.0, wo.1, wn.1);
    walks_concat(r2, foot, 0, 0, wo.1, wn.1, b.1, b.3);
    walks_concat(r3, rows.skip(end), 0, 0, b.1, b.3, o1, n1);
    assert(refined_rows(rows, window, fine) == r4);
    assert(drawn(r4, old, new));

    // And their stretches.
    guess_fits(hb, old, new);
    guess_fits(fb, old, new);
    ops_spans(
        ops,
        part_old.len() as int,
        part_new.len() as int,
        part_old,
        part_new,
        old,
        new,
        wo.0,
        wn.0,
    );
    let inner = left_coarse(ops, ran_out, wo.0, wn.0);
    let s0 = spans.take(k);
    let s1 = s0 + guess(hb);
    let s2 = s1 + inner;
    let s3 = s2 + guess(fb);
    spans_concat(s0, guess(hb), rows.take(at), head, 0, 0, b.0, b.2, wo.0, wn.0, old, new);
    spans_concat(s1, inner, r1, fine, 0, 0, wo.0, wn.0, wo.1, wn.1, old, new);
    spans_concat(s2, guess(fb), r2, foot, 0, 0, wo.1, wn.1, b.1, b.3, old, new);
    spans_concat(
        s3,
        spans.skip(k + 1),
        r3,
        rows.skip(end),
        0,
        0,
        b.1,
        b.3,
        o1,
        n1,
        old,
        new,
    );
}

/// What is left of a stretch on one side of a window is a stretch of its own
/// rows, if it is one at all.
proof fn guess_fits(b: (int, int, int, int), old: Seq<Seq<char>>, new: Seq<Seq<char>>)
    requires
        0 <= b.0 <= b.1 <= usize::MAX,
        0 <= b.2 <= b.3 <= usize::MAX,
    ensures
        spans_fit(guess(b), paired(b.0, b.1, b.2, b.3, old, new), b.0, b.2, b.1, b.3, old, new),
{
    if b.0 < b.1 && b.2 < b.3 {
        span_alone(b, old, new);
    }
}

impl DiffModel {
    /// The model that an edit script between `old` and `new` gives.
    pub fn from_ops(old: Vec<String>, new: &[String], ops: &Vec<Op>, ran_out: bool) -> (model: Self)
        requires
            script(ops@, views(old@), views(new@)),
        ensures
            model.old == old,
            model.shows(views(new@), ops@, ran_out),
            model.fits(views(new@)),
    {
        let wo = Range { start: 0, end: old.len() };
        let wn = Range { start: 0, end: new.len() };
        let ghost o = views(old@);
        let ghost n = views(new@);
        proof {
            assert(o.subrange(0, o.len() as int) == o);
            assert(n.subrange(0, n.len() as int) == n);
            ops_walk(ops@, o.len() as int, n.len() as int, o, n, o, n, 0, 0);
            ops_spans(ops@, o.len() as int, n.len() as int, o, n, o, n, 0, 0);
            assert forall|k: int| 0 <= k < ops@.len() implies op_fits(#[trigger] ops@[k], o, n) by {
                script_pieces(ops@, o.len() as int, n.len() as int, o, n, k);
            }
        }
        let coarse = coarse_spans(ops, ran_out, &wo, &wn);
        let rows = rows_from_ops(ops, old.as_slice(), new, &wo, &wn);
        let new_line_to_row = index_rows(&rows, Ghost(old@.len() as int), new.len());
        proof {
            if !ran_out {
                assert(all_bounds(coarse@) == Seq::<(int, int, int, int)>::empty());
            }
        }
        DiffModel { old, rows, new_line_to_row, coarse }
    }

    /// A diff within a deadline. Whatever it had time for, the model aligns the
    /// whole of both sides; without a deadline it is what the Myers diff says.
    pub fn build_at(old: Vec<String>, new: &[String], deadline: Option<Instant>) -> (model: Self)
        ensures
            model.old == old,
            model.fits(views(new@)),
            model.built(views(new@), deadline),
            deadline is None ==> model.shows(
                views(new@),
                myers(views(old@), views(new@)),
                false,
            ),
    {
        let ops = captured_ops(old.as_slice(), new, deadline);
        // The same comparison the diff makes, so "ran out" means it did bail.
        let ran_out = match deadline {
            Some(deadline) => over(deadline),
            None => false,
        };
        let model = Self::from_ops(old, new, &ops, ran_out);
        proof {
            assert(timed(views(old@), views(new@), deadline, ops@, ran_out));
            assert(model.shows(views(new@), ops@, ran_out));
        }
        model
    }

    /// A diff within a number of milliseconds.
    pub fn build_within(old: Vec<String>, new: &[String], budget: Option<u64>) -> (model: Self)
        ensures
            model.old == old,
            model.fits(views(new@)),
            budget is Some ==> model.built_within(views(new@), budget->0),
            budget is None ==> model.shows(views(new@), myers(views(old@), views(new@)), false),
    {
        match budget {
            Some(millis) => Self::build_at(old, new, deadline_in(millis)),
            None => Self::build_at(old, new, None),
        }
    }

    /// Unbounded: a real diff, however long it takes.
    pub fn build(old: Vec<String>, new: &[String]) -> (model: Self)
        ensures
            model.old == old,
            model.fits(views(new@)),
            model.shows(views(new@), myers(views(old@), views(new@)), false),
    {
        Self::build_within(old, new, None)
    }

    /// A diff within the budget of a rebuild.
    pub fn build_bounded(old: Vec<String>, new: &[String]) -> (model: Self)
        ensures
            model.old == old,
            model.fits(views(new@)),
            model.built_within(views(new@), BUDGET),
    {
        Self::build_within(old, new, Some(BUDGET))
    }

    /// A build whose deadline passed a second ago, so every subproblem is left
    /// coarse.
    pub fn build_coarse(old: Vec<String>, new: &[String]) -> (model: Self)
        ensures
            model.old == old,
            model.fits(views(new@)),
            model.built_late(views(new@)),
    {
        let deadline = past();
        Self::build_at(old, new, Some(deadline))
    }

    /// No lines on either side.
    pub fn empty() -> (model: Self)
        ensures
            model.old@.len() == 0,
            model.rows@.len() == 0,
            model.coarse@.len() == 0,
            model.fits(Seq::empty()),
    {
        DiffModel {
            old: Vec::new(),
            rows: Vec::new(),
            new_line_to_row: Vec::new(),
            coarse: Vec::new(),
        }
    }

    /// Rebuild the line-to-row map after `rows` changed.
    pub fn index(&mut self, new_len: usize)
        requires
            walks(old(self).rows@, 0, 0, old(self).old@.len() as int, new_len as int),
        ensures
            indexed(final(self).new_line_to_row@, final(self).rows@, new_len as int),
            final(self).old == old(self).old,
            final(self).rows == old(self).rows,
            final(self).coarse == old(self).coarse,
    {
        self.new_line_to_row = index_rows(&self.rows, Ghost(self.old@.len() as int), new_len);
    }

    /// The row that shows a new line.
    pub fn row_of_new_line(&self, line: usize) -> (row: Option<usize>)
        ensures
            row == (if line < self.new_line_to_row@.len() {
                self.new_line_to_row@[line as int]
            } else {
                None
            }),
            forall|new: Seq<Seq<char>>| #[trigger]
                self.fits(new) ==> (row is Some <==> line < new.len()) && (row is Some ==> row->0
                    < self.rows@.len() && self.rows@[row->0 as int].new_line == Some(line)),
    {
        if line < self.new_line_to_row.len() {
            self.new_line_to_row[line]
        } else {
            None
        }
    }

    /// The visual rows a coarse stretch occupies. Its first row pairs the first
    /// line of each side, so the map finds it.
    fn span_rows(&self, k: usize) -> (rows: Range<usize>)
        requires
            self.located(),
            k < self.coarse@.len(),
        ensures
            rows.start == self.span_start(k as int),
            rows.end == self.span_end(k as int),
    {
        let span = &self.coarse[k];
        let start: usize = match self.row_of_new_line(span.new.start) {
            Some(row) => row,
            None => 0,
        };
        let olen: usize = span.old.end - span.old.start;
        let nlen: usize = span.new.end - span.new.start;
        let len: usize = if olen >= nlen {
            olen
        } else {
            nlen
        };
        proof {
            assert(self.span_end(k as int) <= self.rows.len());
        }
        Range { start, end: start + len }
    }

    /// The lines of each side that refining stretch `k` for `focus` diffs again.
    pub fn refine_window(&self, k: usize, focus: &Range<usize>) -> (sides: (
        Range<usize>,
        Range<usize>,
    ))
        requires
            self.located(),
            k < self.coarse@.len(),
        ensures
            (sides.0.start as int, sides.0.end as int) == self.window_old(k as int, *focus),
            (sides.1.start as int, sides.1.end as int) == self.window_new(k as int, *focus),
    {
        let rows = self.span_rows(k);
        let window = clip_window(&rows, focus);
        let span = &self.coarse[k];
        (clip_side(&span.old, &rows, &window), clip_side(&span.new, &rows, &window))
    }

    /// Put the diff of a window in place: `ops` is an edit script between the
    /// lines of the window of stretch `k` that `focus` asks for.
    #[verifier::spinoff_prover]
    #[verifier::rlimit(50)]
    pub fn refine_with(
        &mut self,
        k: usize,
        focus: Range<usize>,
        new: &[String],
        ops: &Vec<Op>,
        ran_out: bool,
    )
        requires
            old(self).fits(views(new@)),
            k < old(self).coarse@.len(),
            old(self).window(k as int, focus).0 <= old(self).window(k as int, focus).1,
            script_within(
                ops@,
                views(old(self).old@),
                views(new@),
                old(self).window_old(k as int, focus),
                old(self).window_new(k as int, focus),
            ),
        ensures
            final(self).old == old(self).old,
            final(self).fits(views(new@)),
            final(self).refines(old(self), k as int, focus, views(new@), ops@, ran_out),
    {
        let ghost model = *self;
        let ghost o = views(self.old@);
        let ghost n = views(new@);
        proof {
            self.fits_located(n);
            self.span_facts(n, k as int);
        }
        let rows = self.span_rows(k);
        let window = clip_window(&rows, &focus);
        let (wo, wn) = self.refine_window(k, &focus);

        let mut fine = rows_from_ops(ops, self.old.as_slice(), new, &wo, &wn);
        let span = &self.coarse[k];
        let before = CoarseSpan {
            old: Range { start: span.old.start, end: wo.start },
            new: Range { start: span.new.start, end: wn.start },
        };
        let after = CoarseSpan {
            old: Range { start: wo.end, end: span.old.end },
            new: Range { start: wn.end, end: span.new.end },
        };
        let ghost bb = bounds(before);
        let ghost ab = bounds(after);
        proof {
            let part_old = o.subrange(wo.start as int, wo.end as int);
            let part_new = n.subrange(wn.start as int, wn.end as int);
            assert forall|j: int| 0 <= j < ops@.len() implies op_fits(
                #[trigger] ops@[j],
                part_old,
                part_new,
            ) by {
                script_pieces(
                    ops@,
                    part_old.len() as int,
                    part_new.len() as int,
                    part_old,
                    part_new,
                    j,
                );
            }
        }

        let mut tail = self.rows.split_off(window.end);
        self.rows.truncate(window.start);
        self.rows.append(&mut fine);
        self.rows.append(&mut tail);

        // A piece with one side empty is a plain insert or delete, which is
        // already right; only a two-sided piece is still a guess.
        let mut inner = coarse_spans(ops, ran_out, &wo, &wn);
        let ghost inner_bounds = all_bounds(inner@);
        assert(k < self.coarse.len());
        let mut rest = self.coarse.split_off(k + 1);
        let ghost rest_bounds = all_bounds(rest@);
        self.coarse.truncate(k);
        let ghost kept_bounds = all_bounds(self.coarse@);
        if before.old.start < before.old.end && before.new.start < before.new.end {
            self.coarse.push(before);
        }
        self.coarse.append(&mut inner);
        if after.old.start < after.old.end && after.new.start < after.new.end {
            self.coarse.push(after);
        }
        self.coarse.append(&mut rest);
        proof {
            let spans = all_bounds(model.coarse@);
            assert(model.old.len() == model.old@.len());
            assert(model.new_line_to_row.len() == model.new_line_to_row@.len());
            assert(kept_bounds == spans.take(k as int));
            assert(rest_bounds == spans.skip(k + 1));
            assert(inner_bounds == left_coarse(ops@, ran_out, wo.start as int, wn.start as int));
            assert(all_bounds(self.coarse@) == kept_bounds + guess(bb) + inner_bounds + guess(ab)
                + rest_bounds);
            assert(self.rows@ == refined_rows(
                model.rows@,
                (window.start as int, window.end as int),
                rows_of_ops(ops@, o, n, wo.start as int, wn.start as int),
            ));
            refine_fits(
                model.rows@,
                spans,
                o,
                n,
                k as int,
                rows.start as int,
                (window.start as int, window.end as int),
                (wo.start as int, wo.end as int),
                (wn.start as int, wn.end as int),
                ops@,
                ran_out,
            );
        }
        self.index(new.len());
    }

    /// Give a window of one coarse stretch a real diff: the visual rows
    /// `focus`, widened by `REFINE_MARGIN` on each side and clipped to the
    /// stretch, within `deadline`. Rows outside the window keep the alignment
    /// they had. The stretch shrinks to what is left on either side of the
    /// window, plus whatever the window's own diff ran out of time on. `focus`
    /// need not overlap the stretch's rows, or even be in range of the model:
    /// it is clamped to the stretch first.
    pub fn refine(&mut self, k: usize, focus: Range<usize>, new: &[String], deadline: Instant)
        requires
            old(self).fits(views(new@)),
            k < old(self).coarse@.len(),
            old(self).window(k as int, focus).0 <= old(self).window(k as int, focus).1,
        ensures
            final(self).old == old(self).old,
            final(self).fits(views(new@)),
            final(self).refined_by(old(self), k as int, focus, views(new@), deadline),
    {
        proof {
            self.fits_located(views(new@));
            self.span_facts(views(new@), k as int);
        }
        let (wo, wn) = self.refine_window(k, &focus);
        let part_old = vstd::slice::slice_subrange(self.old.as_slice(), wo.start, wo.end);
        let part_new = vstd::slice::slice_subrange(new, wn.start, wn.end);
        let limit = Some(deadline);
        let ops = captured_ops(part_old, part_new, limit);
        let ran_out = over(deadline);
        proof {
            assert(views(part_old@) == views(self.old@).subrange(wo.start as int, wo.end as int));
            assert(views(part_new@) == views(new@).subrange(wn.start as int, wn.end as int));
        }
        proof {
            let at = choose|at: Instant| tells_time(at, deadline, ran_out);
            assert(tells_time(at, limit->0, ran_out));
            assert(timed(views(part_old@), views(part_new@), limit, ops@, ran_out));
        }
        let ghost before = *self;
        self.refine_with(k, focus, new, &ops, ran_out);
        proof {
            assert(self.refines(&before, k as int, focus, views(new@), ops@, ran_out));
        }
    }

    /// Some of the rows of stretch `k` are among `rows`.
    pub open spec fn meets(&self, k: int, rows: Range<usize>) -> bool {
        rows.start < rows.end && self.span_start(k) < rows.end && rows.start < self.span_end(k)
    }

    /// The first coarse stretch any of whose rows are among `rows`.
    pub fn coarse_at(&self, rows: Range<usize>) -> (found: Option<usize>)
        requires
            self.located(),
        ensures
            match found {
                Some(k) => {
                    &&& k < self.coarse@.len()
                    &&& self.meets(k as int, rows)
                    &&& forall|j: int| 0 <= j < k ==> !self.meets(j, rows)
                },
                None => forall|j: int| 0 <= j < self.coarse@.len() ==> !self.meets(j, rows),
            },
    {
        let mut k: usize = 0;
        while k < self.coarse.len()
            invariant
                self.located(),
                0 <= k <= self.coarse@.len(),
                forall|j: int| 0 <= j < k ==> !self.meets(j, rows),
            decreases self.coarse@.len() - k,
        {
            let mine = self.span_rows(k);
            if rows.start < rows.end && mine.start < rows.end && rows.start < mine.end {
                return Some(k);
            }
            k += 1;
        }
        None
    }
}

/// One of the two sides of the view.
#[derive(Debug, Clone, Copy, PartialEq, Eq, Structural)]
pub enum Side {
    Old,
    New,
}

/// The line that a row shows on one side.
pub open spec fn line_on(row: DiffRow, side: Side) -> Option<usize> {
    match side {
        Side::Old => row.old_line,
        Side::New => row.new_line,
    }
}

/// The line that `row` stands for on one side: its own, or where it has none the
/// first one that follows, or where none follows the last one there is.
pub open spec fn stands_for(rows: Seq<DiffRow>, row: int, side: Side, line: Option<usize>) -> bool {
    if row > rows.len() {
        line is None
    } else if exists|i: int| row <= i < rows.len() && line_on(#[trigger] rows[i], side) is Some {
        exists|i: int|
            #![trigger rows[i]]
            row <= i < rows.len() && line_on(rows[i], side) is Some && line == line_on(
                rows[i],
                side,
            ) && forall|j: int| row <= j < i ==> line_on(#[trigger] rows[j], side) is None
    } else if exists|i: int| 0 <= i < rows.len() && line_on(#[trigger] rows[i], side) is Some {
        exists|i: int|
            #![trigger rows[i]]
            0 <= i < rows.len() && line_on(rows[i], side) is Some && line == line_on(rows[i], side)
                && forall|j: int|
                i < j < rows.len() ==> line_on(#[trigger] rows[j], side) is None
    } else {
        line is None
    }
}

/// A row where a run of changed rows begins.
pub open spec fn hunk_start(rows: Seq<DiffRow>, i: int) -> bool {
    &&& 0 <= i < rows.len()
    &&& rows[i].kind != RowKind::Equal
    &&& i > 0 ==> rows[i - 1].kind == RowKind::Equal
}

/// The first row after `from` where a run of changed rows begins.
pub open spec fn next_hunk(rows: Seq<DiffRow>, from: int, row: Option<usize>) -> bool {
    match row {
        Some(r) => {
            &&& from < r
            &&& hunk_start(rows, r as int)
            &&& forall|i: int| from < i < r ==> !hunk_start(rows, i)
        },
        None => forall|i: int| from < i ==> !hunk_start(rows, i),
    }
}

/// The last row before `from` where a run of changed rows begins.
pub open spec fn last_hunk(rows: Seq<DiffRow>, from: int, row: Option<usize>) -> bool {
    match row {
        Some(r) => {
            &&& r < from
            &&& hunk_start(rows, r as int)
            &&& forall|i: int| r < i < from ==> !hunk_start(rows, i)
        },
        None => forall|i: int| i < from ==> !hunk_start(rows, i),
    }
}

fn line_of(row: &DiffRow, side: Side) -> (line: Option<usize>)
    ensures
        line == line_on(*row, side),
{
    match side {
        Side::Old => row.old_line,
        Side::New => row.new_line,
    }
}

impl DiffModel {
    /// The buffer line a visual row stands for. A phantom row belongs to no
    /// line, so it resolves to the next one that follows, or the last line.
    pub fn new_line_at_or_after(&self, row: usize) -> (line: Option<usize>)
        ensures
            stands_for(self.rows@, row as int, Side::New, line),
    {
        self.line_at_or_after(row, Side::New)
    }

    /// The same for the lines of the Before side.
    pub fn old_line_at_or_after(&self, row: usize) -> (line: Option<usize>)
        ensures
            stands_for(self.rows@, row as int, Side::Old, line),
    {
        self.line_at_or_after(row, Side::Old)
    }

    pub fn line_at_or_after(&self, row: usize, side: Side) -> (line: Option<usize>)
        ensures
            stands_for(self.rows@, row as int, side, line),
    {
        if row > self.rows.len() {
            return None;
        }
        let mut i: usize = row;
        while i < self.rows.len()
            invariant
                row <= i <= self.rows@.len(),
                forall|j: int| row <= j < i ==> line_on(#[trigger] self.rows@[j], side) is None,
            decreases self.rows@.len() - i,
        {
            let line = line_of(&self.rows[i], side);
            if line.is_some() {
                return line;
            }
            i += 1;
        }
        let mut k: usize = self.rows.len();
        while k > 0
            invariant
                k <= self.rows@.len(),
                row <= self.rows@.len(),
                forall|j: int|
                    row <= j < self.rows@.len() ==> line_on(#[trigger] self.rows@[j], side) is None,
                forall|j: int|
                    k <= j < self.rows@.len() ==> line_on(#[trigger] self.rows@[j], side) is None,
            decreases k,
        {
            k -= 1;
            let line = line_of(&self.rows[k], side);
            if line.is_some() {
                return line;
            }
        }
        None
    }

    /// The first row after `from` where a run of changed rows begins.
    pub fn changed_row_after(&self, from: usize) -> (row: Option<usize>)
        ensures
            next_hunk(self.rows@, from as int, row),
    {
        let starts = self.hunk_starts();
        let mut k: usize = 0;
        while k < starts.len()
            invariant
                0 <= k <= starts@.len(),
                lists_hunks(starts@, self.rows@),
                forall|j: int| 0 <= j < k ==> #[trigger] starts@[j] <= from,
            decreases starts@.len() - k,
        {
            if starts[k] > from {
                proof {
                    assert forall|i: int| from < i < starts@[k as int] implies !hunk_start(
                        self.rows@,
                        i,
                    ) by {
                        if hunk_start(self.rows@, i) {
                            let j = choose|j: int| 0 <= j < starts@.len() && starts@[j] == i;
                            assert(starts@[j] == i);
                            assert(starts@[k as int] > i);
                        }
                    }
                }
                return Some(starts[k]);
            }
            k += 1;
        }
        None
    }

    /// The last row before `from` where a run of changed rows begins.
    pub fn changed_row_before(&self, from: usize) -> (row: Option<usize>)
        ensures
            last_hunk(self.rows@, from as int, row),
    {
        let starts = self.hunk_starts();
        let mut k: usize = starts.len();
        while k > 0
            invariant
                0 <= k <= starts@.len(),
                lists_hunks(starts@, self.rows@),
                forall|j: int| k <= j < starts@.len() ==> #[trigger] starts@[j] >= from,
            decreases k,
        {
            k -= 1;
            if starts[k] < from {
                proof {
                    assert forall|i: int| starts@[k as int] < i < from implies !hunk_start(
                        self.rows@,
                        i,
                    ) by {
                        if hunk_start(self.rows@, i) {
                            let j = choose|j: int| 0 <= j < starts@.len() && starts@[j] == i;
                            assert(starts@[j] == i);
                            assert(starts@[k as int] < i);
                        }
                    }
                }
                return Some(starts[k]);
            }
        }
        None
    }

    /// The rows where runs of changed rows begin, in order.
    pub fn hunk_starts(&self) -> (starts: Vec<usize>)
        ensures
            lists_hunks(starts@, self.rows@),
    {
        let mut starts: Vec<usize> = Vec::new();
        let mut prev_changed = false;
        let mut i: usize = 0;
        while i < self.rows.len()
            invariant
                0 <= i <= self.rows@.len(),
                prev_changed == (i > 0 && self.rows@[i - 1].kind != RowKind::Equal),
                forall|k: int|
                    0 <= k < starts@.len() ==> #[trigger] starts@[k] < i && hunk_start(
                        self.rows@,
                        starts@[k] as int,
                    ),
                forall|j: int, k: int|
                    #![trigger starts@[j], starts@[k]]
                    0 <= j < k < starts@.len() ==> starts@[j] < starts@[k],
                forall|r: int|
                    r < i && #[trigger] hunk_start(self.rows@, r) ==> exists|k: int|
                        0 <= k < starts@.len() && starts@[k] == r,
            decreases self.rows@.len() - i,
        {
            let changed = self.rows[i].kind != RowKind::Equal;
            let ghost before = starts@;
            if changed && !prev_changed {
                starts.push(i);
                assert(starts@[before.len() as int] == i);
            }
            proof {
                assert forall|r: int| r < i + 1 && #[trigger] hunk_start(self.rows@, r) implies exists|
                    k: int,
                |
                    0 <= k < starts@.len() && starts@[k] == r by {
                    if r < i {
                        let k = choose|k: int| 0 <= k < before.len() && before[k] == r;
                        assert(starts@[k] == r);
                    } else {
                        assert(starts@[before.len() as int] == r);
                    }
                }
            }
            prev_changed = changed;
            i += 1;
        }
        starts
    }
}

/// Exactly the rows where runs of changed rows begin, in ascending order.
pub open spec fn lists_hunks(starts: Seq<usize>, rows: Seq<DiffRow>) -> bool {
    &&& forall|k: int| 0 <= k < starts.len() ==> hunk_start(rows, #[trigger] starts[k] as int)
    &&& forall|j: int, k: int|
        #![trigger starts[j], starts[k]]
        0 <= j < k < starts.len() ==> starts[j] < starts[k]
    &&& forall|r: int| #[trigger]
        hunk_start(rows, r) ==> exists|k: int| 0 <= k < starts.len() && starts[k] == r
}

/// An instant safely in the past, for builds and refinements that must bail:
/// one second before a reading of the clock, or a second reading where the clock
/// does not go back that far.
pub fn past() -> (instant: Instant)
    ensures
        exists|reading: Instant| #[trigger] second_before(reading, instant),
{
    let reading = Instant::now();
    let earlier = reading.checked_sub(Duration::from_secs(1));
    assert(is_reading(reading));
    assert(goes_back(reading, 1, earlier));
    let instant = match earlier {
        Some(instant) => instant,
        None => Instant::now(),
    };
    assert(second_before(reading, instant));
    instant
}

// ---- Laws ----------------------------------------------------------------

proof fn lines_ascend(rows: Seq<DiffRow>, o1: int, n1: int)
    requires
        walks(rows, 0, 0, o1, n1),
    ensures
        forall|i: int, j: int, side: Side|
            #![trigger line_on(rows[i], side), line_on(rows[j], side)]
            0 <= i < j < rows.len() && line_on(rows[i], side) is Some && line_on(rows[j], side) is Some
                ==> line_on(rows[i], side)->0 < line_on(rows[j], side)->0,
{
    walks_ascend(rows, 0, 0, o1, n1);
    assert forall|i: int, j: int, side: Side|
        #![trigger line_on(rows[i], side), line_on(rows[j], side)]
        0 <= i < j < rows.len() && line_on(rows[i], side) is Some && line_on(
            rows[j],
            side,
        ) is Some implies line_on(rows[i], side)->0 < line_on(rows[j], side)->0 by {
        match side {
            Side::Old => {},
            Side::New => {},
        }
    }
}

proof fn old_line_on_one_row(rows: Seq<DiffRow>, o1: int, n1: int, line: int)
    requires
        walks(rows, 0, 0, o1, n1),
        0 <= line < o1,
    ensures
        on_one_row(rows, Side::Old, line),
{
    lines_ascend(rows, o1, n1);
    let at = walks_finds_old(rows, 0, 0, o1, n1, line);
    assert(line_on(rows[at], Side::Old) is Some);
}

proof fn new_line_on_one_row(rows: Seq<DiffRow>, o1: int, n1: int, line: int)
    requires
        walks(rows, 0, 0, o1, n1),
        0 <= line < n1,
    ensures
        on_one_row(rows, Side::New, line),
{
    lines_ascend(rows, o1, n1);
    let at = walks_finds_new(rows, 0, 0, o1, n1, line);
    assert(line_on(rows[at], Side::New) is Some);
}

/// An alignment shows every line of either side on exactly one row, the lines of
/// each side in order, and no row without a line.
pub proof fn every_line_has_one_row(
    rows: Seq<DiffRow>,
    old: Seq<Seq<char>>,
    new: Seq<Seq<char>>,
)
    requires
        aligned(rows, old, new),
    ensures
        forall|line: int|
            0 <= line < old.len() ==> #[trigger] on_one_row(rows, Side::Old, line),
        forall|line: int|
            0 <= line < new.len() ==> #[trigger] on_one_row(rows, Side::New, line),
        forall|i: int, j: int, side: Side|
            #![trigger line_on(rows[i], side), line_on(rows[j], side)]
            0 <= i < j < rows.len() && line_on(rows[i], side) is Some && line_on(rows[j], side) is Some
                ==> line_on(rows[i], side)->0 < line_on(rows[j], side)->0,
        forall|i: int|
            0 <= i < rows.len() ==> (#[trigger] rows[i]).old_line is Some || rows[i].new_line is Some,
{
    let o1 = old.len() as int;
    let n1 = new.len() as int;
    walks_bounds(rows, 0, 0, o1, n1);
    lines_ascend(rows, o1, n1);
    assert forall|line: int| 0 <= line < old.len() implies #[trigger] on_one_row(
        rows,
        Side::Old,
        line,
    ) by {
        old_line_on_one_row(rows, o1, n1, line);
    }
    assert forall|line: int| 0 <= line < new.len() implies #[trigger] on_one_row(
        rows,
        Side::New,
        line,
    ) by {
        new_line_on_one_row(rows, o1, n1, line);
    }
}

/// Exactly one row shows the line.
pub open spec fn on_one_row(rows: Seq<DiffRow>, side: Side, line: int) -> bool {
    exists|at: int|
        #![trigger rows[at]]
        0 <= at < rows.len() && line_on(rows[at], side) is Some && line_on(rows[at], side)->0
            == line && forall|i: int|
            0 <= i < rows.len() && line_on(#[trigger] rows[i], side) is Some && line_on(
                rows[i],
                side,
            )->0 == line ==> i == at
}

/// A row is drawn as equal exactly when it shows two lines that are equal.
pub proof fn equal_rows_show_equal_lines(
    rows: Seq<DiffRow>,
    old: Seq<Seq<char>>,
    new: Seq<Seq<char>>,
    i: int,
)
    requires
        aligned(rows, old, new),
        0 <= i < rows.len(),
    ensures
        rows[i].kind == RowKind::Equal <==> rows[i].old_line is Some && rows[i].new_line is Some
            && old[rows[i].old_line->0 as int] == new[rows[i].new_line->0 as int],
        rows[i].kind == RowKind::Delete <==> rows[i].new_line is None,
        rows[i].kind == RowKind::Insert <==> rows[i].old_line is None,
{
    walks_bounds(rows, 0, 0, old.len() as int, new.len() as int);
    assert(rows[i] == row_of(rows[i].old_line, rows[i].new_line, old, new));
}

/// The map takes each new line to the only row that shows it.
pub proof fn map_finds_the_only_row(model: &DiffModel, new: Seq<Seq<char>>, row: int)
    requires
        model.fits(new),
        0 <= row < model.rows@.len(),
        model.rows@[row].new_line is Some,
    ensures
        model.rows@[row].new_line->0 < new.len(),
        model.new_line_to_row@[model.rows@[row].new_line->0 as int] == Some(row as usize),
{
    let o1 = model.old@.len() as int;
    let n1 = new.len() as int;
    walks_bounds(model.rows@, 0, 0, o1, n1);
    walks_ascend(model.rows@, 0, 0, o1, n1);
    let line = model.rows@[row].new_line->0 as int;
    let found = model.new_line_to_row@[line];
    assert(found is Some);
    let at = found->0 as int;
    assert(model.rows@[at].new_line == Some(line as usize));
}

/// Refining a window leaves every row outside it as it was.
pub proof fn refining_keeps_the_rows_outside(
    after: &DiffModel,
    before: &DiffModel,
    k: int,
    focus: Range<usize>,
    new: Seq<Seq<char>>,
    ops: Seq<Op>,
    ran_out: bool,
)
    requires
        before.fits(new),
        0 <= k < before.coarse@.len(),
        after.refines(before, k, focus, new, ops, ran_out),
    ensures
        ({
            let w = before.window(k, focus);
            let shift = after.rows@.len() - before.rows@.len();
            &&& forall|i: int| 0 <= i < w.0 ==> #[trigger] after.rows@[i] == before.rows@[i]
            &&& forall|i: int|
                w.1 <= i < before.rows@.len() ==> #[trigger] before.rows@[i] == after.rows@[i
                    + shift]
        }),
{
    before.span_facts(new, k);
}

/// How many lines the stretches still leave to diff, both sides counted.
pub open spec fn lines_left(spans: Seq<(int, int, int, int)>) -> int
    decreases spans.len(),
{
    if spans.len() == 0 {
        0
    } else {
        let b = spans.last();
        lines_left(spans.drop_last()) + (b.1 - b.0) + (b.3 - b.2)
    }
}

proof fn lines_left_concat(a: Seq<(int, int, int, int)>, b: Seq<(int, int, int, int)>)
    ensures
        lines_left(a + b) == lines_left(a) + lines_left(b),
    decreases b.len(),
{
    if b.len() == 0 {
        assert(a + b == a);
    } else {
        lines_left_concat(a, b.drop_last());
        assert((a + b).drop_last() == a + b.drop_last());
    }
}

proof fn lines_left_alone(b: (int, int, int, int))
    requires
        b.0 <= b.1,
        b.2 <= b.3,
    ensures
        lines_left(guess(b)) <= (b.1 - b.0) + (b.3 - b.2),
        0 <= lines_left(guess(b)),
        lines_left(seq![b]) == (b.1 - b.0) + (b.3 - b.2),
{
    assert(seq![b].drop_last() == Seq::<(int, int, int, int)>::empty());
    assert(lines_left(seq![b].drop_last()) == 0);
    assert(lines_left(seq![b]) == (b.1 - b.0) + (b.3 - b.2));
}

proof fn lines_left_of_ops(
    ops: Seq<Op>,
    o1: int,
    n1: int,
    old: Seq<Seq<char>>,
    new: Seq<Seq<char>>,
    oo: int,
    no: int,
)
    requires
        script_to(ops, o1, n1, old, new),
    ensures
        lines_left(spans_of_ops(ops, oo, no)) <= o1 + n1,
    decreases ops.len(),
{
    if ops.len() > 0 {
        let op = ops.last();
        lines_left_of_ops(
            ops.drop_last(),
            op.old.start as int,
            op.new.start as int,
            old,
            new,
            oo,
            no,
        );
        let before = spans_of_ops(ops.drop_last(), oo, no);
        let b = (op.old.start + oo, op.old.end + oo, op.new.start + no, op.new.end + no);
        assert(before.push(b).drop_last() == before);
    }
}

/// Refining never leaves more lines to diff than there were, and leaves fewer
/// whenever the window's own diff had time to finish: so a stretch that cannot
/// be finished in one go is finished across several.
pub proof fn refining_leaves_less(
    after: &DiffModel,
    before: &DiffModel,
    k: int,
    focus: Range<usize>,
    new: Seq<Seq<char>>,
    ops: Seq<Op>,
    ran_out: bool,
)
    requires
        before.fits(new),
        0 <= k < before.coarse@.len(),
        focus.start <= focus.end,
        script_within(
            ops,
            views(before.old@),
            new,
            before.window_old(k, focus),
            before.window_new(k, focus),
        ),
        after.refines(before, k, focus, new, ops, ran_out),
    ensures
        lines_left(all_bounds(after.coarse@)) <= lines_left(all_bounds(before.coarse@)),
        !ran_out ==> lines_left(all_bounds(after.coarse@)) < lines_left(
            all_bounds(before.coarse@),
        ),
{
    let spans = all_bounds(before.coarse@);
    let b = spans[k];
    let wo = before.window_old(k, focus);
    let wn = before.window_new(k, focus);
    before.span_facts(new, k);
    let hb = (b.0, wo.0, b.2, wn.0);
    let fb = (wo.1, b.1, wn.1, b.3);
    let inner = left_coarse(ops, ran_out, wo.0, wn.0);
    let s0 = spans.take(k);
    let s4 = spans.skip(k + 1);
    lines_left_alone(hb);
    lines_left_alone(fb);
    lines_left_alone(b);
    lines_left_of_ops(
        ops,
        wo.1 - wo.0,
        wn.1 - wn.0,
        views(before.old@).subrange(wo.0, wo.1),
        new.subrange(wn.0, wn.1),
        wo.0,
        wn.0,
    );
    lines_left_concat(s0, guess(hb));
    lines_left_concat(s0 + guess(hb), inner);
    lines_left_concat(s0 + guess(hb) + inner, guess(fb));
    lines_left_concat(s0 + guess(hb) + inner + guess(fb), s4);
    lines_left_concat(s0, seq![b]);
    lines_left_concat(s0 + seq![b], s4);
    assert(spans == s0 + seq![b] + s4);
}

/// A row stands for one line, whichever way it is found.
pub proof fn stands_for_one(
    rows: Seq<DiffRow>,
    row: int,
    side: Side,
    a: Option<usize>,
    b: Option<usize>,
)
    requires
        stands_for(rows, row, side, a),
        stands_for(rows, row, side, b),
    ensures
        a == b,
{
}

/// The line that a row stands for is one of the lines of its side.
pub proof fn stands_for_a_line(
    model: &DiffModel,
    new: Seq<Seq<char>>,
    row: int,
    side: Side,
    line: Option<usize>,
)
    requires
        model.fits(new),
        0 <= row,
        stands_for(model.rows@, row, side, line),
        line is Some,
    ensures
        side == Side::Old ==> line->0 < model.old@.len(),
        side == Side::New ==> line->0 < new.len(),
{
    walks_bounds(model.rows@, 0, 0, model.old@.len() as int, new.len() as int);
    assert(exists|i: int|
        0 <= i < model.rows@.len() && line_on(#[trigger] model.rows@[i], side) == line);
}

/// Every line that a row names is a line of its side.
pub proof fn rows_name_lines(model: &DiffModel, new: Seq<Seq<char>>)
    requires
        model.fits(new),
    ensures
        forall|i: int|
            #![trigger model.rows@[i]]
            0 <= i < model.rows@.len() ==> {
                &&& model.rows@[i].old_line is Some ==> model.rows@[i].old_line->0
                    < model.old@.len()
                &&& model.rows@[i].new_line is Some ==> model.rows@[i].new_line->0 < new.len()
            },
{
    walks_bounds(model.rows@, 0, 0, model.old@.len() as int, new.len() as int);
}

/// The starts of changes are the first rows of the stretches of changed rows: each is
/// changed and follows an equal row or none, an equal row lies between any two of them,
/// and from every changed row one of them is reached going up over changed rows alone.
pub proof fn a_change_has_one_start(starts: Seq<usize>, rows: Seq<DiffRow>)
    requires
        lists_hunks(starts, rows),
    ensures
        forall|k: int|
            #![trigger starts[k]]
            0 <= k < starts.len() ==> starts[k] < rows.len() && rows[starts[k] as int].kind
                != RowKind::Equal && (starts[k] > 0 ==> rows[starts[k] - 1].kind
                == RowKind::Equal),
        forall|j: int, k: int|
            #![trigger starts[j], starts[k]]
            0 <= j < k < starts.len() ==> equal_between(rows, starts[j] as int, starts[k] as int),
        forall|r: int|
            0 <= r < rows.len() && (#[trigger] rows[r]).kind != RowKind::Equal ==> exists|k: int|
                #![trigger starts[k]]
                0 <= k < starts.len() && starts[k] <= r && changed_between(
                    rows,
                    starts[k] as int,
                    r,
                ),
{
    assert forall|k: int|
        #![trigger starts[k]]
        0 <= k < starts.len() implies starts[k] < rows.len() && rows[starts[k] as int].kind
        != RowKind::Equal && (starts[k] > 0 ==> rows[starts[k] - 1].kind == RowKind::Equal) by {
        assert(hunk_start(rows, starts[k] as int));
    }
    assert forall|j: int, k: int|
        #![trigger starts[j], starts[k]]
        0 <= j < k < starts.len() implies equal_between(
        rows,
        starts[j] as int,
        starts[k] as int,
    ) by {
        assert(starts[j] < starts[k]);
        let i = starts[k] - 1;
        assert(rows[i].kind == RowKind::Equal);
        assert(i != starts[j]);
    }
    assert forall|r: int|
        0 <= r < rows.len() && (#[trigger] rows[r]).kind != RowKind::Equal implies exists|k: int|
        #![trigger starts[k]]
        0 <= k < starts.len() && starts[k] <= r && changed_between(rows, starts[k] as int, r) by {
        let s = start_above(rows, r);
        assert(hunk_start(rows, s));
    }
}

/// There is an equal row between two rows.
pub open spec fn equal_between(rows: Seq<DiffRow>, from: int, to: int) -> bool {
    exists|i: int| from < i < to && (#[trigger] rows[i]).kind == RowKind::Equal
}

/// The rows from one to another are all changed.
pub open spec fn changed_between(rows: Seq<DiffRow>, from: int, to: int) -> bool {
    forall|i: int| from <= i <= to ==> (#[trigger] rows[i]).kind != RowKind::Equal
}

proof fn start_above(rows: Seq<DiffRow>, r: int) -> (s: int)
    requires
        0 <= r < rows.len(),
        rows[r].kind != RowKind::Equal,
    ensures
        0 <= s <= r,
        rows[s].kind != RowKind::Equal,
        s > 0 ==> rows[s - 1].kind == RowKind::Equal,
        changed_between(rows, s, r),
    decreases r,
{
    if r == 0 || rows[r - 1].kind == RowKind::Equal {
        r
    } else {
        start_above(rows, r - 1)
    }
}

/// A jump down goes to the nearest change below that the row is not part of: it lands
/// on a changed row with equal rows, or the row itself, right above it, and passes over
/// no change that an equal row parts from the row it started on.
pub proof fn a_jump_down_finds_the_next_change(rows: Seq<DiffRow>, from: int, row: Option<usize>)
    requires
        0 <= from,
        next_hunk(rows, from, row),
    ensures
        row is Some ==> from < row->0 < rows.len() && rows[row->0 as int].kind != RowKind::Equal
            && rows[row->0 - 1].kind == RowKind::Equal,
        forall|e: int, c: int|
            #![trigger rows[e], rows[c]]
            from <= e < c < rows.len() && rows[e].kind == RowKind::Equal && rows[c].kind
                != RowKind::Equal ==> row is Some && row->0 <= c,
{
    if let Some(r) = row {
        assert(hunk_start(rows, r as int));
    }
    assert forall|e: int, c: int|
        #![trigger rows[e], rows[c]]
        from <= e < c < rows.len() && rows[e].kind == RowKind::Equal && rows[c].kind
            != RowKind::Equal implies row is Some && row->0 <= c by {
        let s = start_above(rows, c);
        assert(s > e) by {
            if s <= e {
                assert(rows[e].kind != RowKind::Equal);
            }
        }
        assert(hunk_start(rows, s));
        if let Some(r) = row {
            if s < r {
                assert(!hunk_start(rows, s));
            }
        }
    }
}

/// A jump up goes to the start of the nearest change above: of the one the row is in the
/// middle of, or else of the last one before it.
pub proof fn a_jump_up_finds_the_last_change(rows: Seq<DiffRow>, from: int, row: Option<usize>)
    requires
        last_hunk(rows, from, row),
    ensures
        row is Some ==> row->0 < from && row->0 < rows.len() && rows[row->0 as int].kind
            != RowKind::Equal && (row->0 > 0 ==> rows[row->0 - 1].kind == RowKind::Equal),
        row is Some ==> forall|c: int, e: int|
            #![trigger rows[c], rows[e]]
            row->0 < e < c < from && c < rows.len() && rows[e].kind == RowKind::Equal ==> rows[c].kind
                == RowKind::Equal,
        row is None ==> forall|c: int|
            0 <= c < from && c < rows.len() ==> (#[trigger] rows[c]).kind == RowKind::Equal,
{
    if let Some(r) = row {
        assert(hunk_start(rows, r as int));
        assert forall|c: int, e: int|
            #![trigger rows[c], rows[e]]
            r < e < c < from && c < rows.len() && rows[e].kind == RowKind::Equal implies rows[c].kind
            == RowKind::Equal by {
            if rows[c].kind != RowKind::Equal {
                let s = start_above(rows, c);
                assert(s > e) by {
                    if s <= e {
                        assert(rows[e].kind != RowKind::Equal);
                    }
                }
                assert(hunk_start(rows, s));
            }
        }
    } else {
        assert forall|c: int| 0 <= c < from && c < rows.len() implies (#[trigger] rows[c]).kind
            == RowKind::Equal by {
            if rows[c].kind != RowKind::Equal {
                let s = start_above(rows, c);
                assert(hunk_start(rows, s));
            }
        }
    }
}

/// A row shows one line of each side, or none of a side that has run out.
pub open spec fn shows_pair(row: DiffRow, old: (int, int), new: (int, int), i: int) -> bool {
    &&& if old.0 + i < old.1 {
        row.old_line is Some && row.old_line->0 == old.0 + i
    } else {
        row.old_line is None
    }
    &&& if new.0 + i < new.1 {
        row.new_line is Some && row.new_line->0 == new.0 + i
    } else {
        row.new_line is None
    }
}

proof fn piece_rows(
    ops: Seq<Op>,
    old: Seq<Seq<char>>,
    new: Seq<Seq<char>>,
    o1: int,
    n1: int,
    k: int,
    i: int,
) -> (row: int)
    requires
        script_to(ops, o1, n1, old, new),
        0 <= k < ops.len(),
        0 <= i,
        i < ops[k].old.end - ops[k].old.start || i < ops[k].new.end - ops[k].new.start,
    ensures
        0 <= row < rows_of_ops(ops, old, new, 0, 0).len(),
        shows_pair(
            rows_of_ops(ops, old, new, 0, 0)[row],
            (ops[k].old.start as int, ops[k].old.end as int),
            (ops[k].new.start as int, ops[k].new.end as int),
            i,
        ),
    decreases ops.len(),
{
    let op = ops.last();
    let init = ops.drop_last();
    let head = rows_of_ops(init, old, new, 0, 0);
    let tail = paired(
        op.old.start + 0,
        op.old.end + 0,
        op.new.start + 0,
        op.new.end + 0,
        old,
        new,
    );
    assert(rows_of_ops(ops, old, new, 0, 0) == head + tail);
    if k + 1 == ops.len() {
        assert((head + tail)[head.len() + i] == tail[i]);
        head.len() + i
    } else {
        let row = piece_rows(
            init,
            old,
            new,
            op.old.start as int,
            op.new.start as int,
            k,
            i,
        );
        assert((head + tail)[row] == head[row]);
        row
    }
}

/// Of a piece of the edit script the lines of the two sides stand opposite each other
/// from the top: its first two on one row, and so on, and the longer side goes on alone.
pub proof fn a_change_is_paired_from_the_top(
    model: &DiffModel,
    new: Seq<Seq<char>>,
    ops: Seq<Op>,
    ran_out: bool,
    k: int,
    i: int,
)
    requires
        script(ops, views(model.old@), new),
        model.shows(new, ops, ran_out),
        0 <= k < ops.len(),
        0 <= i,
        i < ops[k].old.end - ops[k].old.start || i < ops[k].new.end - ops[k].new.start,
    ensures
        exists|row: int|
            0 <= row < model.rows@.len() && shows_pair(
                #[trigger] model.rows@[row],
                (ops[k].old.start as int, ops[k].old.end as int),
                (ops[k].new.start as int, ops[k].new.end as int),
                i,
            ),
{
    let row = piece_rows(
        ops,
        views(model.old@),
        new,
        model.old@.len() as int,
        new.len() as int,
        k,
        i,
    );
    assert(model.rows@[row] == rows_of_ops(ops, views(model.old@), new, 0, 0)[row]);
}

/// A piece of the edit script that a diff without time for it would leave: two
/// stretches, of thirty-two lines or more together, that one replaces the other of.
pub open spec fn is_rough(op: Op) -> bool {
    op.tag == Tag::Replace && (op.old.end - op.old.start) + (op.new.end - op.new.start) >= 32
}

pub open spec fn has_bounds(op: Op, b: (int, int, int, int)) -> bool {
    b == (op.old.start as int, op.old.end as int, op.new.start as int, op.new.end as int)
}

/// One of the stretches is this piece of the edit script.
pub open spec fn is_among(spans: Seq<CoarseSpan>, op: Op) -> bool {
    exists|j: int| 0 <= j < spans.len() && has_bounds(op, bounds(#[trigger] spans[j]))
}

/// The stretch is a rough piece of the edit script.
pub open spec fn is_rough_piece(ops: Seq<Op>, span: CoarseSpan) -> bool {
    exists|k: int| 0 <= k < ops.len() && is_rough(#[trigger] ops[k]) && has_bounds(ops[k], bounds(span))
}

proof fn rough_piece_is_kept(ops: Seq<Op>, k: int) -> (j: int)
    requires
        0 <= k < ops.len(),
        is_rough(ops[k]),
    ensures
        0 <= j < spans_of_ops(ops, 0, 0).len(),
        has_bounds(ops[k], spans_of_ops(ops, 0, 0)[j]),
    decreases ops.len(),
{
    let init = ops.drop_last();
    let before = spans_of_ops(init, 0, 0);
    if k + 1 == ops.len() {
        assert(gave_up(ops.last()));
        before.len() as int
    } else {
        assert(init[k] == ops[k]);
        rough_piece_is_kept(init, k)
    }
}

proof fn kept_is_a_rough_piece(ops: Seq<Op>, j: int) -> (k: int)
    requires
        0 <= j < spans_of_ops(ops, 0, 0).len(),
    ensures
        0 <= k < ops.len(),
        is_rough(ops[k]),
        has_bounds(ops[k], spans_of_ops(ops, 0, 0)[j]),
    decreases ops.len(),
{
    let init = ops.drop_last();
    let before = spans_of_ops(init, 0, 0);
    if j < before.len() {
        let k = kept_is_a_rough_piece(init, j);
        assert(init[k] == ops[k]);
        k
    } else {
        ops.len() - 1
    }
}

/// A diff that had its time leaves nothing to do. One that ran out of it leaves every
/// rough piece of its script to be diffed again, and nothing else.
pub proof fn what_was_cut_short_is_done_again(
    model: &DiffModel,
    new: Seq<Seq<char>>,
    ops: Seq<Op>,
    ran_out: bool,
)
    requires
        model.shows(new, ops, ran_out),
    ensures
        !ran_out ==> model.coarse@.len() == 0,
        ran_out ==> forall|k: int|
            0 <= k < ops.len() && is_rough(#[trigger] ops[k]) ==> is_among(model.coarse@, ops[k]),
        forall|j: int|
            0 <= j < model.coarse@.len() ==> is_rough_piece(ops, #[trigger] model.coarse@[j]),
{
    let all = all_bounds(model.coarse@);
    assert(all.len() == model.coarse@.len());
    if ran_out {
        let spans = spans_of_ops(ops, 0, 0);
        assert(all == spans);
        assert forall|k: int| 0 <= k < ops.len() && is_rough(#[trigger] ops[k]) implies is_among(
            model.coarse@,
            ops[k],
        ) by {
            let j = rough_piece_is_kept(ops, k);
            assert(all[j] == bounds(model.coarse@[j]));
        }
        assert forall|j: int| 0 <= j < model.coarse@.len() implies is_rough_piece(
            ops,
            #[trigger] model.coarse@[j],
        ) by {
            assert(all[j] == bounds(model.coarse@[j]));
            let k = kept_is_a_rough_piece(ops, j);
            assert(is_rough(ops[k]));
        }
    }
}

/// Refining looks at all the rows of a stretch that are asked for and at two hundred on
/// either side of them, at no row outside the stretch, and at the lines that those rows
/// show and no others.
pub proof fn refining_takes_the_rows_asked_for(
    model: &DiffModel,
    new: Seq<Seq<char>>,
    k: int,
    focus: Range<usize>,
    row: int,
)
    requires
        model.fits(new),
        0 <= k < model.coarse@.len(),
        focus.start <= focus.end,
    ensures
        ({
            let w = model.window(k, focus);
            let wo = model.window_old(k, focus);
            let wn = model.window_new(k, focus);
            &&& model.span_start(k) <= w.0 <= w.1 <= model.span_end(k)
            &&& model.span_start(k) <= row < model.span_end(k) && focus.start <= row < focus.end
                ==> w.0 <= row < w.1
            &&& model.span_start(k) <= row < model.span_end(k) && model.span_start(k) < focus.end
                && focus.start < model.span_end(k) ==> (w.0 <= row < w.1 <==> focus.start - 200
                <= row < focus.end + 200)
            &&& 0 <= row < model.rows@.len() && model.span_start(k) <= row < model.span_end(k)
                && model.rows@[row].old_line is Some ==> (w.0 <= row < w.1 <==> wo.0
                <= model.rows@[row].old_line->0 < wo.1)
            &&& 0 <= row < model.rows@.len() && model.span_start(k) <= row < model.span_end(k)
                && model.rows@[row].new_line is Some ==> (w.0 <= row < w.1 <==> wn.0
                <= model.rows@[row].new_line->0 < wn.1)
        }),
{
    model.span_facts(new, k);
    let b = bounds(model.coarse@[k]);
    let at = model.span_start(k);
    let len = larger(b.1 - b.0, b.3 - b.2);
    let pairs = paired(b.0, b.1, b.2, b.3, views(model.old@), new);
    if at <= row < at + len {
        assert(model.rows@.subrange(at, at + len)[row - at] == pairs[row - at]);
        assert(model.rows@[row] == pairs[row - at]);
    }
}

/// A row that shows a line on a side stands for it, and every other row for the next line
/// below it, which has all the lines above it before it.
pub proof fn a_row_stands_for_its_line(
    model: &DiffModel,
    new: Seq<Seq<char>>,
    row: int,
    side: Side,
    line: Option<usize>,
)
    requires
        model.fits(new),
        0 <= row < model.rows@.len(),
        stands_for(model.rows@, row, side, line),
    ensures
        line_on(model.rows@[row], side) is Some ==> line == line_on(model.rows@[row], side),
        line is Some ==> forall|above: int|
            #![trigger model.rows@[above]]
            0 <= above < row && line_on(model.rows@[above], side) is Some ==> line_on(
                model.rows@[above],
                side,
            )->0 <= line->0,
        line is Some && line_on(model.rows@[row], side) is None ==> forall|below: int|
            #![trigger model.rows@[below]]
            row < below < model.rows@.len() && line_on(model.rows@[below], side) is Some
                ==> line->0 <= line_on(model.rows@[below], side)->0,
        line is None ==> forall|i: int|
            0 <= i < model.rows@.len() ==> line_on(#[trigger] model.rows@[i], side) is None,
{
    lines_ascend(model.rows@, model.old@.len() as int, new.len() as int);
}

/// One of the stretches has these bounds.
pub open spec fn is_left(spans: Seq<CoarseSpan>, b: (int, int, int, int)) -> bool {
    exists|j: int| 0 <= j < spans.len() && bounds(#[trigger] spans[j]) == b
}

/// What refining did not look at is still to be refined: the other stretches, and of the
/// one it looked at what is above the window and what is below it, where both sides have
/// lines there.
pub proof fn what_was_not_looked_at_is_still_coarse(
    after: &DiffModel,
    before: &DiffModel,
    k: int,
    focus: Range<usize>,
    new: Seq<Seq<char>>,
    ops: Seq<Op>,
    ran_out: bool,
    j: int,
)
    requires
        0 <= k < before.coarse@.len(),
        after.refines(before, k, focus, new, ops, ran_out),
        0 <= j < before.coarse@.len(),
    ensures
        ({
            let b = bounds(before.coarse@[k]);
            let wo = before.window_old(k, focus);
            let wn = before.window_new(k, focus);
            &&& j != k ==> is_left(after.coarse@, bounds(before.coarse@[j]))
            &&& b.0 < wo.0 && b.2 < wn.0 ==> is_left(after.coarse@, (b.0, wo.0, b.2, wn.0))
            &&& wo.1 < b.1 && wn.1 < b.3 ==> is_left(after.coarse@, (wo.1, b.1, wn.1, b.3))
        }),
{
    let spans = all_bounds(before.coarse@);
    let all = all_bounds(after.coarse@);
    let b = spans[k];
    let wo = before.window_old(k, focus);
    let wn = before.window_new(k, focus);
    let above = guess((b.0, wo.0, b.2, wn.0));
    let inner = left_coarse(ops, ran_out, wo.0, wn.0);
    let below = guess((wo.1, b.1, wn.1, b.3));
    assert(all == spans.take(k) + above + inner + below + spans.skip(k + 1));
    assert(forall|i: int| 0 <= i < all.len() ==> #[trigger] all[i] == bounds(after.coarse@[i]));
    assert(spans[j] == bounds(before.coarse@[j]));
    if j < k {
        assert(all[j] == spans[j]);
    } else if j > k {
        let at = k + above.len() + inner.len() + below.len() + (j - k - 1);
        assert(all[at] == spans[j]);
    }
    if b.0 < wo.0 && b.2 < wn.0 {
        assert(all[k] == (b.0, wo.0, b.2, wn.0));
    }
    if wo.1 < b.1 && wn.1 < b.3 {
        assert(all[k + above.len() + inner.len()] == (wo.1, b.1, wn.1, b.3));
    }
}

} // verus!

//! The Commits pane: the shape the command line asked for, and the line of
//! history it names, one page at a time.
use crate::text::{
    chars_of, decode_lossy, from_chars, number, owned, same, split_once, strip_end,
};
use vstd::prelude::*;

verus! {

/// One row of the pane: the id a pick hands to git, the id a reader sees, and
/// what the commit said it did.
#[derive(Debug, Clone, PartialEq, Eq)]
pub struct Commit {
    pub hash: String,
    pub short: String,
    pub subject: String,
}

/// The Current pane's label when it is the working tree rather than a revision.
pub const WORKING_TREE: &'static str = "Working Tree";

/// Which end of a two-revision comparison the user wrote, so a pick can put the
/// commit back in the same form.
#[derive(Debug, Clone, Copy, PartialEq, Eq, Structural)]
pub enum Sep {
    /// `a..b`
    TwoDots,
    /// `a...b`
    ThreeDots,
    /// `a b`
    Space,
}

/// What the command line asked for, as one of the three forms `git diff` offers.
/// No revision is resolved here: this is a reading of the text, and the text is
/// what goes back to git.
#[allow(inconsistent_fields)]
#[derive(Debug, PartialEq, Eq)]
pub enum Shape {
    /// One revision against the working tree, and `None` for the `HEAD` that is
    /// compared against when nothing was typed. Every syntax that is not
    /// recognised lands here too, since a revision that cannot be read is still
    /// one git can.
    Worktree { base: Option<String> },
    /// `<rev>^!`: what one commit changed.
    Own { rev: String },
    /// `a..b`, `a...b`, `a b`: two revisions.
    Range { base: String, tip: String, sep: Sep },
}

/// What a shape says.
pub enum Form {
    Worktree(Option<Seq<char>>),
    Own(Seq<char>),
    Range(Seq<char>, Seq<char>, Sep),
}

impl View for Shape {
    type V = Form;

    open spec fn view(&self) -> Form {
        match *self {
            Shape::Worktree { base } => Form::Worktree(crate::document::opt_view(base)),
            Shape::Own { rev } => Form::Own(rev@),
            Shape::Range { base, tip, sep } => Form::Range(base@, tip@, sep),
        }
    }
}

/// One argument read as a form. The longer range operator is tried before the
/// shorter, which is a prefix of it; an omitted end of a range is `HEAD`.
pub open spec fn form_of_one(rev: Seq<char>) -> Form {
    match crate::text::halves(rev, "..."@) {
        Some((a, b)) => Form::Range(
            crate::git::end_of_range(a),
            crate::git::end_of_range(b),
            Sep::ThreeDots,
        ),
        None => match crate::text::halves(rev, ".."@) {
            Some((a, b)) => Form::Range(
                crate::git::end_of_range(a),
                crate::git::end_of_range(b),
                Sep::TwoDots,
            ),
            None => if crate::text::ends(rev, "^!"@) {
                Form::Own(rev.take(rev.len() - "^!"@.len()))
            } else {
                Form::Worktree(Some(rev))
            },
        },
    }
}

/// The arguments read as a form. Two is the most the command line lets through.
pub open spec fn form_of(revs: Seq<Seq<char>>) -> Form {
    if revs.len() == 0 {
        Form::Worktree(None)
    } else if revs.len() == 1 {
        form_of_one(revs[0])
    } else {
        Form::Range(revs[0], revs[1], Sep::Space)
    }
}

pub open spec fn hex(ch: char) -> bool {
    ('0' <= ch && ch <= '9') || ('a' <= ch && ch <= 'f') || ('A' <= ch && ch <= 'F')
}

/// A whole object id.
pub open spec fn is_id(rev: Seq<char>) -> bool {
    rev.len() == 40 && forall|i: int| 0 <= i < rev.len() ==> hex(#[trigger] rev[i])
}

/// An object id, whole or in part: hexadecimal digits, at least one.
pub open spec fn is_hash(rev: Seq<char>) -> bool {
    rev.len() > 0 && forall|i: int| 0 <= i < rev.len() ==> hex(#[trigger] rev[i])
}

/// A revision as a title says it: a whole object id in seven characters, any
/// other name as it is.
pub open spec fn titled(rev: Seq<char>) -> Seq<char> {
    if is_id(rev) {
        rev.take(7)
    } else {
        rev
    }
}

impl Form {
    /// The head of the line of history.
    pub open spec fn tip(self) -> Seq<char> {
        match self {
            Form::Worktree(Some(base)) => base,
            Form::Worktree(None) => "HEAD"@,
            Form::Own(rev) => rev,
            Form::Range(_, tip, _) => tip,
        }
    }

    /// The arguments that compare a picked commit in the same form.
    pub open spec fn retargeted(self, commit: Seq<char>) -> Seq<Seq<char>> {
        match self {
            Form::Worktree(None) => seq![commit + "^!"@],
            Form::Own(_) => seq![commit + "^!"@],
            Form::Worktree(Some(_)) => seq![commit],
            Form::Range(base, _, sep) => match sep {
                Sep::TwoDots => seq![base + ".."@ + commit],
                Sep::ThreeDots => seq![base + "..."@ + commit],
                Sep::Space => seq![base, commit],
            },
        }
    }

    /// The titles of the two panes.
    pub open spec fn labels(self, worktree: bool) -> (Seq<char>, Seq<char>) {
        let (old, new) = match self {
            Form::Worktree(Some(base)) => (titled(base), WORKING_TREE@),
            Form::Worktree(None) => ("HEAD"@, WORKING_TREE@),
            Form::Own(rev) => (titled(rev) + "^"@, titled(rev)),
            Form::Range(base, tip, _) => (titled(base), titled(tip)),
        };
        (
            old,
            if worktree {
                WORKING_TREE@
            } else {
                new
            },
        )
    }
}

fn range_end(text: String) -> (end: String)
    ensures
        end@ == crate::git::end_of_range(text@),
{
    if text.as_str().is_empty() {
        owned("HEAD")
    } else {
        text
    }
}

fn is_hex(ch: char) -> (found: bool)
    ensures
        found == hex(ch),
{
    (ch >= '0' && ch <= '9') || (ch >= 'a' && ch <= 'f') || (ch >= 'A' && ch <= 'F')
}

/// A title says the name the user thinks in, except when that name is a whole
/// object id, which is what picking a commit hands to git and which would eat the
/// pane. Abbreviated only when it is unmistakably an id, so a branch or tag is
/// never touched.
pub fn short(rev: &str) -> (title: String)
    ensures
        title@ == titled(rev@),
{
    let chars = chars_of(rev);
    if chars.len() != 40 {
        return owned(rev);
    }
    let mut i: usize = 0;
    while i < 40
        invariant
            0 <= i <= 40,
            chars@ == rev@,
            chars@.len() == 40,
            forall|j: int| 0 <= j < i ==> hex(#[trigger] rev@[j]),
        decreases 40 - i,
    {
        if !is_hex(chars[i]) {
            assert(!hex(rev@[i as int]));
            return owned(rev);
        }
        i += 1;
    }
    let title = from_chars(vstd::slice::slice_subrange(chars.as_slice(), 0, 7));
    proof {
        assert(rev@.subrange(0, 7) == rev@.take(7));
    }
    title
}

fn with_end(text: &str, end: &str) -> (all: String)
    ensures
        all@ == text@ + end@,
{
    let mut all = owned(text);
    all.push_str(end);
    all
}

impl Shape {
    /// The revisions as typed, read as one of the three forms.
    pub fn of(revs: &Vec<String>) -> (shape: Self)
        ensures
            shape@ == form_of(crate::text::views(revs@)),
    {
        if revs.len() == 0 {
            Shape::Worktree { base: None }
        } else if revs.len() == 1 {
            Shape::one(revs[0].as_str())
        } else {
            Shape::Range { base: revs[0].clone(), tip: revs[1].clone(), sep: Sep::Space }
        }
    }

    /// One argument, read as one of the three forms.
    pub fn one(rev: &str) -> (shape: Self)
        ensures
            shape@ == form_of_one(rev@),
    {
        if let Some((a, b)) = split_once(rev, "...") {
            return Shape::Range { base: range_end(a), tip: range_end(b), sep: Sep::ThreeDots };
        }
        if let Some((a, b)) = split_once(rev, "..") {
            return Shape::Range { base: range_end(a), tip: range_end(b), sep: Sep::TwoDots };
        }
        match strip_end(rev, "^!") {
            Some(base) => {
                proof {
                    assert(rev@.take(rev@.len() - "^!"@.len()) == base@);
                    assert(rev@.skip(rev@.len() - "^!"@.len()) == "^!"@);
                }
                Shape::Own { rev: base }
            },
            None => Shape::Worktree { base: Some(owned(rev)) },
        }
    }

    /// The head of the line of history the pane lists. Chosen once, at launch: a
    /// pick walks along the line rather than re-rooting it.
    pub fn tip(&self) -> (tip: String)
        ensures
            tip@ == self@.tip(),
    {
        match self {
            Shape::Worktree { base } => match base {
                Some(base) => base.clone(),
                None => owned("HEAD"),
            },
            Shape::Own { rev } => rev.clone(),
            Shape::Range { base: _, tip, sep: _ } => tip.clone(),
        }
    }

    /// The revisions to compare after picking a commit, in the form the user
    /// asked for. A launch with no revision at all is the one shape that changes:
    /// a commit picked out of a log means that commit's own changes everywhere
    /// else, and it means that here.
    pub fn retarget(&self, commit: &str) -> (revs: Vec<String>)
        ensures
            crate::text::views(revs@) == self@.retargeted(commit@),
    {
        let mut revs: Vec<String> = Vec::new();
        match self {
            Shape::Worktree { base } => match base {
                None => revs.push(with_end(commit, "^!")),
                Some(_) => revs.push(owned(commit)),
            },
            Shape::Own { rev: _ } => revs.push(with_end(commit, "^!")),
            Shape::Range { base, tip: _, sep } => match sep {
                Sep::TwoDots => revs.push(with_end(with_end(base.as_str(), "..").as_str(), commit)),
                Sep::ThreeDots => revs.push(
                    with_end(with_end(base.as_str(), "...").as_str(), commit),
                ),
                Sep::Space => {
                    revs.push(base.clone());
                    revs.push(owned(commit));
                },
            },
        }
        proof {
            assert(crate::text::views(revs@) == self@.retargeted(commit@));
        }
        revs
    }

    /// The revisions for the Working tree row: the default, except under a range,
    /// where the base is what the working tree is worth comparing against.
    pub fn working_tree(&self) -> (revs: Vec<String>)
        ensures
            crate::text::views(revs@) == (match self@ {
                Form::Range(base, _, _) => seq![base],
                _ => Seq::empty(),
            }),
    {
        let mut revs: Vec<String> = Vec::new();
        if let Shape::Range { base, tip: _, sep: _ } = self {
            revs.push(base.clone());
        }
        proof {
            assert(crate::text::views(revs@) == (match self@ {
                Form::Range(base, _, _) => seq![base],
                _ => Seq::empty(),
            }));
        }
        revs
    }

    /// Whether picking this row would leave the working tree on the Current side,
    /// and so an editor where the unsaved edits are.
    pub fn pick_keeps_worktree(&self, commit: Option<&str>) -> (keeps: bool)
        ensures
            keeps == (commit is None || (self@ is Worktree && self@->Worktree_0 is Some)),
    {
        match commit {
            // The Working tree row always has one.
            None => true,
            Some(_) => match self {
                Shape::Worktree { base } => base.is_some(),
                _ => false,
            },
        }
    }

    /// What the two panes are looking at, for their titles. `worktree` is git's
    /// own answer to which side the working tree is on, which a reading of the
    /// syntax cannot give.
    pub fn labels(&self, worktree: bool) -> (labels: (String, String))
        ensures
            (labels.0@, labels.1@) == self@.labels(worktree),
    {
        let (old, new) = match self {
            Shape::Worktree { base } => (
                match base {
                    Some(base) => short(base.as_str()),
                    None => owned("HEAD"),
                },
                owned(WORKING_TREE),
            ),
            Shape::Own { rev } => (
                with_end(short(rev.as_str()).as_str(), "^"),
                short(rev.as_str()),
            ),
            Shape::Range { base, tip, sep: _ } => (short(base.as_str()), short(tip.as_str())),
        };
        if worktree {
            (old, owned(WORKING_TREE))
        } else {
            (old, new)
        }
    }
}

/// Rows at least this many, however short the pane: a page is a process spawn,
/// and a handful of rows per spawn would make holding the arrow key cost one for
/// every screen.
pub const MIN_PAGE: usize = 64;

/// The line of history the pane lists, as far down it as anyone has looked.
///
/// The history is not counted and not read whole: pages arrive from `git log` as
/// the cursor approaches the end of what is loaded, and the pane draws the rows on
/// screen rather than the rows it holds.
pub struct Commits {
    pub tip: String,
    /// Rows per page, never fewer than this however short the pane.
    pub page_floor: usize,
    pub rows: Vec<Commit>,
    /// A page came back short, so there is nothing further down.
    pub exhausted: bool,
    /// Where the reader is, counting the Working tree row as 0.
    pub cursor: usize,
    /// The first row on screen, in the same counting.
    pub scroll: usize,
    /// The commit being compared, by hash: an index would drift as commits
    /// arrive above it. `None` is the Working tree row.
    pub target: Option<String>,
}

/// Rows of history to ask git for.
#[derive(Debug, Clone, Copy, PartialEq, Eq)]
pub struct Page {
    pub skip: usize,
    pub count: usize,
}

pub open spec fn larger(a: int, b: int) -> int {
    if a >= b {
        a
    } else {
        b
    }
}

pub open spec fn smaller(a: int, b: int) -> int {
    if a <= b {
        a
    } else {
        b
    }
}

/// A row moved by a number of rows, as far as there are numbers for it.
pub open spec fn moved(row: int, by: int) -> int {
    smaller(larger(row + by, 0), usize::MAX as int)
}

/// The smallest scroll that shows the cursor, from where the view is.
pub open spec fn following(scroll: int, cursor: int, viewport: int, len: int) -> int {
    smaller(larger(smaller(scroll, cursor), cursor + 1 - larger(viewport, 1)), larger(len - 1, 0))
}

fn shifted(row: usize, by: isize) -> (next: usize)
    ensures
        next == moved(row as int, by as int),
{
    let next: i128 = row as i128 + by as i128;
    if next < 0 {
        0
    } else if next > usize::MAX as i128 {
        usize::MAX
    } else {
        next as usize
    }
}

impl Commits {
    /// There is a row for the working tree above the commits.
    pub open spec fn row_count(&self) -> int {
        (self.rows@.len() + 1) as int
    }

    /// The rows can be counted, the one above the commits included.
    pub open spec fn countable(&self) -> bool {
        self.rows@.len() < usize::MAX
    }

    /// Nothing but the place of the reader has changed.
    pub open spec fn same_history(&self, before: &Commits) -> bool {
        &&& self.tip == before.tip
        &&& self.page_floor == before.page_floor
        &&& self.rows == before.rows
        &&& self.exhausted == before.exhausted
        &&& self.target == before.target
    }

    /// A page is at least two screens.
    pub open spec fn page_size(&self, viewport: int) -> int {
        smaller(larger(viewport * 2, self.page_floor as int), usize::MAX as int)
    }

    pub fn new(tip: String) -> (commits: Self)
        ensures
            commits.tip == tip,
            commits.page_floor == MIN_PAGE,
            commits.rows@.len() == 0,
            !commits.exhausted,
            commits.cursor == 0,
            commits.scroll == 0,
            commits.target is None,
    {
        Self::with_page_floor(tip, MIN_PAGE)
    }

    /// The same, with the page floor said out loud.
    pub fn with_page_floor(tip: String, page_floor: usize) -> (commits: Self)
        ensures
            commits.tip == tip,
            commits.page_floor == page_floor,
            commits.rows@.len() == 0,
            !commits.exhausted,
            commits.cursor == 0,
            commits.scroll == 0,
            commits.target is None,
    {
        Commits {
            tip,
            page_floor,
            rows: Vec::new(),
            exhausted: false,
            cursor: 0,
            scroll: 0,
            target: None,
        }
    }

    pub fn tip(&self) -> (tip: &str)
        ensures
            tip@ == self.tip@,
    {
        self.tip.as_str()
    }

    /// Rows including the Working tree row above them.
    pub fn len(&self) -> (count: usize)
        requires
            self.countable(),
        ensures
            count == self.row_count(),
    {
        self.rows.len() + 1
    }

    /// The commit a row stands for, or `None` for the Working tree row.
    pub fn at(&self, row: usize) -> (commit: Option<&Commit>)
        ensures
            match commit {
                Some(commit) => 1 <= row <= self.rows@.len() && *commit == self.rows@[row - 1],
                None => row == 0 || row > self.rows@.len(),
            },
    {
        if row == 0 || row > self.rows.len() {
            None
        } else {
            Some(&self.rows[row - 1])
        }
    }

    /// The row is the one being compared.
    pub open spec fn targets(&self, row: int) -> bool {
        if 1 <= row <= self.rows@.len() {
            self.target is Some && self.rows@[row - 1].hash@ == self.target->0@
        } else {
            self.target is None
        }
    }

    /// Whether a row is the one being compared.
    pub fn is_target(&self, row: usize) -> (found: bool)
        ensures
            found == self.targets(row as int),
    {
        match self.at(row) {
            None => self.target.is_none(),
            Some(commit) => match &self.target {
                Some(hash) => same(&commit.hash, hash),
                None => false,
            },
        }
    }

    pub fn set_target(&mut self, hash: Option<String>)
        ensures
            final(self).target == hash,
            final(self).tip == old(self).tip,
            final(self).page_floor == old(self).page_floor,
            final(self).rows == old(self).rows,
            final(self).exhausted == old(self).exhausted,
            final(self).cursor == old(self).cursor,
            final(self).scroll == old(self).scroll,
    {
        self.target = hash;
    }

    /// Where the cursor is, and how many rows there are.
    pub open spec fn position_words(&self) -> Seq<char> {
        crate::text::decimal(self.cursor + 1) + "/"@ + crate::text::decimal(self.row_count()) + (
        if self.exhausted {
            ""@
        } else {
            "+"@
        })
    }

    /// `12/200+` while more may be waiting, `12/200` once the end is known.
    pub fn position(&self) -> (text: String)
        requires
            self.countable(),
            self.cursor < usize::MAX,
        ensures
            text@ == self.position_words(),
    {
        let mut text = number((self.cursor + 1) as u64);
        text.push_str("/");
        text.push_str(number(self.len() as u64).as_str());
        if self.exhausted {
            text.push_str("");
        } else {
            text.push_str("+");
        }
        text
    }

    /// More history is wanted when the cursor or the view has come within a
    /// screen of the end of what is loaded.
    pub open spec fn wants(&self, viewport: int) -> bool {
        !self.exhausted && larger(self.cursor as int, self.scroll as int) + viewport + 1
            >= self.row_count()
    }

    /// The page to fetch when the cursor or the view has come within a screen of
    /// the end of what is loaded. Asked after every move and every scroll, and
    /// again after every page that arrives, until there is nothing to fetch.
    pub fn ensure_loaded(&self, viewport: usize) -> (page: Option<Page>)
        ensures
            self.wants(viewport as int) <==> page is Some,
            page is Some ==> page->0.skip == self.rows@.len() && page->0.count == self.page_size(
                viewport as int,
            ),
    {
        if self.exhausted {
            return None;
        }
        let reach: u128 = (if self.cursor >= self.scroll {
            self.cursor
        } else {
            self.scroll
        }) as u128;
        if reach + viewport as u128 + 1 < self.rows.len() as u128 + 1 {
            return None;
        }
        let screens: usize = viewport.saturating_add(viewport);
        let count: usize = if screens >= self.page_floor {
            screens
        } else {
            self.page_floor
        };
        Some(Page { skip: self.rows.len(), count })
    }

    /// A page that arrived. One shorter than what was asked for is the last.
    pub fn add_page(&mut self, next: Vec<Commit>, page: Page)
        ensures
            final(self).rows@ == old(self).rows@ + next@,
            final(self).exhausted == (next@.len() < page.count),
            final(self).tip == old(self).tip,
            final(self).page_floor == old(self).page_floor,
            final(self).cursor == old(self).cursor,
            final(self).scroll == old(self).scroll,
            final(self).target == old(self).target,
    {
        self.exhausted = next.len() < page.count;
        let mut next = next;
        self.rows.append(&mut next);
    }

    /// Start again from the first page. What comes back is the hash of the commit
    /// under the cursor, for `find_again` once the page has arrived.
    pub fn reload(&mut self) -> (was: Option<String>)
        ensures
            match was {
                Some(hash) => 1 <= old(self).cursor <= old(self).rows@.len() && hash@ == old(self).rows@[old(self).cursor - 1].hash@,
                None => old(self).cursor == 0 || old(self).cursor > old(self).rows@.len(),
            },
            final(self).rows@.len() == 0,
            !final(self).exhausted,
            final(self).cursor == 0,
            final(self).scroll == 0,
            final(self).tip == old(self).tip,
            final(self).page_floor == old(self).page_floor,
            final(self).target == old(self).target,
    {
        let was = match self.at(self.cursor) {
            Some(commit) => Some(commit.hash.clone()),
            None => None,
        };
        self.rows = Vec::new();
        self.exhausted = false;
        self.cursor = 0;
        self.scroll = 0;
        was
    }

    /// The first row below `upto` whose commit has this hash, or the Working tree
    /// row.
    pub open spec fn row_of_hash(&self, hash: Seq<char>, upto: int) -> int
        decreases upto,
    {
        if upto <= 0 {
            0
        } else {
            let above = self.row_of_hash(hash, upto - 1);
            if above > 0 {
                above
            } else if self.rows@[upto - 1].hash@ == hash {
                upto
            } else {
                0
            }
        }
    }

    /// Put the cursor back on the commit it was on, so a commit made above it does
    /// not shift it. A cursor whose commit is gone goes to the Working tree row.
    /// Only as far as has been loaded: a commit further down than the reader had
    /// scrolled is not worth pages of `git log` to find.
    pub fn find_again(&mut self, was: Option<String>)
        requires
            old(self).countable(),
        ensures
            final(self).same_history(old(self)),
            final(self).scroll == old(self).scroll,
            match was {
                Some(hash) => final(self).cursor == old(self).row_of_hash(
                    hash@,
                    old(self).rows@.len() as int,
                ),
                None => final(self).cursor == old(self).cursor,
            },
    {
        if let Some(hash) = was {
            let mut found: usize = 0;
            let mut i: usize = 0;
            while i < self.rows.len()
                invariant
                    0 <= i <= self.rows@.len(),
                    self.rows@.len() < usize::MAX,
                    found == self.row_of_hash(hash@, i as int),
                decreases self.rows@.len() - i,
            {
                if found == 0 && same(&self.rows[i].hash, &hash) {
                    found = i + 1;
                }
                i += 1;
            }
            self.cursor = found;
        }
    }

    /// Move the cursor by rows, to where the move wants it: what the move will
    /// need is asked for before it is clamped to what is loaded, or a move into
    /// rows that have not arrived stops short of them. `settle` follows once they
    /// have.
    pub fn move_cursor(&mut self, by: isize)
        ensures
            final(self).same_history(old(self)),
            final(self).cursor == moved(old(self).cursor as int, by as int),
            final(self).scroll == old(self).scroll,
    {
        self.cursor = shifted(self.cursor, by);
    }

    /// Clamp the cursor to what exists, and let the view follow it.
    pub fn settle(&mut self, viewport: usize)
        requires
            old(self).countable(),
        ensures
            final(self).same_history(old(self)),
            final(self).cursor == smaller(old(self).cursor as int, old(self).row_count() - 1),
            final(self).scroll == following(
                old(self).scroll as int,
                final(self).cursor as int,
                viewport as int,
                old(self).row_count(),
            ),
    {
        self.go_to(self.cursor, viewport);
    }

    /// Put the cursor on a row.
    pub fn go_to(&mut self, row: usize, viewport: usize)
        requires
            old(self).countable(),
        ensures
            final(self).same_history(old(self)),
            final(self).cursor == smaller(row as int, old(self).row_count() - 1),
            final(self).scroll == following(
                old(self).scroll as int,
                final(self).cursor as int,
                viewport as int,
                old(self).row_count(),
            ),
    {
        let last: usize = self.rows.len();
        self.cursor = if row <= last {
            row
        } else {
            last
        };
        self.keep_cursor_visible(viewport);
    }

    /// The view follows the cursor by the smallest move that shows it, so paging
    /// up and down does not jump the list around.
    pub fn keep_cursor_visible(&mut self, viewport: usize)
        requires
            old(self).countable(),
        ensures
            final(self).same_history(old(self)),
            final(self).cursor == old(self).cursor,
            final(self).scroll == following(
                old(self).scroll as int,
                old(self).cursor as int,
                viewport as int,
                old(self).row_count(),
            ),
    {
        let rows: usize = if viewport >= 1 {
            viewport
        } else {
            1
        };
        let mut scroll: usize = if self.scroll <= self.cursor {
            self.scroll
        } else {
            self.cursor
        };
        if self.cursor >= rows {
            let first: usize = self.cursor - rows + 1;
            if scroll < first {
                scroll = first;
            }
        }
        let last: usize = self.rows.len();
        self.scroll = if scroll <= last {
            scroll
        } else {
            last
        };
    }

    /// Scroll without moving the cursor, which is what the wheel does.
    pub fn scroll_by(&mut self, by: isize)
        requires
            old(self).countable(),
        ensures
            final(self).same_history(old(self)),
            final(self).cursor == old(self).cursor,
            final(self).scroll == smaller(
                moved(old(self).scroll as int, by as int),
                old(self).row_count() - 1,
            ),
    {
        let next: usize = shifted(self.scroll, by);
        let last: usize = self.rows.len();
        self.scroll = if next <= last {
            next
        } else {
            last
        };
    }
}

/// What one page of history says: three fields per commit, each ended by a zero
/// byte.
pub open spec fn log_rows(fields: Seq<Seq<u8>>) -> Seq<(Seq<char>, Seq<char>, Seq<char>)>
    decreases fields.len(),
{
    if fields.len() < 3 {
        Seq::empty()
    } else {
        seq![
            (
                crate::text::lossy(fields[0]),
                crate::text::lossy(fields[1]),
                crate::text::lossy(fields[2]),
            ),
        ] + log_rows(fields.skip(3))
    }
}

pub open spec fn commit_views(rows: Seq<Commit>) -> Seq<(Seq<char>, Seq<char>, Seq<char>)> {
    Seq::new(rows.len(), |i: int| (rows[i].hash@, rows[i].short@, rows[i].subject@))
}

/// The commits of one page of `git log`, from the fields it printed: the id, the
/// short id and the subject of each, one after the other. A subject is whatever
/// the commit said; only zero bytes separate the fields.
pub fn read_log(fields: &Vec<Vec<u8>>) -> (rows: Vec<Commit>)
    ensures
        commit_views(rows@) == log_rows(crate::text::byte_views(fields@)),
{
    let ghost all = crate::text::byte_views(fields@);
    let mut rows: Vec<Commit> = Vec::new();
    let mut i: usize = 0;
    proof {
        assert(all.skip(0) == all);
        assert(commit_views(rows@) + log_rows(all) == log_rows(all));
    }
    while fields.len() - i >= 3
        invariant
            0 <= i <= fields@.len(),
            all == crate::text::byte_views(fields@),
            commit_views(rows@) + log_rows(all.skip(i as int)) == log_rows(all),
        decreases fields@.len() - i,
    {
        let ghost had = commit_views(rows@);
        let commit = Commit {
            hash: decode_lossy(fields[i].as_slice()),
            short: decode_lossy(fields[i + 1].as_slice()),
            subject: decode_lossy(fields[i + 2].as_slice()),
        };
        let ghost row = (commit.hash@, commit.short@, commit.subject@);
        rows.push(commit);
        proof {
            let rest = all.skip(i as int);
            assert(rest[0] == fields@[i as int]@);
            assert(rest[1] == fields@[i + 1]@);
            assert(rest[2] == fields@[i + 2]@);
            assert(rest.skip(3) == all.skip(i + 3));
            assert(commit_views(rows@) == had.push(row));
            assert(had + (seq![row] + log_rows(all.skip(i + 3))) == had.push(row) + log_rows(
                all.skip(i + 3),
            ));
        }
        i += 3;
    }
    proof {
        assert(commit_views(rows@) + Seq::empty() == commit_views(rows@));
    }
    rows
}

// ---- Laws ----------------------------------------------------------------

/// A view that follows the cursor shows it, and does not move when it already
/// did.
pub proof fn the_cursor_is_on_screen(scroll: int, cursor: int, viewport: int, len: int)
    requires
        0 <= scroll,
        0 <= cursor < len,
        1 <= viewport,
    ensures
        ({
            let after = following(scroll, cursor, viewport, len);
            &&& 0 <= after <= cursor < after + viewport
            &&& scroll <= cursor < scroll + viewport ==> after == scroll
        }),
{
}

/// Each page that arrives either brings rows or ends the history, so asking for
/// pages comes to an end as soon as the history does.
pub proof fn a_page_brings_rows_or_ends(before: &Commits, after: &Commits, got: int, count: int)
    requires
        count > 0,
        0 <= got,
        after.rows@.len() == before.rows@.len() + got,
        after.exhausted == (got < count),
    ensures
        after.rows@.len() > before.rows@.len() || after.exhausted,
{
}

/// The titles read off the form of one argument are those read off its text, for
/// a name that is no whole object id.
pub proof fn titles_agree(rev: Seq<char>, worktree: bool)
    requires
        !is_id(crate::git::sides_of(rev).0),
        !is_id(crate::git::sides_of(rev).1),
        form_of_one(rev) is Own ==> !is_id(form_of_one(rev)->Own_0),
    ensures
        form_of(seq![rev]).labels(worktree) == crate::git::labels_of(seq![rev], worktree),
{
}

/// A text is found where it first is.
pub proof fn found_first(text: Seq<char>, pat: Seq<char>, from: int, at: int)
    requires
        0 <= from <= at,
        at + pat.len() <= text.len(),
        text.subrange(at, at + pat.len()) == pat,
        forall|j: int|
            from <= j < at ==> #[trigger] text.subrange(j, j + pat.len()) != pat,
    ensures
        crate::text::index_of(text, pat, from) == Some(at),
    decreases at - from,
{
    if from < at {
        found_first(text, pat, from + 1, at);
    }
}

/// A text that is nowhere is not found.
pub proof fn found_nowhere(text: Seq<char>, pat: Seq<char>, from: int)
    requires
        0 <= from,
        forall|j: int|
            from <= j && j + pat.len() <= text.len() ==> #[trigger] text.subrange(
                j,
                j + pat.len(),
            ) != pat,
    ensures
        crate::text::index_of(text, pat, from) is None,
    decreases text.len() + 1 - from,
{
    if from + pat.len() <= text.len() {
        found_nowhere(text, pat, from + 1);
    }
}

/// A name that git allows: no two dots in a row, and no dot at the end.
pub open spec fn is_name(text: Seq<char>) -> bool {
    &&& forall|i: int|
        0 <= i && i + 1 < text.len() && #[trigger] text[i] == '.' ==> text[i + 1] != '.'
    &&& text.len() > 0 ==> text.last() != '.'
}

/// A text of two names with dots between them is read as the range they make.
proof fn range_is_read(base: Seq<char>, tip: Seq<char>, three: bool)
    requires
        is_name(base),
        base.len() > 0,
        is_hash(tip),
    ensures
        form_of_one(
            base + (if three {
                "..."@
            } else {
                ".."@
            }) + tip,
        ) == Form::Range(
            base,
            tip,
            if three {
                Sep::ThreeDots
            } else {
                Sep::TwoDots
            },
        ),
{
    reveal_strlit("..");
    reveal_strlit("...");
    let dots = if three { "..."@ } else { ".."@ };
    let text = base + dots + tip;
    let at = base.len() as int;
    assert(forall|i: int| 0 <= i < tip.len() ==> #[trigger] text[at + dots.len() + i] == tip[i]);
    assert(forall|i: int| 0 <= i < base.len() ==> #[trigger] text[i] == base[i]);
    assert forall|j: int| 0 <= j < at implies #[trigger] text.subrange(j, j + dots.len()) != dots by {
        let part = text.subrange(j, j + dots.len());
        assert(part[0] == base[j]);
        assert(part[1] == text[j + 1]);
        if part[0] == '.' && part[1] == '.' {
            if j + 1 < at {
                assert(text[j + 1] == base[j + 1]);
            } else {
                assert(base[j] == base.last());
            }
        }
    }
    assert(text.subrange(at, at + dots.len()) == dots);
    found_first(text, dots, 0, at);
    assert(text.take(at) == base);
    assert(text.skip(at + dots.len()) == tip);
    if !three {
        let more = "..."@;
        assert forall|j: int| 0 <= j && j + more.len() <= text.len() implies #[trigger] text.subrange(
            j,
            j + more.len(),
        ) != more by {
            let part = text.subrange(j, j + 3);
            assert(part[0] == text[j] && part[1] == text[j + 1] && part[2] == text[j + 2]);
            if part[0] == '.' && part[1] == '.' && part[2] == '.' {
                if j < at {
                    assert(base[j] == '.');
                    if j + 1 < at {
                        assert(base[j + 1] == '.');
                    } else {
                        assert(base.last() == '.');
                    }
                } else {
                    let k = j + 2 - (at + 2);
                    assert(text[at + dots.len() + k] == tip[k]);
                    assert(hex(tip[k]));
                }
            }
        }
        found_nowhere(text, more, 0);
    }
}

/// A whole object id is read as itself, and with the suffix for its own changes
/// as those.
proof fn id_is_read(id: Seq<char>)
    requires
        is_hash(id),
    ensures
        form_of_one(id) == Form::Worktree(Some(id)),
        form_of_one(id + "^!"@) == Form::Own(id),
{
    reveal_strlit("..");
    reveal_strlit("...");
    reveal_strlit("^!");
    let own = id + "^!"@;
    assert(forall|i: int| 0 <= i < own.len() ==> #[trigger] own[i] != '.') by {
        assert forall|i: int| 0 <= i < own.len() implies #[trigger] own[i] != '.' by {
            if i < id.len() {
                assert(own[i] == id[i]);
                assert(hex(id[i]));
            }
        }
    }
    assert(forall|i: int| 0 <= i < id.len() ==> #[trigger] id[i] != '.') by {
        assert forall|i: int| 0 <= i < id.len() implies #[trigger] id[i] != '.' by {
            assert(hex(id[i]));
        }
    }
    no_dots_no_range(own);
    no_dots_no_range(id);
    assert(own.skip(own.len() - 2) == "^!"@);
    assert(own.take(own.len() - 2) == id);
    if id.len() >= 2 {
        assert(id.skip(id.len() - 2)[1] == id[id.len() - 1]);
    }
    assert(hex(id[id.len() - 1]));
}

proof fn no_dots_no_range(text: Seq<char>)
    requires
        forall|i: int| 0 <= i < text.len() ==> #[trigger] text[i] != '.',
    ensures
        crate::text::halves(text, "..."@) is None,
        crate::text::halves(text, ".."@) is None,
{
    reveal_strlit("..");
    reveal_strlit("...");
    assert forall|j: int| 0 <= j && j + 3 <= text.len() implies #[trigger] text.subrange(j, j + 3)
        != "..."@ by {
        assert(text.subrange(j, j + 3)[0] == text[j]);
    }
    assert forall|j: int| 0 <= j && j + 2 <= text.len() implies #[trigger] text.subrange(j, j + 2)
        != ".."@ by {
        assert(text.subrange(j, j + 2)[0] == text[j]);
    }
    found_nowhere(text, "..."@, 0);
    found_nowhere(text, ".."@, 0);
}

/// Picking a commit and then another is picking the other: the form of the
/// comparison stays what the user asked for. The base of a range is a name that
/// git allows.
pub proof fn a_second_pick_means_the_same(form: Form, first: Seq<char>, second: Seq<char>)
    requires
        is_hash(first),
        is_hash(second),
        form is Range && form->Range_2 != Sep::Space ==> form->Range_0.len() > 0 && is_name(
            form->Range_0,
        ),
    ensures
        form_of(form.retargeted(first)).retargeted(second) == form.retargeted(second),
{
    id_is_read(first);
    match form {
        Form::Range(base, _, sep) => match sep {
            Sep::TwoDots => range_is_read(base, first, false),
            Sep::ThreeDots => range_is_read(base, first, true),
            Sep::Space => {},
        },
        _ => {},
    }
}

/// The commit that was picked is the one that is then compared, against what the range
/// began with where it was a range and against its own parent or the working tree else.
pub proof fn a_picked_commit_is_compared(form: Form, commit: Seq<char>)
    requires
        is_hash(commit),
        form is Range && form->Range_2 != Sep::Space ==> form->Range_0.len() > 0 && is_name(
            form->Range_0,
        ),
    ensures
        form_of(form.retargeted(commit)).tip() == commit,
        form is Range ==> {
            let next = form_of(form.retargeted(commit));
            next is Range && next->Range_0 == form->Range_0 && next->Range_1 == commit
                && next->Range_2 == form->Range_2
        },
        form is Own ==> form_of(form.retargeted(commit)) == Form::Own(commit),
        form == Form::Worktree(None) ==> form_of(form.retargeted(commit)) == Form::Own(commit),
        form is Worktree && form->Worktree_0 is Some ==> form_of(form.retargeted(commit))
            == Form::Worktree(Some(commit)),
{
    id_is_read(commit);
    match form {
        Form::Range(base, _, sep) => match sep {
            Sep::TwoDots => range_is_read(base, commit, false),
            Sep::ThreeDots => range_is_read(base, commit, true),
            Sep::Space => {},
        },
        _ => {},
    }
}

/// The cursor is put back on the first row of the commit it was on, or on the row of the
/// working tree where that commit is gone.
pub proof fn a_commit_is_found_again(commits: &Commits, hash: Seq<char>, upto: int)
    requires
        0 <= upto <= commits.rows@.len(),
    ensures
        ({
            let row = commits.row_of_hash(hash, upto);
            &&& 0 <= row <= upto
            &&& row > 0 ==> commits.rows@[row - 1].hash@ == hash
            &&& forall|i: int|
                0 <= i < upto && (row == 0 || i < row - 1) ==> (#[trigger] commits.rows@[i]).hash@
                    != hash
        }),
    decreases upto,
{
    if upto > 0 {
        a_commit_is_found_again(commits, hash, upto - 1);
    }
}

/// While there is more history, there is a screen of it below the cursor and below the
/// view once nothing more is asked for; and what is asked for is two screens at least.
pub proof fn a_screen_of_history_is_ahead(commits: &Commits, viewport: int)
    requires
        0 <= viewport,
    ensures
        !commits.wants(viewport) && !commits.exhausted ==> commits.cursor + viewport
            < commits.rows@.len() && commits.scroll + viewport < commits.rows@.len(),
        commits.exhausted ==> !commits.wants(viewport),
        commits.cursor >= commits.rows@.len() && !commits.exhausted ==> commits.wants(viewport),
        viewport * 2 <= usize::MAX ==> commits.page_size(viewport) >= viewport * 2,
        commits.page_size(viewport) >= commits.page_floor,
        commits.page_size(viewport) == viewport * 2 || commits.page_size(viewport)
            == commits.page_floor || commits.page_size(viewport) == usize::MAX,
{
}

/// A page of history has a commit for every three fields, which are its id, its short id
/// and its subject in this order.
pub proof fn a_commit_is_three_fields(fields: Seq<Seq<u8>>, i: int)
    requires
        0 <= i,
        i * 3 + 2 < fields.len(),
    ensures
        log_rows(fields).len() == fields.len() / 3,
        log_rows(fields)[i].0 == crate::text::lossy(fields[i * 3]),
        log_rows(fields)[i].1 == crate::text::lossy(fields[i * 3 + 1]),
        log_rows(fields)[i].2 == crate::text::lossy(fields[i * 3 + 2]),
    decreases fields.len(),
{
    counts_by_threes(fields);
    if i > 0 {
        a_commit_is_three_fields(fields.skip(3), i - 1);
        assert(log_rows(fields)[i] == log_rows(fields.skip(3))[i - 1]);
        assert(fields.skip(3)[(i - 1) * 3] == fields[i * 3]);
        assert(fields.skip(3)[(i - 1) * 3 + 1] == fields[i * 3 + 1]);
        assert(fields.skip(3)[(i - 1) * 3 + 2] == fields[i * 3 + 2]);
    }
}

proof fn counts_by_threes(fields: Seq<Seq<u8>>)
    ensures
        log_rows(fields).len() == fields.len() / 3,
    decreases fields.len(),
{
    if fields.len() >= 3 {
        counts_by_threes(fields.skip(3));
    }
}

/// A title shortens a whole object id to its start and nothing else.
pub proof fn a_title_shortens_only_whole_ids(rev: Seq<char>)
    ensures
        is_hash(rev) && rev.len() == 40 ==> titled(rev) == rev.take(7),
        !is_hash(rev) || rev.len() != 40 ==> titled(rev) == rev,
{
}

/// A move of the cursor goes as many rows as it is told and a move back comes back,
/// unless the first row stops it.
pub proof fn a_move_goes_as_far_as_told(row: int, by: int)
    requires
        0 <= row <= usize::MAX,
    ensures
        0 <= row + by <= usize::MAX ==> moved(row, by) == row + by && moved(moved(row, by), -by)
            == row,
        row + by < 0 ==> moved(row, by) == 0,
{
}

/// A commit that was picked is titled by its id on the Current side, in seven characters
/// where that is whole, unless it is compared with the working tree.
pub proof fn a_picked_commit_is_titled_by_its_id(form: Form, commit: Seq<char>)
    requires
        is_hash(commit),
        form is Range && form->Range_2 != Sep::Space ==> form->Range_0.len() > 0 && is_name(
            form->Range_0,
        ),
    ensures
        ({
            let titles = form_of(form.retargeted(commit)).labels(false);
            let short = if commit.len() == 40 {
                commit.take(7)
            } else {
                commit
            };
            let beside = form is Worktree && form->Worktree_0 is Some;
            &&& !beside ==> titles.1 == short
            &&& beside ==> titles.0 == short && titles.1 == "Working Tree"@
            &&& form is Own || form == Form::Worktree(None) ==> titles.0 == short.push('^')
            &&& form is Range && form->Range_0.len() != 40 ==> titles.0 == form->Range_0
        }),
{
    reveal_strlit("^");
    a_picked_commit_is_compared(form, commit);
    assert(is_id(commit) <==> commit.len() == 40);
    assert(titled(commit) + "^"@ =~= titled(commit).push('^'));
}

} // verus!

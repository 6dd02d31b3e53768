use difv::commits::{read_log, short, Commit, Commits, Sep, Shape, MIN_PAGE, WORKING_TREE};

fn shape(revs: &[&str]) -> Shape {
    Shape::of(&revs.iter().map(|rev| rev.to_string()).collect::<Vec<_>>())
}

fn retarget(revs: &[&str], commit: &str) -> Vec<String> {
    shape(revs).retarget(commit)
}

/// A history, newest first, that answers a page the way `git log` does.
struct Log {
    fields: Vec<[String; 3]>,
}

impl Log {
    fn new() -> Self {
        Log { fields: Vec::new() }
    }

    fn commit(&mut self, subject: &str) {
        let hash = format!("{:040x}", 0xabc_0000 + self.fields.len());
        let id = hash[33..].to_string();
        self.fields.insert(0, [hash, id, subject.to_string()]);
    }

    fn load(&self, commits: &mut Commits, viewport: usize) {
        while let Some(page) = commits.ensure_loaded(viewport) {
            let bytes: Vec<Vec<u8>> = self
                .fields
                .iter()
                .skip(page.skip)
                .take(page.count)
                .flat_map(|fields| fields.iter().map(|field| field.as_bytes().to_vec()))
                .collect();
            commits.add_page(read_log(&bytes), page);
        }
    }

    fn move_cursor(&self, commits: &mut Commits, by: isize, viewport: usize) {
        commits.move_cursor(by);
        self.load(commits, viewport);
        commits.settle(viewport);
    }

    fn reload(&self, commits: &mut Commits, viewport: usize) {
        let was = commits.reload();
        self.load(commits, viewport);
        commits.find_again(was);
    }
}

/// Every form the command line lets through, read back as the shape it is.
#[test]
fn the_typed_revisions_are_read_as_one_of_three_shapes() {
    assert_eq!(shape(&[]), Shape::Worktree { base: None });
    assert_eq!(
        shape(&["main"]),
        Shape::Worktree {
            base: Some("main".to_string())
        }
    );
    assert_eq!(
        shape(&["abc^!"]),
        Shape::Own {
            rev: "abc".to_string()
        }
    );
    assert_eq!(
        shape(&["a..b"]),
        Shape::Range {
            base: "a".to_string(),
            tip: "b".to_string(),
            sep: Sep::TwoDots
        }
    );
    assert_eq!(
        shape(&["a...b"]),
        Shape::Range {
            base: "a".to_string(),
            tip: "b".to_string(),
            sep: Sep::ThreeDots
        }
    );
    assert_eq!(
        shape(&["a", "b"]),
        Shape::Range {
            base: "a".to_string(),
            tip: "b".to_string(),
            sep: Sep::Space
        }
    );
    // An omitted end is `HEAD`, as it is to git.
    assert_eq!(
        shape(&["..b"]),
        Shape::Range {
            base: "HEAD".to_string(),
            tip: "b".to_string(),
            sep: Sep::TwoDots
        }
    );
    // A syntax difv does not read is still one git can, so it is a
    // revision against the working tree like any other.
    assert_eq!(
        shape(&["@{u}"]),
        Shape::Worktree {
            base: Some("@{u}".to_string())
        }
    );
}

/// A pick puts the commit back in the form the user asked for — and a
/// launch with no revision at all becomes "that commit's own changes",
/// which is what a commit picked out of a log means.
#[test]
fn a_pick_keeps_the_form_of_the_comparison() {
    assert_eq!(retarget(&[], "c1"), ["c1^!"]);
    assert_eq!(retarget(&["main"], "c1"), ["c1"]);
    assert_eq!(retarget(&["abc^!"], "c1"), ["c1^!"]);
    assert_eq!(retarget(&["a..b"], "c1"), ["a..c1"]);
    assert_eq!(retarget(&["a...b"], "c1"), ["a...c1"]);
    assert_eq!(retarget(&["a", "b"], "c1"), ["a", "c1"]);
    assert_eq!(retarget(&["@{u}"], "c1"), ["c1"]);

    // And the shape a pick produces is stable: picking again means the
    // same thing.
    assert_eq!(retarget(&["c1^!"], "c2"), ["c2^!"]);
    assert_eq!(retarget(&["a..c1"], "c2"), ["a..c2"]);
}

/// The Working tree row is the way back to what difv compares by default —
/// except under a range, where the base is what it is worth comparing the
/// working tree against.
#[test]
fn the_working_tree_row_returns_to_the_default() {
    let empty: [&str; 0] = [];
    let of = |revs: &[&str]| {
        shape(revs)
            .working_tree()
    };
    assert_eq!(of(&[]), empty);
    assert_eq!(of(&["main"]), empty);
    assert_eq!(of(&["abc^!"]), empty);
    assert_eq!(of(&["a..b"]), ["a"]);
    assert_eq!(of(&["a", "b"]), ["a"]);
}

/// The history the pane lists is the one the command line pointed at.
#[test]
fn the_list_starts_where_the_command_line_pointed() {
    assert_eq!(shape(&[]).tip(), "HEAD");
    assert_eq!(shape(&["main"]).tip(), "main");
    assert_eq!(shape(&["abc^!"]).tip(), "abc");
    assert_eq!(shape(&["a..b"]).tip(), "b");
    assert_eq!(shape(&["a", "b"]).tip(), "b");
}

/// A history arrives a page at a time, and the end is known only when a
/// page comes back short.
#[test]
fn history_arrives_a_page_at_a_time() {
    let mut log = Log::new();
    log.commit("base");
    for n in 2..=5 {
        log.commit(&format!("commit {n}"));
    }
    // A viewport of one makes the page two rows, which is what MIN_PAGE
    // would otherwise hide.
    let mut commits = Commits::with_page_floor("HEAD".to_string(), 1);
    assert_eq!(commits.len(), 1, "the Working tree row is always there");

    log.load(&mut commits, 1);
    assert_eq!(commits.rows.len(), 2, "one page, not the history");
    assert!(commits.position().ends_with('+'), "more may be waiting");

    // Walking to the bottom loads the rest and settles on the total.
    for _ in 0..10 {
        log.move_cursor(&mut commits, 1, 1);
    }
    assert_eq!(commits.rows.len(), 5, "one root plus four");
    assert_eq!(commits.position(), "6/6");
    assert_eq!(
        commits.at(1).map(|c| c.subject.as_str()),
        Some("commit 5"),
        "newest first"
    );
}

/// A subject is whatever the commit said; only NUL separates the fields.
#[test]
fn a_subject_survives_being_anything() {
    let odd = "修 `a..b`  and \"quoted\", 100% — ok";
    let mut log = Log::new();
    log.commit("base");
    log.commit(odd);

    let mut commits = Commits::new("HEAD".to_string());
    log.load(&mut commits, 4);
    assert_eq!(commits.at(1).unwrap().subject, odd);
    assert_eq!(commits.at(1).unwrap().short.len(), 7, "the short hash");
}

/// A commit made while the program is open must not move the reader: the cursor
/// is found again by hash, not by where it was in the list.
#[test]
fn a_reload_finds_the_cursor_by_hash() {
    let mut log = Log::new();
    log.commit("base");
    log.commit("second");

    let mut commits = Commits::new("HEAD".to_string());
    log.load(&mut commits, 4);
    log.move_cursor(&mut commits, 2, 4);
    let under = commits.at(commits.cursor).unwrap().hash.clone();
    assert_eq!(commits.cursor, 2);

    log.commit("third");
    log.reload(&mut commits, 4);
    assert_eq!(commits.cursor, 3, "one row further down, the same commit");
    assert_eq!(commits.at(commits.cursor).unwrap().hash, under);

    // A cursor whose commit is gone falls back to the Working tree row.
    let mut orphan = Commits::new("HEAD".to_string());
    log.load(&mut orphan, 4);
    log.move_cursor(&mut orphan, 1, 4);
    orphan.rows[0].hash = "0".repeat(40);
    log.reload(&mut orphan, 4);
    assert_eq!(orphan.cursor, 0);
}

/// The mark says which row is being compared, and it is a hash rather
/// than a row so that a commit arriving above it does not move it.
#[test]
fn the_target_is_kept_by_hash() {
    let mut log = Log::new();
    log.commit("base");
    log.commit("second");

    let mut commits = Commits::new("HEAD".to_string());
    log.load(&mut commits, 4);
    assert!(
        commits.is_target(0),
        "the working tree, until something else"
    );

    let hash = commits.at(1).unwrap().hash.clone();
    commits.set_target(Some(hash));
    assert!(commits.is_target(1) && !commits.is_target(0));

    log.commit("third");
    log.reload(&mut commits, 4);
    assert!(commits.is_target(2), "same commit, one row down");
}

/// The view follows the cursor by the least it can, so a page up and a
/// page down land back where they started.
#[test]
fn the_view_follows_the_cursor() {
    let mut commits = Commits::new("HEAD".to_string());
    commits.rows = (0..20)
        .map(|n| Commit {
            hash: format!("{n:040}"),
            short: format!("{n:07}"),
            subject: format!("commit {n}"),
        })
        .collect();

    commits.go_to(15, 5);
    assert_eq!(commits.scroll, 11, "the cursor is the last visible row");
    commits.go_to(3, 5);
    assert_eq!(commits.scroll, 3, "and the first, coming back up");
    commits.go_to(5, 5);
    assert_eq!(commits.scroll, 3, "a cursor already visible moves nothing");
}

/// The pane titles say what was typed, with git's answer about the
/// working tree deciding the Current side.
#[test]
fn the_labels_name_both_sides() {
    let cases = [
        (vec![], true, ("HEAD", WORKING_TREE)),
        (vec!["main"], true, ("main", WORKING_TREE)),
        (vec!["a..b"], false, ("a", "b")),
        (vec!["a...b"], false, ("a", "b")),
        (vec!["abc^!"], false, ("abc^", "abc")),
        (vec!["a", "b"], false, ("a", "b")),
        // One argument can still name one commit — a root commit's `^!`
        // does — and then the Current side is the working tree whatever
        // the syntax suggested.
        (vec!["abc^!"], true, ("abc^", WORKING_TREE)),
        // A whole object id is what a pick hands to git; a title says as
        // much of it as a reader needs.
        (
            vec!["0123456789abcdef0123456789abcdef01234567^!"],
            false,
            ("0123456^", "0123456"),
        ),
    ];
    for (revs, worktree, want) in cases {
        let (old, new) = shape(&revs).labels(worktree);
        assert_eq!((old.as_str(), new.as_str()), want, "{revs:?} {worktree}");
    }
}

/// An id is shortened only when it is unmistakably one.
#[test]
fn only_a_whole_id_is_shortened() {
    assert_eq!(short("0123456789abcdef0123456789abcdef01234567"), "0123456");
    assert_eq!(short("0123456789abcdef0123456789abcdef0123456"), "0123456789abcdef0123456789abcdef0123456");
    assert_eq!(short("main"), "main");
}

/// A page is twice what is on screen, or the floor.
#[test]
fn pages_have_a_floor() {
    let commits = Commits::new("HEAD".to_string());
    assert_eq!(commits.ensure_loaded(4).unwrap().count, MIN_PAGE);
    assert_eq!(commits.ensure_loaded(100).unwrap().count, 200);
    assert_eq!(commits.ensure_loaded(100).unwrap().skip, 0);
    assert_eq!(commits.tip(), "HEAD");
}

/// The wheel scrolls without moving the cursor, and no further than the last row.
#[test]
fn scrolling_leaves_the_cursor() {
    let mut log = Log::new();
    for n in 0..9 {
        log.commit(&format!("commit {n}"));
    }
    let mut commits = Commits::new("HEAD".to_string());
    log.load(&mut commits, 4);
    commits.scroll_by(3);
    assert_eq!((commits.scroll, commits.cursor), (3, 0));
    commits.scroll_by(50);
    assert_eq!(commits.scroll, 9);
    commits.scroll_by(-50);
    assert_eq!(commits.scroll, 0);
    commits.keep_cursor_visible(4);
    assert_eq!(commits.scroll, 0);
}

/// A pick out of the working tree keeps comparing with it only where a revision was
/// named.
#[test]
fn a_pick_says_whether_the_working_tree_stays() {
    assert!(!shape(&[]).pick_keeps_worktree(Some("c1")));
    assert!(shape(&["main"]).pick_keeps_worktree(Some("c1")));
    assert!(!shape(&["a..b"]).pick_keeps_worktree(Some("c1")));
    assert!(shape(&["a..b"]).pick_keeps_worktree(None));
}

/// A field that is not valid UTF-8 is still read.
#[test]
fn an_undecodable_subject_is_read_with_replacements() {
    let fields = vec![b"h".to_vec(), b"s".to_vec(), vec![b'a', 0xff, b'b']];
    assert_eq!(
        read_log(&fields),
        vec![Commit { hash: "h".into(), short: "s".into(), subject: "a\u{fffd}b".into() }]
    );
    assert!(read_log(&vec![b"h".to_vec(), b"s".to_vec()]).is_empty());
}

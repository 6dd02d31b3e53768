use difv::args::{bad_revision, classify, no_repository, parse_args, Args, MOUSE_ON};
use difv::git::{nearest_existing_dir, Ancestor};

fn parse(args: &[&str]) -> Args {
    parse_args(&args.iter().map(|arg| arg.as_bytes().to_vec()).collect())
}

fn open(revs: &[&str], path: Option<&str>) -> Args {
    Args::Open {
        revs: revs.iter().map(|rev| rev.as_bytes().to_vec()).collect(),
        path: path.map(|path| path.as_bytes().to_vec()),
    }
}

fn error(args: &[&str]) -> String {
    let Args::Error(message) = parse(args) else {
        panic!("{args:?} is refused");
    };
    assert!(message.contains("--help"), "{message}");
    message
}

/// The directories above a path, nearest first, and what of the path is below each.
fn ancestors(path: &str, existing: &[&str]) -> Vec<Ancestor> {
    let mut found = Vec::new();
    let mut end = path.len();
    while let Some(slash) = path[..end].rfind('/') {
        let dir = &path[..slash];
        found.push(Ancestor {
            dir: dir.as_bytes().to_vec(),
            rest: Some(path[slash + 1..].as_bytes().to_vec()),
            exists: existing.contains(&dir),
        });
        end = slash;
    }
    found
}

/// Positionals are revisions and only revisions; the path is what follows
/// `-C`, from either end of the command line.
#[test]
fn the_command_line_is_revisions_and_one_dash_c() {
    assert_eq!(parse(&[]), open(&[], None));
    assert_eq!(parse(&["-V"]), Args::Version);
    assert_eq!(parse(&["--version"]), Args::Version);
    assert_eq!(parse(&["-h"]), Args::Help);
    assert_eq!(parse(&["--help"]), Args::Help);

    assert_eq!(parse(&["main"]), open(&["main"], None));
    assert_eq!(parse(&["main..feature"]), open(&["main..feature"], None));
    assert_eq!(
        parse(&["main", "feature"]),
        open(&["main", "feature"], None)
    );

    // `-C` reads whatever follows it, wherever it sits, and a path is not
    // a revision however much it looks like one.
    let there = open(&["main..feature"], Some("/repo"));
    assert_eq!(parse(&["-C", "/repo", "main..feature"]), there);
    assert_eq!(parse(&["main..feature", "-C", "/repo"]), there);
    assert_eq!(
        parse(&["-C", "-weird-name"]),
        open(&[], Some("-weird-name"))
    );

    assert!(error(&["--frobnicate"]).contains("--frobnicate"));
    assert!(error(&["a", "b", "c"]).contains("at most two revisions"));
    assert!(error(&["-C", "src", "-C", "tests"]).contains("at most one -C"));
    assert!(error(&["-C"]).contains("-C needs a path"));
    assert!(error(&["-C", ""]).contains("empty path"));
    assert!(error(&[""]).contains("empty revision"));
}

/// An argument difv cannot decode is an argument all the same — a
/// revision git can refuse for itself, or a path — unless it starts with
/// `-`, which makes it a flag difv does not know, never a revision git
/// might obey as an option.
#[test]
fn an_undecodable_argument_is_an_argument() {
    let flag = b"--output=x\xff".to_vec();
    let Args::Error(refused) = parse_args(&vec![flag]) else {
        panic!("a flag difv cannot decode is still a flag");
    };
    assert!(refused.starts_with("unknown argument"), "{refused}");

    let bad = vec![0xff, 0xfe, b'x'];
    assert_eq!(
        parse_args(&vec![bad.clone()]),
        Args::Open {
            revs: vec![bad.clone()],
            path: None,
        }
    );
    assert_eq!(
        parse_args(&vec![b"-C".to_vec(), bad.clone()]),
        Args::Open {
            revs: Vec::new(),
            path: Some(bad),
        }
    );
}

/// A deletion that took the directory with it leaves neither the file nor
/// its parent to start from, and that is exactly when the file is worth
/// opening by name. The walk has to reach the repository above them.
#[test]
fn classification_walks_up_to_a_directory_that_exists() {
    let root = "/repo";
    let of = |path: &str, is_dir: bool| {
        let nearest = nearest_existing_dir(&ancestors(path, &[root]));
        classify(
            Some(path.as_bytes().to_vec()),
            is_dir,
            nearest.map(|(dir, _)| dir),
        )
    };

    let none = classify(None, false, None);
    assert_eq!(none.start, b".");
    assert_eq!((none.typed, none.file), (None, None));

    let dir = of(root, true);
    assert_eq!(dir.start, root.as_bytes(), "a directory is its own starting point");
    assert_eq!(dir.file, None);

    let file = of("/repo/file.txt", false);
    assert_eq!(file.start, root.as_bytes(), "a file starts from its directory");
    assert_eq!(file.file.as_deref(), Some(&b"/repo/file.txt"[..]));

    let gone = of("/repo/src/deep/auth.ts", false);
    assert_eq!(gone.start, root.as_bytes(), "past two directories that are not there");
    assert_eq!(gone.file.as_deref(), Some(&b"/repo/src/deep/auth.ts"[..]));
}

/// Whatever the walk had to settle for, the refusal names the path the
/// user typed — and says which of the two mistakes it was.
#[test]
fn a_refusal_names_the_path_that_was_typed() {
    let message = no_repository(Some(b"/outside/nope/deeper.txt"), false);
    assert!(message.starts_with("no such path: "), "{message}");
    assert!(message.ends_with("nope/deeper.txt"), "{message}");

    let message = no_repository(Some(b"/outside"), true);
    assert_eq!(message, "not a git repository: /outside");

    // No `-C` at all, run from outside a repository: there is nothing to name.
    assert_eq!(no_repository(None, false), "not a git repository", "nothing to name");
}

/// A positional path is refused as a revision, and the refusal says where a path
/// goes.
#[test]
fn the_old_positional_path_is_pointed_at_dash_c() {
    let pointed = bad_revision("bad revision '/repo/file.txt'", &vec![true]);
    assert!(pointed.contains("bad revision"), "{pointed}");
    assert!(pointed.ends_with(" — a path goes after -C"), "{pointed}");

    // An argument that is not on disk is only ever a bad revision.
    let plain = bad_revision("bad revision 'nope'", &vec![false]);
    assert_eq!(plain, "bad revision 'nope'");
}

/// Enabling any-motion tracking and turning it back off cost every
/// xterm.js-based terminal its mouse entirely, because a reset there means
/// "no protocol at all" rather than "not that one". The mode must never be
/// asked for in the first place.
#[test]
fn mouse_reporting_never_asks_for_idle_motion() {
    assert!(!MOUSE_ON.contains("1003"), "{MOUSE_ON:?}");
    assert!(MOUSE_ON.contains("\x1b[?1000h"), "clicks report");
    assert!(MOUSE_ON.contains("\x1b[?1002h"), "drags report");
    // SGR is requested after the urxvt encoding, so it wins wherever both
    // are understood.
    let (urxvt, sgr) = (
        MOUSE_ON.find("1015h").unwrap(),
        MOUSE_ON.find("1006h").unwrap(),
    );
    assert!(urxvt < sgr, "{MOUSE_ON:?}");
}

/// What git is given never starts with a dash: whatever does is a flag.
#[test]
fn a_flag_is_never_a_revision() {
    for args in [vec!["--output=x"], vec!["-p", "main"], vec!["main", "--cached"]] {
        assert!(matches!(parse(&args), Args::Error(_)), "{args:?}");
    }
    assert_eq!(parse(&["main", "-V"]), Args::Version);
}

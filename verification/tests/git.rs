use difv::config::Eol;
use difv::git::{
    default_base, file_body, nearest_existing_dir, new_content, new_source, old_content,
    parse_raw_z, rev_args, split_revision, temporary_name, Ancestor, Answer, FileContent, Repo,
    Source, Status,
};

const WORKING_TREE: &str = "Working Tree";

#[test]
fn decode_reports_line_ending_and_trailing_newline() {
    let crlf = FileContent::decode(b"a\r\nb\r\n".to_vec());
    let file = crlf.editable().unwrap();
    assert_eq!(file.eol, Some(Eol::Crlf));
    assert!(file.trailing_newline);

    let bare = FileContent::decode(b"a\nb".to_vec());
    let file = bare.editable().unwrap();
    assert_eq!(file.eol, Some(Eol::Lf));
    assert!(!file.trailing_newline);
}

#[test]
fn undecodable_content_is_never_editable() {
    assert_eq!(
        FileContent::decode(vec![0x00, 0x01]),
        FileContent::Undecodable
    );
    assert_eq!(
        FileContent::decode(vec![0xff, 0xfe]),
        FileContent::Undecodable
    );
    assert!(FileContent::decode(vec![0xff]).editable().is_none());
}

/// One `--raw` record per file, with the rename's two paths and the score
/// on its status letter, and an all-zero id meaning no blob on that side.
#[test]
fn parses_statuses_renames_and_blobs() {
    let raw = b":100644 100644 aaa1 bbb1 M\0src/auth.ts\0\
                :000000 100644 0000 ccc1 A\0src/utils.ts\0\
                :100644 000000 ddd1 0000 D\0src/old.ts\0\
                :100644 100644 eee1 eee1 R100\0old.ts\0new.ts\0\
                :100644 100644 fff1 0000000 M\0src/my file.ts\0";
    let got: Vec<String> = parse_raw_z(raw)
        .iter()
        .map(|f| {
            format!(
                "{} {} {:?} {:?} {:?}",
                f.status.letter(),
                f.path,
                f.old_path,
                f.old_blob,
                f.new_blob,
            )
        })
        .collect();
    assert_eq!(
        got,
        [
            r#"R new.ts Some("old.ts") Some("eee1") Some("eee1")"#,
            r#"M src/auth.ts None Some("aaa1") Some("bbb1")"#,
            // A path with a space is one record like any other, and the
            // zero id on the right is what the working tree reports.
            r#"M src/my file.ts None Some("fff1") None"#,
            r#"D src/old.ts None Some("ddd1") None"#,
            r#"A src/utils.ts None None Some("ccc1")"#,
        ]
    );
}

/// The pane titles say what was typed. `...` has to be tried before `..`,
/// and an omitted end of a range is `HEAD`, as it is to git.
#[test]
fn revision_labels_name_both_sides() {
    let cases = [
        ("main", ("main", WORKING_TREE)),
        ("main..feature", ("main", "feature")),
        ("main...feature", ("main", "feature")),
        ("abc123^!", ("abc123^", "abc123")),
        ("..feature", ("HEAD", "feature")),
        ("main..", ("main", "HEAD")),
    ];
    for (rev, want) in cases {
        let (old, new) = split_revision(rev);
        assert_eq!((old.as_str(), new.as_str()), want, "{rev}");
    }
}


fn said(stdout: &str) -> Answer {
    Answer { success: true, stdout: stdout.as_bytes().to_vec(), stderr: Vec::new() }
}

fn refused(stderr: &str) -> Answer {
    Answer { success: false, stdout: Vec::new(), stderr: stderr.as_bytes().to_vec() }
}

fn compared(revs: &[&str], printed: &str) -> Repo {
    let revs = revs.iter().map(|rev| rev.as_bytes().to_vec()).collect();
    Repo::at("/repo".to_string()).with_revs(revs, &said(printed), b"HEAD".to_vec()).unwrap()
}

/// The directories above a path, nearest first.
fn above(path: &str, existing: &[&str]) -> Vec<Ancestor> {
    let mut found = Vec::new();
    let mut end = path.len();
    while let Some(slash) = path[..end].rfind('/') {
        found.push(Ancestor {
            dir: path[..slash].as_bytes().to_vec(),
            rest: Some(path[slash + 1..].as_bytes().to_vec()),
            exists: existing.contains(&&path[..slash]),
        });
        end = slash;
    }
    if !path.is_empty() && !path.starts_with('/') {
        found.push(Ancestor {
            dir: Vec::new(),
            rest: Some(path.as_bytes().to_vec()),
            exists: true,
        });
    }
    found
}

/// Discovery is given a place to start, not a root: what git answers is the root, and
/// a path under it comes back relative to it, whatever directory it was typed from.
#[test]
fn discovery_walks_up_from_the_path_it_is_given() {
    let repo = Repo::discover(b"/repo/sub/deeper", &said("/repo\n")).unwrap();
    assert_eq!(repo.root(), "/repo");
    assert_eq!(
        repo.relative("/repo/sub/deeper", "x.txt"),
        Some("sub/deeper/x.txt".to_string())
    );
    assert_eq!(repo.abs("sub/x.txt"), "/repo/sub/x.txt");
}

#[test]
fn discovery_outside_a_repository_names_the_path() {
    let Err(err) = Repo::discover(b"/tmp/norepo", &refused("fatal: not a git repository")) else {
        panic!("a directory outside a repository is refused");
    };
    assert!(err.contains("not a git repository"), "{err}");
    assert!(err.contains("/tmp/norepo"), "{err}");
    let odd = Answer { success: true, stdout: vec![0xff, b'\n'], stderr: Vec::new() };
    let Err(message) = Repo::discover(b".", &odd) else {
        panic!("a root that is not valid UTF-8 is refused");
    };
    let expected = String::from_utf8(odd.stdout.clone()).unwrap_err().to_string();
    assert_eq!(message, expected);
}

/// The relative form has to survive both halves of a deletion: the file,
/// and the directory that held it.
#[test]
fn a_relative_form_survives_a_deleted_directory() {
    let repo = Repo::at("/repo".to_string());
    let (dir, rest) = nearest_existing_dir(&above("/repo/src/deep/auth.ts", &["/repo"])).unwrap();
    let (dir, rest) = (String::from_utf8(dir).unwrap(), String::from_utf8(rest).unwrap());
    assert_eq!(
        repo.relative(&dir, &rest),
        Some("src/deep/auth.ts".to_string()),
        "neither `src` nor `src/deep` is on disk"
    );
    let (dir, rest) = nearest_existing_dir(&above("/repo/src/auth.ts", &["/repo"])).unwrap();
    assert_eq!(dir, b"/repo");
    assert_eq!(rest, b"src/auth.ts");
    // A bare name has an empty parent, which is the current directory.
    let (dir, rest) = nearest_existing_dir(&above("x.txt", &[])).unwrap();
    assert_eq!((dir.as_slice(), rest.as_slice()), (&b"."[..], &b"x.txt"[..]));
    assert_eq!(nearest_existing_dir(&above("", &[])), None);
    // A path is bytes, and comes back as it was.
    let odd = Ancestor { dir: b"/\xff".to_vec(), rest: Some(b"\xfe".to_vec()), exists: true };
    assert_eq!(nearest_existing_dir(&vec![odd]), Some((b"/\xff".to_vec(), b"\xfe".to_vec())));
}

#[test]
fn a_path_outside_the_repository_has_no_relative_form() {
    let repo = Repo::at("/repo".to_string());
    assert_eq!(repo.relative("/", "nowhere/at/all/x.txt"), None);
    assert_eq!(repo.relative("/tmp", "x.txt"), None);
    assert_eq!(repo.relative("/repository", "x.txt"), None);
}

/// The pane labels through a `Repo`, where one argument naming one commit
/// means the working tree is the Current side whatever the syntax said.
#[test]
fn labels_follow_which_side_the_working_tree_is_on() {
    let head = "0123456789abcdef0123456789abcdef01234567";
    assert_eq!(
        compared(&[], "").labels(),
        ("HEAD".to_string(), WORKING_TREE.to_string())
    );
    assert_eq!(
        compared(&["HEAD"], &format!("{head}\n")).labels(),
        ("HEAD".to_string(), WORKING_TREE.to_string())
    );
    // The one commit there is has no parent, so `^!` names one commit and
    // git diffs it against the working tree — the title has to agree.
    let own = format!("{head}^!");
    assert_eq!(compared(&[&own], &format!("{head}\n")).labels().1, WORKING_TREE);
}

/// The whole point of the revision arguments: what each form compares,
/// which side the working tree is on, and where the content comes from.
#[test]
fn revisions_choose_what_is_compared() {
    let (first, second) = ("1111111", "2222222");
    let names = |repo: &Repo, raw: &[u8]| {
        repo.changed_files(raw, b"untracked.txt\0")
            .iter()
            .map(|f| f.path.clone())
            .collect::<Vec<_>>()
    };
    let since_head = b":100644 100644 bbb1 0000 M\0file.txt\0";
    let since_first = b":100644 100644 aaa1 0000 M\0file.txt\0:000000 100644 0000 ccc1 A\0added.txt\0";
    let between = b":100644 100644 aaa1 bbb1 M\0file.txt\0:000000 100644 0000 ccc1 A\0added.txt\0";

    // No revision, and one revision, are both against the working tree —
    // which is what puts the untracked file in the list.
    let now = compared(&[], "");
    assert!(now.worktree());
    assert_eq!(names(&now, since_head), ["file.txt", "untracked.txt"]);
    let since = compared(&[first], "1111111\n");
    assert!(since.worktree());
    assert_eq!(
        names(&since, since_first),
        ["added.txt", "file.txt", "untracked.txt"]
    );

    // Two revisions, in every form, compare two commits: no untracked
    // file, and the Current side is a blob rather than the disk.
    for revs in [
        vec![format!("{second}^!")],
        vec![format!("{first}..{second}")],
        vec![first.to_string(), second.to_string()],
    ] {
        let borrowed: Vec<&str> = revs.iter().map(String::as_str).collect();
        let repo = compared(&borrowed, "2222222\n^1111111\n");
        assert!(!repo.worktree(), "{revs:?}");
        assert_eq!(names(&repo, between), ["added.txt", "file.txt"], "{revs:?}");
        let file = repo
            .changed_files(between, b"")
            .into_iter()
            .find(|f| f.path == "file.txt")
            .unwrap();
        assert_eq!(file.old_blob.as_deref(), Some("aaa1"));
        assert_eq!(old_content(Some(b"one\n".to_vec())), "one\n", "{revs:?}");
        assert!(matches!(new_source(&file, false), Source::Blob(id) if id == "bbb1"));
        assert_eq!(new_content(Some(b"two\n".to_vec())).text(), "two\n", "{revs:?}");
    }

    // The same file against the working tree reads what is on disk, not
    // the blob `git diff` reported for it.
    let file = &now.changed_files(since_head, b"")[0];
    assert_eq!(file.old_blob.as_deref(), Some("bbb1"));
    assert!(matches!(new_source(file, true), Source::Disk));
    assert!(matches!(new_source(file, false), Source::Nowhere));
    assert_eq!(new_content(None), FileContent::Missing);
    assert_eq!(old_content(None), "");
    // The Before side is only displayed, so what cannot be decoded is shown as it can.
    assert_eq!(old_content(Some(b"a\xffb\n".to_vec())), "a\u{fffd}b\n");
    assert_eq!(old_content(Some(b"a\0b".to_vec())), "a\0b");
}

/// A revision git cannot resolve is refused in git's own words, with the
/// prefix the program's own replaces taken off.
#[test]
fn a_bad_revision_is_refused_in_gits_words() {
    let answer = refused("fatal: bad revision 'nope'\n");
    let Err(err) =
        Repo::at("/repo".to_string()).with_revs(vec![b"nope".to_vec()], &answer, Vec::new())
    else {
        panic!("a revision git cannot resolve is refused");
    };
    assert!(err.contains("nope"), "{err}");
    assert!(!err.starts_with("fatal: "), "{err}");
    assert_eq!(err, "bad revision 'nope'");
}

/// `git diff HEAD` refuses before the first commit, where every file is shown as an
/// addition. The empty tree is what keeps it so.
#[test]
fn a_repository_with_no_commits_lists_its_files_as_added() {
    let empty = "4b825dc642cb6eb9a060e54bf8d69288fbee4904";
    let base = default_base(false, format!("{empty}\n").as_bytes());
    assert_eq!(base, empty.as_bytes());
    let repo = Repo::at("/repo".to_string()).with_revs(Vec::new(), &said(""), base).unwrap();
    assert_eq!(repo.diff_revs, vec![empty.as_bytes().to_vec()]);
    let files = repo.changed_files(b":000000 100644 0000 aaa1 A\0staged.txt\0", b"loose.txt\0");
    let got: Vec<(String, Status)> = files.iter().map(|f| (f.path.clone(), f.status)).collect();
    assert_eq!(
        got,
        vec![
            ("loose.txt".to_string(), Status::Added),
            ("staged.txt".to_string(), Status::Added),
        ]
    );
    assert_eq!(repo.labels().0, "HEAD", "the title still says HEAD");
    assert_eq!(default_base(true, b""), b"HEAD");
}

/// What git is asked, with the revisions where they belong.
#[test]
fn git_is_asked_about_what_was_typed() {
    let words = |args: Vec<Vec<u8>>| {
        args.into_iter().map(|arg| String::from_utf8(arg).unwrap()).collect::<Vec<_>>()
    };
    assert_eq!(
        words(rev_args(&vec![b"a..b".to_vec()])),
        ["rev-parse", "--revs-only", "a..b", "--"]
    );
    assert_eq!(
        words(compared(&["a", "b"], "b\n^a\n").diff_args()),
        ["diff", "--raw", "-z", "-M", "--abbrev=40", "a", "b", "--"]
    );
    assert_eq!(temporary_name("config.toml"), ".config.toml.difv-tmp");
}

/// A file is written with the line ending it has.
#[test]
fn a_body_is_written_with_its_line_ending() {
    let lines = ["a".to_string(), "b".to_string()];
    let crlf = ["\r\n".to_string(), "\r\n".to_string()];
    assert_eq!(file_body(&lines, &crlf, Eol::Crlf, true), "a\r\nb\r\n");
    let lf = ["\n".to_string(), String::new()];
    assert_eq!(file_body(&lines, &lf, Eol::Lf, false), "a\nb");
    // A last line that became an inner one is ended, and the other way round.
    assert_eq!(file_body(&lines, &[String::new(), String::new()], Eol::Crlf, true), "a\r\nb\r\n");
    assert_eq!(file_body(&lines, &crlf, Eol::Lf, false), "a\r\nb");
}

//! The command line: what it asks for, and what is said when it cannot be done.
use crate::text::{decode_lossy, owned, same_str, strip_start};
use vstd::prelude::*;

verus! {

/// Mouse reporting, asked for by hand because the usual request also turns on
/// any-motion tracking: an event for every cell the pointer crosses with no
/// button down, and a full redraw for each one. Only motion during a drag is
/// needed, which is what button-event tracking reports.
///
/// Both coordinate encodings are asked for, SGR last: where a terminal keeps one
/// encoding rather than a set, the later request wins.
pub const MOUSE_ON: &'static str = "\u{1b}[?1000h\u{1b}[?1002h\u{1b}[?1015h\u{1b}[?1006h";

/// What the command line asks for. A positional is a revision and only a
/// revision; the path is what follows `-C`. Arguments are bytes: a path is one of
/// the things this takes, and a path is not required to be UTF-8.
#[derive(Debug, PartialEq, Eq)]
pub enum Args {
    Version,
    Help,
    Open {
        /// Up to two, as `git diff` takes them, in the order they were typed.
        revs: Vec<Vec<u8>>,
        /// What followed `-C`.
        path: Option<Vec<u8>>,
    },
    Error(String),
}

/// What a command line says.
pub enum Asked {
    Version,
    Help,
    Open(Seq<Seq<u8>>, Option<Seq<u8>>),
    Error(Seq<char>),
}

pub open spec fn opt_bytes(bytes: Option<Vec<u8>>) -> Option<Seq<u8>> {
    match bytes {
        Some(bytes) => Some(bytes@),
        None => None,
    }
}

impl View for Args {
    type V = Asked;

    open spec fn view(&self) -> Asked {
        match *self {
            Args::Version => Asked::Version,
            Args::Help => Asked::Help,
            Args::Open { revs, path } => Asked::Open(
                crate::text::byte_views(revs@),
                opt_bytes(path),
            ),
            Args::Error(message) => Asked::Error(message@),
        }
    }
}

/// The arguments from `i` on, read after `revs` and `path` were. A leading dash is
/// what separates a flag from a revision, whatever the rest of the argument is;
/// what follows `-C` is a path whatever it starts with.
pub open spec fn asked(
    args: Seq<Seq<u8>>,
    i: int,
    revs: Seq<Seq<u8>>,
    path: Option<Seq<u8>>,
) -> Asked
    decreases args.len() - i,
{
    if i < 0 || i >= args.len() {
        Asked::Open(revs, path)
    } else {
        let text = crate::text::lossy(args[i]);
        if crate::text::starts(text, "-"@) {
            if text == "-V"@ || text == "--version"@ {
                Asked::Version
            } else if text == "-h"@ || text == "--help"@ {
                Asked::Help
            } else if text == "-C"@ {
                if path is Some {
                    Asked::Error("at most one -C — try `difv --help`"@)
                } else if i + 1 >= args.len() {
                    Asked::Error("-C needs a path — try `difv --help`"@)
                } else if args[i + 1].len() == 0 {
                    Asked::Error("empty path — try `difv --help`"@)
                } else {
                    asked(args, i + 2, revs, Some(args[i + 1]))
                }
            } else {
                Asked::Error("unknown argument `"@ + text + "` — try `difv --help`"@)
            }
        } else if args[i].len() == 0 {
            Asked::Error("empty revision — try `difv --help`"@)
        } else if revs.len() == 2 {
            Asked::Error("at most two revisions — try `difv --help`"@)
        } else {
            asked(args, i + 1, revs.push(args[i]), path)
        }
    }
}

fn copy_bytes(bytes: &Vec<u8>) -> (copy: Vec<u8>)
    ensures
        copy@ == bytes@,
{
    let mut copy: Vec<u8> = Vec::new();
    copy.extend_from_slice(bytes.as_slice());
    copy
}

/// The command line read. Parsing touches neither the filesystem nor the
/// terminal.
pub fn parse_args(args: &Vec<Vec<u8>>) -> (parsed: Args)
    ensures
        parsed@ == asked(crate::text::byte_views(args@), 0, Seq::empty(), None),
{
    let ghost all = crate::text::byte_views(args@);
    let mut revs: Vec<Vec<u8>> = Vec::new();
    let mut path: Option<Vec<u8>> = None;
    let mut i: usize = 0;
    proof {
        assert(crate::text::byte_views(revs@) == Seq::<Seq<u8>>::empty());
    }
    while i < args.len()
        invariant
            0 <= i <= args@.len(),
            all == crate::text::byte_views(args@),
            asked(all, i as int, crate::text::byte_views(revs@), opt_bytes(path)) == asked(
                all,
                0,
                Seq::empty(),
                None,
            ),
        decreases args@.len() - i,
    {
        assert(all[i as int] == args@[i as int]@);
        let text = decode_lossy(args[i].as_slice());
        if strip_start(text.as_str(), "-").is_some() {
            if same_str(text.as_str(), "-V") || same_str(text.as_str(), "--version") {
                return Args::Version;
            }
            if same_str(text.as_str(), "-h") || same_str(text.as_str(), "--help") {
                return Args::Help;
            }
            if same_str(text.as_str(), "-C") {
                if path.is_some() {
                    return Args::Error(owned("at most one -C — try `difv --help`"));
                }
                if args.len() - i < 2 {
                    return Args::Error(owned("-C needs a path — try `difv --help`"));
                }
                assert(all[i + 1] == args@[i + 1]@);
                if args[i + 1].len() == 0 {
                    return Args::Error(owned("empty path — try `difv --help`"));
                }
                path = Some(copy_bytes(&args[i + 1]));
                i += 2;
            } else {
                let mut message = owned("unknown argument `");
                message.push_str(text.as_str());
                message.push_str("` — try `difv --help`");
                return Args::Error(message);
            }
        } else {
            if args[i].len() == 0 {
                return Args::Error(owned("empty revision — try `difv --help`"));
            }
            if revs.len() == 2 {
                return Args::Error(owned("at most two revisions — try `difv --help`"));
            }
            let ghost had = crate::text::byte_views(revs@);
            revs.push(copy_bytes(&args[i]));
            proof {
                assert(crate::text::byte_views(revs@) == had.push(all[i as int]));
            }
            i += 1;
        }
    }
    Args::Open { revs, path }
}

/// Where to start: the path as `-C` gave it, kept for what is said about it; the
/// directory to discover the repository from; and the file to select once the
/// repository is known.
#[derive(Debug, PartialEq, Eq)]
pub struct Target {
    pub typed: Option<Vec<u8>>,
    pub start: Vec<u8>,
    pub file: Option<Vec<u8>>,
}

/// Where to start. Anything `-C` names that is not a directory is taken as a file,
/// including a path that is not on disk at all: a file git reports as deleted is
/// one of the things most often opened, and it is only the changed-file list that
/// can tell that case from a typo. `is_dir` says whether the path is a directory,
/// and `nearest` is the nearest directory above it that is on disk.
pub fn classify(path: Option<Vec<u8>>, is_dir: bool, nearest: Option<Vec<u8>>) -> (target: Target)
    ensures
        opt_bytes(target.typed) == opt_bytes(path),
        target.start@ == (if path is None {
            vstd::utf8::encode_utf8("."@)
        } else if is_dir {
            path->0@
        } else if nearest is Some {
            nearest->0@
        } else {
            vstd::utf8::encode_utf8("."@)
        }),
        opt_bytes(target.file) == (if path is Some && !is_dir {
            opt_bytes(path)
        } else {
            None
        }),
{
    match path {
        None => Target { typed: None, start: here(), file: None },
        Some(typed) => if is_dir {
            Target { start: copy_bytes(&typed), typed: Some(typed), file: None }
        } else {
            let start = match nearest {
                Some(dir) => dir,
                None => here(),
            };
            Target { start, file: Some(copy_bytes(&typed)), typed: Some(typed) }
        },
    }
}

fn here() -> (dir: Vec<u8>)
    ensures
        dir@ == vstd::utf8::encode_utf8("."@),
{
    let mut dir: Vec<u8> = Vec::new();
    let dot = ".";
    dir.extend_from_slice(dot.as_bytes());
    dir
}

/// What is said when no repository was found from where the command line pointed:
/// the path the user typed rather than whichever directory the search started
/// from, and a path that is not there at all is a different mistake from one that
/// is outside a repository.
pub fn no_repository(typed: Option<&[u8]>, exists: bool) -> (message: String)
    ensures
        message@ == (match typed {
            None => "not a git repository"@,
            Some(typed) => (if exists {
                "not a git repository: "@
            } else {
                "no such path: "@
            }) + crate::text::lossy(typed@),
        }),
{
    match typed {
        None => owned("not a git repository"),
        Some(typed) => {
            let mut message = if exists {
                owned("not a git repository: ")
            } else {
                owned("no such path: ")
            };
            message.push_str(decode_lossy(typed).as_str());
            message
        },
    }
}

/// What is said of a revision git could not resolve. When an argument is also on
/// disk it is almost certainly meant as a path, so the refusal says where a path
/// goes.
pub fn bad_revision(message: &str, on_disk: &Vec<bool>) -> (said: String)
    ensures
        said@ == (if on_disk@.contains(true) {
            message@ + " — a path goes after -C"@
        } else {
            message@
        }),
{
    let mut said = owned(message);
    let mut i: usize = 0;
    while i < on_disk.len()
        invariant
            0 <= i <= on_disk@.len(),
            said@ == message@,
            forall|j: int| 0 <= j < i ==> !#[trigger] on_disk@[j],
        decreases on_disk@.len() - i,
    {
        if on_disk[i] {
            assert(on_disk@[i as int]);
            said.push_str(" — a path goes after -C");
            return said;
        }
        i += 1;
    }
    said
}

// ---- Laws ----------------------------------------------------------------

/// A command line that opens a repository hands on at most two revisions, none of
/// them empty and none that starts with a dash: nothing that git would obey as an
/// option.
pub proof fn no_option_reaches_git(
    args: Seq<Seq<u8>>,
    i: int,
    revs: Seq<Seq<u8>>,
    path: Option<Seq<u8>>,
)
    requires
        0 <= i,
        revs.len() <= 2,
        forall|k: int|
            0 <= k < revs.len() ==> (#[trigger] revs[k]).len() > 0 && !crate::text::starts(
                crate::text::lossy(revs[k]),
                "-"@,
            ),
        path is Some ==> path->0.len() > 0,
    ensures
        match asked(args, i, revs, path) {
            Asked::Open(found, place) => {
                &&& found.len() <= 2
                &&& forall|k: int|
                    0 <= k < found.len() ==> (#[trigger] found[k]).len() > 0
                        && !crate::text::starts(crate::text::lossy(found[k]), "-"@)
                &&& place is Some ==> place->0.len() > 0
            },
            _ => true,
        },
    decreases args.len() - i,
{
    if i < args.len() {
        let text = crate::text::lossy(args[i]);
        if crate::text::starts(text, "-"@) {
            if text == "-C"@ && path is None && i + 1 < args.len() && args[i + 1].len() > 0 {
                no_option_reaches_git(args, i + 2, revs, Some(args[i + 1]));
            }
        } else if args[i].len() > 0 && revs.len() < 2 {
            no_option_reaches_git(args, i + 1, revs.push(args[i]), path);
        }
    }
}

/// An argument that can be a revision.
pub open spec fn is_rev(arg: Seq<u8>) -> bool {
    arg.len() > 0 && (crate::text::lossy(arg).len() == 0 || crate::text::lossy(arg)[0] != '-')
}

proof fn a_rev_has_no_dash(arg: Seq<u8>)
    ensures
        crate::text::starts(crate::text::lossy(arg), "-"@) <==> crate::text::lossy(arg).len() > 0
            && crate::text::lossy(arg)[0] == '-',
{
    reveal_strlit("-");
    let text = crate::text::lossy(arg);
    if text.len() > 0 {
        assert(text.take(1)[0] == text[0]);
        if text[0] == '-' {
            assert(text.take(1) =~= "-"@);
        }
    }
}

proof fn revs_are_read(
    args: Seq<Seq<u8>>,
    i: int,
    j: int,
    revs: Seq<Seq<u8>>,
    path: Option<Seq<u8>>,
)
    requires
        0 <= i <= j <= args.len(),
        revs.len() + j - i <= 2,
        forall|k: int| i <= k < j ==> is_rev(#[trigger] args[k]),
    ensures
        asked(args, i, revs, path) == asked(args, j, revs + args.subrange(i, j), path),
    decreases j - i,
{
    if i < j {
        a_rev_has_no_dash(args[i]);
        assert(is_rev(args[i]));
        revs_are_read(args, i + 1, j, revs.push(args[i]), path);
        assert(revs.push(args[i]) + args.subrange(i + 1, j) =~= revs + args.subrange(i, j));
    } else {
        assert(revs + args.subrange(i, j) =~= revs);
    }
}

/// Up to two revisions are handed on in the order they were typed, without a path.
pub proof fn revisions_are_taken_in_order(args: Seq<Seq<u8>>)
    requires
        args.len() <= 2,
        forall|k: int| 0 <= k < args.len() ==> is_rev(#[trigger] args[k]),
    ensures
        asked(args, 0, Seq::empty(), None) == Asked::Open(args, None),
{
    let none = Seq::<Seq<u8>>::empty();
    revs_are_read(args, 0, args.len() as int, none, None);
    assert(none + args.subrange(0, args.len() as int) =~= args);
}

/// What follows `-C` is the path, whatever it starts with and wherever among the
/// revisions it stands.
pub proof fn a_path_goes_after_its_flag(
    first: Seq<Seq<u8>>,
    flag: Seq<u8>,
    path: Seq<u8>,
    rest: Seq<Seq<u8>>,
)
    requires
        first.len() + rest.len() <= 2,
        forall|k: int| 0 <= k < first.len() ==> is_rev(#[trigger] first[k]),
        forall|k: int| 0 <= k < rest.len() ==> is_rev(#[trigger] rest[k]),
        crate::text::lossy(flag) == "-C"@,
        path.len() > 0,
    ensures
        asked(first.push(flag).push(path) + rest, 0, Seq::empty(), None) == Asked::Open(
            first + rest,
            Some(path),
        ),
{
    let args = first.push(flag).push(path) + rest;
    let none = Seq::<Seq<u8>>::empty();
    let n = first.len() as int;
    assert forall|k: int| 0 <= k < n implies is_rev(#[trigger] args[k]) by {
        assert(args[k] == first[k]);
    }
    revs_are_read(args, 0, n, none, None);
    assert(none + args.subrange(0, n) =~= first);
    assert(args[n] == flag && args[n + 1] == path);
    reveal_strlit("-C");
    reveal_strlit("-V");
    reveal_strlit("-h");
    reveal_strlit("--version");
    reveal_strlit("--help");
    a_rev_has_no_dash(flag);
    assert("-C"@[1] == 'C' && "-V"@[1] == 'V' && "-h"@[1] == 'h');
    assert forall|k: int| n + 2 <= k < args.len() implies is_rev(#[trigger] args[k]) by {
        assert(args[k] == rest[k - n - 2]);
    }
    revs_are_read(args, n + 2, args.len() as int, first, Some(path));
    assert(first + args.subrange(n + 2, args.len() as int) =~= first + rest);
}

/// A third revision is refused, as is any flag that is none of the known ones.
pub proof fn more_is_refused(args: Seq<Seq<u8>>, k: int)
    requires
        0 <= k < args.len(),
        k <= 2,
        forall|j: int| 0 <= j < k ==> is_rev(#[trigger] args[j]),
        ({
            let text = crate::text::lossy(args[k]);
            ||| args[k].len() == 0 && (text.len() == 0 || text[0] != '-')
            ||| k == 2 && (text.len() == 0 || text[0] != '-')
            ||| text.len() > 0 && text[0] == '-' && text != "-V"@ && text != "--version"@ && text
                != "-h"@ && text != "--help"@ && text != "-C"@
        }),
    ensures
        asked(args, 0, Seq::empty(), None) is Error,
{
    let none = Seq::<Seq<u8>>::empty();
    revs_are_read(args, 0, k, none, None);
    a_rev_has_no_dash(args[k]);
}

} // verus!

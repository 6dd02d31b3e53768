//! What git reports, read: changed files, revisions and file contents.
use crate::config::{detect_eol, Eol};
use crate::text::{
    chars_of, decode_lossy, decode_strict, join, owned, records, split, split_once, strip_end,
    strip_start, trim,
};
use vstd::prelude::*;

verus! {

#[derive(Debug, Clone, Copy, PartialEq, Eq, Structural)]
pub enum Status {
    Modified,
    Added,
    Deleted,
    Renamed,
}

impl Status {
    /// The letter that the file list shows.
    pub fn letter(self) -> (letter: char)
        ensures
            letter == (match self {
                Status::Modified => 'M',
                Status::Added => 'A',
                Status::Deleted => 'D',
                Status::Renamed => 'R',
            }),
    {
        match self {
            Status::Modified => 'M',
            Status::Added => 'A',
            Status::Deleted => 'D',
            Status::Renamed => 'R',
        }
    }
}

#[derive(Debug, PartialEq, Eq)]
pub struct ChangedFile {
    pub path: String,
    pub old_path: Option<String>,
    pub status: Status,
    /// The blob on the Before side, `None` where there is none: a file added
    /// between the two sides. Reading content by id rather than by
    /// `<rev>:<path>` is one object lookup instead of a tree walk, and needs no
    /// arithmetic about which path a rename had on which side.
    pub old_blob: Option<String>,
    /// The blob on the Current side. `None` for a deletion, and meaningless
    /// when the Current side is the working tree: `git diff` reports either
    /// zeroes or the index's blob there, neither of which is what is on disk.
    pub new_blob: Option<String>,
}

/// What a changed file says.
#[verifier::ext_equal]
pub struct FileView {
    pub path: Seq<char>,
    pub old_path: Option<Seq<char>>,
    pub status: Status,
    pub old_blob: Option<Seq<char>>,
    pub new_blob: Option<Seq<char>>,
}

impl View for ChangedFile {
    type V = FileView;

    open spec fn view(&self) -> FileView {
        FileView {
            path: self.path@,
            old_path: crate::document::opt_view(self.old_path),
            status: self.status,
            old_blob: crate::document::opt_view(self.old_blob),
            new_blob: crate::document::opt_view(self.new_blob),
        }
    }
}

pub open spec fn file_views(files: Seq<ChangedFile>) -> Seq<FileView> {
    Seq::new(files.len(), |i: int| files[i]@)
}

fn clone_text(text: &Option<String>) -> (copy: Option<String>)
    ensures
        crate::document::opt_view(copy) == crate::document::opt_view(*text),
{
    match text {
        Some(text) => Some(text.clone()),
        None => None,
    }
}

impl Clone for ChangedFile {
    fn clone(&self) -> (copy: Self)
        ensures
            copy@ == self@,
    {
        ChangedFile {
            path: self.path.clone(),
            old_path: clone_text(&self.old_path),
            status: self.status,
            old_blob: clone_text(&self.old_blob),
            new_blob: clone_text(&self.new_blob),
        }
    }
}

// ---- The order of paths --------------------------------------------------

/// One component of a path as numbers that compare as components do: the current
/// directory comes before the parent directory, which comes before any name, and
/// names compare character by character.
pub open spec fn component_key(part: Seq<char>, first: bool) -> Seq<int> {
    if part.len() == 0 {
        Seq::empty()
    } else if part == "."@ {
        if first {
            seq![2int]
        } else {
            Seq::empty()
        }
    } else if part == ".."@ {
        seq![3int]
    } else {
        seq![4int] + part.map_values(|ch: char| ch as int + 1) + seq![0int]
    }
}

pub open spec fn components_key(parts: Seq<Seq<char>>) -> Seq<int>
    decreases parts.len(),
{
    if parts.len() == 0 {
        Seq::empty()
    } else {
        components_key(parts.drop_last()) + component_key(parts.last(), parts.len() == 1)
    }
}

/// A path as numbers that compare as paths do, component by component, whatever
/// separators there are between them.
pub open spec fn path_key(path: Seq<char>) -> Seq<int> {
    let root: Seq<int> = if path.len() > 0 && path[0] == '/' {
        seq![1int]
    } else {
        Seq::empty()
    };
    root + components_key(crate::text::pieces(path, '/'))
}

/// Lexicographic order.
pub open spec fn before(a: Seq<int>, b: Seq<int>) -> bool
    decreases a.len(),
{
    if b.len() == 0 {
        false
    } else if a.len() == 0 {
        true
    } else if a[0] != b[0] {
        a[0] < b[0]
    } else {
        before(a.skip(1), b.skip(1))
    }
}

proof fn before_transitive(a: Seq<int>, b: Seq<int>, c: Seq<int>)
    requires
        !before(b, a),
        !before(c, b),
    ensures
        !before(c, a),
    decreases a.len(),
{
    if a.len() > 0 && b.len() > 0 && c.len() > 0 && a[0] == b[0] && b[0] == c[0] {
        before_transitive(a.skip(1), b.skip(1), c.skip(1));
    }
}

proof fn before_total(a: Seq<int>, b: Seq<int>)
    ensures
        !(before(a, b) && before(b, a)),
    decreases a.len(),
{
    if a.len() > 0 && b.len() > 0 && a[0] == b[0] {
        before_total(a.skip(1), b.skip(1));
    }
}

/// Put a file behind all those that do not come after it.
pub open spec fn inserted(sorted: Seq<FileView>, file: FileView) -> Seq<FileView>
    decreases sorted.len(),
{
    if sorted.len() > 0 && before(path_key(file.path), path_key(sorted.last().path)) {
        inserted(sorted.drop_last(), file).push(sorted.last())
    } else {
        sorted.push(file)
    }
}

/// Files in the order of their paths, those with the same path in the order they
/// came.
pub open spec fn in_order(files: Seq<FileView>) -> Seq<FileView>
    decreases files.len(),
{
    if files.len() == 0 {
        Seq::empty()
    } else {
        inserted(in_order(files.drop_last()), files.last())
    }
}

/// Inserting is putting the file at the place behind which all come after it.
proof fn inserted_at(sorted: Seq<FileView>, file: FileView, k: int)
    requires
        0 <= k <= sorted.len(),
        forall|j: int|
            k <= j < sorted.len() ==> before(
                path_key(file.path),
                path_key((#[trigger] sorted[j]).path),
            ),
        k > 0 ==> !before(path_key(file.path), path_key(sorted[k - 1].path)),
    ensures
        inserted(sorted, file) == sorted.insert(k, file),
    decreases sorted.len(),
{
    if k < sorted.len() {
        assert(before(path_key(file.path), path_key(sorted.last().path)));
        inserted_at(sorted.drop_last(), file, k);
        assert(sorted.insert(k, file) == sorted.drop_last().insert(k, file).push(sorted.last()));
    } else {
        assert(sorted.insert(k, file) == sorted.push(file));
    }
}

fn keys_before(a: &Vec<u32>, b: &Vec<u32>) -> (found: bool)
    ensures
        found == before(ints(a@), ints(b@)),
{
    let mut i: usize = 0;
    proof {
        assert(ints(a@).skip(0) == ints(a@));
        assert(ints(b@).skip(0) == ints(b@));
    }
    while i < a.len() && i < b.len()
        invariant
            0 <= i <= a@.len(),
            0 <= i <= b@.len(),
            before(ints(a@).skip(i as int), ints(b@).skip(i as int)) == before(ints(a@), ints(b@)),
        decreases a@.len() - i,
    {
        proof {
            assert(ints(a@).skip(i as int)[0] == a@[i as int]);
            assert(ints(b@).skip(i as int)[0] == b@[i as int]);
            assert(ints(a@).skip(i as int).skip(1) == ints(a@).skip(i + 1));
            assert(ints(b@).skip(i as int).skip(1) == ints(b@).skip(i + 1));
        }
        if a[i] != b[i] {
            return a[i] < b[i];
        }
        i += 1;
    }
    i < b.len()
}

pub open spec fn ints(key: Seq<u32>) -> Seq<int> {
    key.map_values(|n: u32| n as int)
}

/// The numbers of a path's components.
fn key_of(path: &str) -> (key: Vec<u32>)
    ensures
        ints(key@) == path_key(path@),
{
    let mut key: Vec<u32> = Vec::new();
    let chars = chars_of(path);
    if chars.len() > 0 && chars[0] == '/' {
        key.push(1);
    }
    let ghost root = ints(key@);
    proof {
        assert(root == (if path@.len() > 0 && path@[0] == '/' {
            seq![1int]
        } else {
            Seq::empty()
        }));
    }
    let parts = split(path, '/');
    let ghost all = crate::text::views(parts@);
    let mut i: usize = 0;
    proof {
        assert(root + components_key(all.take(0)) == root);
    }
    while i < parts.len()
        invariant
            0 <= i <= parts@.len(),
            all == crate::text::views(parts@),
            ints(key@) == root + components_key(all.take(i as int)),
        decreases parts@.len() - i,
    {
        let ghost had = key@;
        push_component(&mut key, parts[i].as_str(), i == 0);
        proof {
            assert(all.take(i + 1).drop_last() == all.take(i as int));
            assert(all.take(i + 1).last() == parts@[i as int]@);
            assert(ints(key@) == ints(had) + component_key(parts@[i as int]@, i == 0));
            assert(ints(key@) == root + components_key(all.take(i + 1)));
        }
        i += 1;
    }
    proof {
        assert(all.take(all.len() as int) == all);
    }
    key
}

proof fn ints_push(key: Seq<u32>, n: u32)
    ensures
        ints(key.push(n)) == ints(key).push(n as int),
{
    assert(ints(key.push(n)) =~= ints(key).push(n as int));
}

fn code_of(ch: char) -> (code: u32)
    ensures
        code == ch as int,
        code <= 0x10ffff,
{
    ch as u32
}

fn push_component(key: &mut Vec<u32>, part: &str, first: bool)
    ensures
        ints(final(key)@) == ints(old(key)@) + component_key(part@, first),
{
    let ghost start = key@;
    let ghost had = ints(key@);
    let chars = chars_of(part);
    proof {
        reveal_strlit(".");
        reveal_strlit("..");
        assert(part@ == "."@ <==> part@.len() == 1 && part@[0] == '.') by {
            if part@.len() == 1 && part@[0] == '.' {
                assert(part@ =~= "."@);
            }
        }
        assert(part@ == ".."@ <==> part@.len() == 2 && part@[0] == '.' && part@[1] == '.') by {
            if part@.len() == 2 && part@[0] == '.' && part@[1] == '.' {
                assert(part@ =~= ".."@);
            }
        }
    }
    if chars.len() == 0 {
    } else if chars.len() == 1 && chars[0] == '.' {
        if first {
            key.push(2);
        }
    } else if chars.len() == 2 && chars[0] == '.' && chars[1] == '.' {
        key.push(3);
    } else {
        key.push(4);
        proof {
            ints_push(start, 4);
        }
        let ghost codes = part@.map_values(|ch: char| ch as int + 1);
        let mut i: usize = 0;
        while i < chars.len()
            invariant
                0 <= i <= chars@.len(),
                chars@ == part@,
                codes == part@.map_values(|ch: char| ch as int + 1),
                ints(key@) == had + seq![4int] + codes.take(i as int),
            decreases chars@.len() - i,
        {
            let code: u32 = code_of(chars[i]);
            let ghost was = key@;
            key.push(code + 1);
            proof {
                ints_push(was, (code + 1) as u32);
                assert(codes[i as int] == code + 1);
                assert(codes.take(i + 1) == codes.take(i as int).push(codes[i as int]));
            }
            i += 1;
        }
        let ghost was = key@;
        key.push(0);
        proof {
            ints_push(was, 0);
            assert(codes.take(codes.len() as int) == codes);
        }
    }
    proof {
        ints_push(start, 2);
        ints_push(start, 3);
        assert(ints(key@) == had + component_key(part@, first));
    }
}

/// The files in the order of their paths.
pub fn sort_files(files: &Vec<ChangedFile>) -> (sorted: Vec<ChangedFile>)
    ensures
        file_views(sorted@) == in_order(file_views(files@)),
{
    let ghost all = file_views(files@);
    let mut sorted: Vec<ChangedFile> = Vec::new();
    let mut keys: Vec<Vec<u32>> = Vec::new();
    let mut i: usize = 0;
    proof {
        assert(file_views(sorted@) == in_order(all.take(0)));
    }
    while i < files.len()
        invariant
            0 <= i <= files@.len(),
            all == file_views(files@),
            file_views(sorted@) == in_order(all.take(i as int)),
            keys@.len() == sorted@.len(),
            forall|j: int|
                0 <= j < keys@.len() ==> ints((#[trigger] keys@[j])@) == path_key(sorted@[j].path@),
        decreases files@.len() - i,
    {
        let file = files[i].clone();
        let key = key_of(file.path.as_str());
        let mut k: usize = sorted.len();
        while k > 0 && keys_before(&key, &keys[k - 1])
            invariant
                0 <= k <= sorted@.len(),
                keys@.len() == sorted@.len(),
                ints(key@) == path_key(file.path@),
                forall|j: int|
                    0 <= j < keys@.len() ==> ints((#[trigger] keys@[j])@) == path_key(
                        sorted@[j].path@,
                    ),
                forall|j: int|
                    k <= j < sorted@.len() ==> before(
                        path_key(file.path@),
                        path_key((#[trigger] sorted@[j]).path@),
                    ),
            decreases k,
        {
            k -= 1;
            assert(ints(keys@[k as int]@) == path_key(sorted@[k as int].path@));
        }
        let ghost had = file_views(sorted@);
        let ghost new = file@;
        proof {
            if k > 0 {
                assert(ints(keys@[k - 1]@) == path_key(sorted@[k - 1].path@));
            }
            assert forall|j: int| k <= j < had.len() implies before(
                path_key(new.path),
                path_key((#[trigger] had[j]).path),
            ) by {
                assert(had[j] == sorted@[j]@);
            }
            inserted_at(had, new, k as int);
            assert(all.take(i + 1).drop_last() == all.take(i as int));
        }
        let ghost sorted_before = sorted@;
        let ghost keys_list = keys@;
        sorted.insert(k, file);
        keys.insert(k, key);
        proof {
            assert(file_views(sorted@) == had.insert(k as int, new));
            assert forall|j: int| 0 <= j < keys@.len() implies ints((#[trigger] keys@[j])@)
                == path_key(sorted@[j].path@) by {
                if j < k {
                    assert(keys@[j] == keys_list[j]);
                    assert(sorted@[j] == sorted_before[j]);
                } else if j > k {
                    assert(keys@[j] == keys_list[j - 1]);
                    assert(sorted@[j] == sorted_before[j - 1]);
                }
            }
        }
        i += 1;
    }
    proof {
        assert(all.take(all.len() as int) == all);
    }
    sorted
}

// ---- What `git diff --raw -z` says ---------------------------------------

/// An id that is not all zeroes, which is git's way of saying there is no blob.
pub open spec fn blob_of(id: Seq<char>) -> Option<Seq<char>> {
    if exists|i: int| 0 <= i < id.len() && #[trigger] id[i] != '0' {
        Some(id)
    } else {
        None
    }
}

/// An id of all zeroes is git's way of saying there is no blob on that side: a
/// file added, deleted, or (as `git diff` reports it) not in the index.
pub fn blob_id(id: &str) -> (blob: Option<String>)
    ensures
        crate::document::opt_view(blob) == blob_of(id@),
{
    let chars = chars_of(id);
    let mut i: usize = 0;
    while i < chars.len()
        invariant
            0 <= i <= chars@.len(),
            chars@ == id@,
            forall|j: int| 0 <= j < i ==> #[trigger] id@[j] == '0',
        decreases chars@.len() - i,
    {
        if chars[i] != '0' {
            assert(id@[i as int] != '0');
            return Some(owned(id));
        }
        i += 1;
    }
    None
}

/// A path as git wrote it.
pub fn bytes_to_path(bytes: &[u8]) -> (path: String)
    ensures
        path@ == crate::text::lossy(bytes@),
{
    decode_lossy(bytes)
}

/// The head of a record: the two ids and the letter of the status.
pub struct Head {
    pub old_id: Seq<char>,
    pub new_id: Seq<char>,
    pub letter: char,
}

/// What the head of a record says, if it is one: a colon, two modes, two ids and
/// a status, with one space between each two.
pub open spec fn head_of(record: Seq<u8>) -> Option<Head> {
    if record.len() == 0 || record[0] != 58 {
        None
    } else {
        let fields = crate::text::pieces(crate::text::lossy(record.skip(1)), ' ');
        if fields.len() >= 5 && fields[4].len() > 0 {
            Some(Head { old_id: fields[2], new_id: fields[3], letter: fields[4][0] })
        } else {
            None
        }
    }
}

pub open spec fn status_of(letter: char) -> Status {
    if letter == 'A' {
        Status::Added
    } else if letter == 'D' {
        Status::Deleted
    } else if letter == 'R' || letter == 'C' {
        Status::Renamed
    } else {
        Status::Modified
    }
}

/// The files that the records from `i` on describe. A head is followed by its
/// path, or for a rename or a copy by the old path and then the new one; a
/// record that is no head is passed over; and a head without its paths ends the
/// list.
pub open spec fn files_from(records: Seq<Seq<u8>>, i: int) -> Seq<FileView>
    decreases records.len() - i,
{
    if i < 0 || i >= records.len() {
        Seq::empty()
    } else {
        match head_of(records[i]) {
            None => files_from(records, i + 1),
            Some(head) => {
                let renamed = head.letter == 'R' || head.letter == 'C';
                if i + 1 >= records.len() || (renamed && i + 2 >= records.len()) {
                    Seq::empty()
                } else {
                    let file = FileView {
                        path: crate::text::lossy(records[if renamed { i + 2 } else { i + 1 }]),
                        old_path: if renamed {
                            Some(crate::text::lossy(records[i + 1]))
                        } else {
                            None
                        },
                        status: status_of(head.letter),
                        old_blob: blob_of(head.old_id),
                        new_blob: blob_of(head.new_id),
                    };
                    seq![file] + files_from(records, if renamed { i + 3 } else { i + 2 })
                }
            },
        }
    }
}

/// The files of a raw diff, as they come.
pub open spec fn raw_files(buf: Seq<u8>) -> Seq<FileView> {
    files_from(crate::text::nonempty(crate::text::pieces(buf, 0u8)), 0)
}

/// The head of a record, read.
fn read_head(record: &Vec<u8>) -> (head: Option<(String, String, char)>)
    ensures
        match head {
            Some((old_id, new_id, letter)) => head_of(record@) == Some(
                (Head { old_id: old_id@, new_id: new_id@, letter }),
            ),
            None => head_of(record@) is None,
        },
{
    if record.len() == 0 || record[0] != 58 {
        return None;
    }
    let rest = vstd::slice::slice_subrange(record.as_slice(), 1, record.len());
    proof {
        assert(record@.subrange(1, record@.len() as int) == record@.skip(1));
    }
    let text = decode_lossy(rest);
    let fields = split(text.as_str(), ' ');
    let ghost views = crate::text::views(fields@);
    if fields.len() < 5 {
        return None;
    }
    let letters = chars_of(fields[4].as_str());
    if letters.len() == 0 {
        return None;
    }
    let letter = letters[0];
    proof {
        assert(views[2] == fields@[2]@);
        assert(views[3] == fields@[3]@);
        assert(views[4] == fields@[4]@);
    }
    Some((fields[2].clone(), fields[3].clone(), letter))
}

fn read_status(letter: char) -> (status: Status)
    ensures
        status == status_of(letter),
{
    if letter == 'A' {
        Status::Added
    } else if letter == 'D' {
        Status::Deleted
    } else if letter == 'R' || letter == 'C' {
        Status::Renamed
    } else {
        Status::Modified
    }
}

/// The files of a raw diff, as they come.
fn read_raw(buf: &[u8]) -> (files: Vec<ChangedFile>)
    ensures
        file_views(files@) == raw_files(buf@),
{
    let records = records(buf, 0);
    let ghost all = crate::text::byte_views(records@);
    let mut files: Vec<ChangedFile> = Vec::new();
    let mut i: usize = 0;
    proof {
        assert(file_views(files@) + files_from(all, 0) == files_from(all, 0));
    }
    while i < records.len()
        invariant
            0 <= i <= records@.len(),
            all == crate::text::byte_views(records@),
            file_views(files@) + files_from(all, i as int) == raw_files(buf@),
        decreases records@.len() - i,
    {
        let ghost had = file_views(files@);
        assert(all[i as int] == records@[i as int]@);
        let head = read_head(&records[i]);
        match head {
            None => {
                i += 1;
            },
            Some((old_id, new_id, letter)) => {
                let renamed = letter == 'R' || letter == 'C';
                let left: usize = records.len() - i;
                if left < 2 || (renamed && left < 3) {
                    proof {
                        assert(files_from(all, i as int) == Seq::<FileView>::empty());
                        assert(had + Seq::<FileView>::empty() == had);
                    }
                    return files;
                }
                proof {
                    assert(all[i + 1] == records@[i + 1]@);
                }
                let first = bytes_to_path(records[i + 1].as_slice());
                let (old_path, path) = if renamed {
                    proof {
                        assert(all[i + 2] == records@[i + 2]@);
                    }
                    (Some(first), bytes_to_path(records[i + 2].as_slice()))
                } else {
                    (None, first)
                };
                let file = ChangedFile {
                    path,
                    old_path,
                    status: read_status(letter),
                    old_blob: blob_id(old_id.as_str()),
                    new_blob: blob_id(new_id.as_str()),
                };
                let ghost view = file@;
                files.push(file);
                let next: usize = if renamed {
                    i + 3
                } else {
                    i + 2
                };
                proof {
                    assert(file_views(files@) == had.push(view));
                    assert(files_from(all, i as int) == seq![view] + files_from(all, next as int));
                    assert(had + (seq![view] + files_from(all, next as int)) == had.push(view)
                        + files_from(all, next as int));
                }
                i = next;
            },
        }
    }
    proof {
        assert(files_from(all, i as int) == Seq::<FileView>::empty());
        assert(file_views(files@) + Seq::<FileView>::empty() == file_views(files@));
    }
    files
}

/// The files of a raw diff, in the order of their paths. `git diff --raw -z`
/// writes one `:<old mode> <new mode> <old id> <new id> <status>\0` record per
/// file, followed by its path or, for a rename or a copy, by the old path and
/// then the new one. An id of all zeroes means there is no blob on that side.
pub fn parse_raw_z(buf: &[u8]) -> (files: Vec<ChangedFile>)
    ensures
        file_views(files@) == in_order(raw_files(buf@)),
{
    sort_files(&read_raw(buf))
}

/// A file that git does not know about yet.
pub open spec fn untracked(path: Seq<u8>) -> FileView {
    FileView {
        path: crate::text::lossy(path),
        old_path: None,
        status: Status::Added,
        old_blob: None,
        new_blob: None,
    }
}

pub open spec fn untracked_files(buf: Seq<u8>) -> Seq<FileView> {
    crate::text::nonempty(crate::text::pieces(buf, 0u8)).map_values(|path: Seq<u8>| untracked(path))
}

/// Every file that differs between the two sides, in the order of their paths:
/// those of a raw diff, and where the working tree is a side those that git does
/// not know about yet, as `git ls-files --others -z` lists them. `git diff` does
/// not list them, and they only exist when the working tree is a side.
pub fn changed_files(raw: &[u8], others: Option<&[u8]>) -> (files: Vec<ChangedFile>)
    ensures
        file_views(files@) == in_order(
            in_order(raw_files(raw@)) + (match others {
                Some(others) => untracked_files(others@),
                None => Seq::empty(),
            }),
        ),
{
    let mut files = parse_raw_z(raw);
    let ghost had = file_views(files@);
    if let Some(others) = others {
        let paths = records(others, 0);
        let ghost all = untracked_files(others@);
        let ghost lists = crate::text::byte_views(paths@);
        let mut i: usize = 0;
        proof {
            assert(had + all.take(0) == had);
        }
        while i < paths.len()
            invariant
                0 <= i <= paths@.len(),
                lists == crate::text::byte_views(paths@),
                all == lists.map_values(|path: Seq<u8>| untracked(path)),
                file_views(files@) == had + all.take(i as int),
            decreases paths@.len() - i,
        {
            let file = ChangedFile {
                path: bytes_to_path(paths[i].as_slice()),
                old_path: None,
                status: Status::Added,
                old_blob: None,
                new_blob: None,
            };
            let ghost view = file@;
            let ghost before_push = file_views(files@);
            files.push(file);
            proof {
                assert(lists[i as int] == paths@[i as int]@);
                assert(view == all[i as int]);
                assert(file_views(files@) == before_push.push(view));
                assert(all.take(i + 1) == all.take(i as int).push(view));
            }
            i += 1;
        }
        proof {
            assert(all.take(all.len() as int) == all);
        }
    } else {
        proof {
            assert(had + Seq::<FileView>::empty() == had);
        }
    }
    sort_files(&files)
}

// ---- Revisions -----------------------------------------------------------

pub open spec fn end_of_range(text: Seq<char>) -> Seq<char> {
    if text.len() == 0 {
        "HEAD"@
    } else {
        text
    }
}

/// The two sides one revision argument names. The longer range operator is tried
/// before the shorter, which is a prefix of it; an omitted end of a range is
/// `HEAD`, as it is to git.
pub open spec fn sides_of(rev: Seq<char>) -> (Seq<char>, Seq<char>) {
    match crate::text::halves(rev, "..."@) {
        Some((a, b)) => (end_of_range(a), end_of_range(b)),
        None => match crate::text::halves(rev, ".."@) {
            Some((a, b)) => (end_of_range(a), end_of_range(b)),
            None => if crate::text::ends(rev, "^!"@) {
                let base = rev.take(rev.len() - "^!"@.len());
                (base + "^"@, base)
            } else {
                (rev, "Working Tree"@)
            },
        },
    }
}

fn range_end(text: String) -> (end: String)
    ensures
        end@ == end_of_range(text@),
{
    if text.as_str().is_empty() {
        owned("HEAD")
    } else {
        text
    }
}

/// The two sides one revision argument names, for the pane titles.
pub fn split_revision(rev: &str) -> (sides: (String, String))
    ensures
        (sides.0@, sides.1@) == sides_of(rev@),
{
    if let Some((a, b)) = split_once(rev, "...") {
        return (range_end(a), range_end(b));
    }
    if let Some((a, b)) = split_once(rev, "..") {
        return (range_end(a), range_end(b));
    }
    match strip_end(rev, "^!") {
        Some(base) => {
            proof {
                assert(rev@.take(rev@.len() - "^!"@.len()) == base@);
                assert(rev@.skip(rev@.len() - "^!"@.len()) == "^!"@);
            }
            let mut parent = base.clone();
            parent.push_str("^");
            (parent, base)
        },
        None => (owned(rev), owned("Working Tree")),
    }
}

/// What the two panes are looking at, from the revisions as they were typed and
/// whether the Current side is the working tree.
pub open spec fn labels_of(revs: Seq<Seq<char>>, worktree: bool) -> (Seq<char>, Seq<char>) {
    let typed = if revs.len() == 0 {
        ("HEAD"@, "Working Tree"@)
    } else if revs.len() == 1 {
        sides_of(revs[0])
    } else if revs.len() == 2 {
        (revs[0], revs[1])
    } else {
        (crate::text::joined(revs, " "@), "Current"@)
    };
    (
        typed.0,
        if worktree {
            "Working Tree"@
        } else {
            typed.1
        },
    )
}

/// What the two panes are looking at, for their titles. The name the user thinks
/// in is the name they read back. One argument can still name one commit, and
/// then the Current side is the working tree whatever the syntax suggested.
pub fn labels(revs: &Vec<String>, worktree: bool) -> (labels: (String, String))
    ensures
        (labels.0@, labels.1@) == labels_of(crate::text::views(revs@), worktree),
{
    let (old, new) = if revs.len() == 0 {
        (owned("HEAD"), owned("Working Tree"))
    } else if revs.len() == 1 {
        split_revision(revs[0].as_str())
    } else if revs.len() == 2 {
        (revs[0].clone(), revs[1].clone())
    } else {
        (join(revs.as_slice(), " "), owned("Current"))
    };
    if worktree {
        (old, owned("Working Tree"))
    } else {
        (old, new)
    }
}

/// How many lines a text has: one more than its line feeds, unless nothing
/// follows the last of them.
pub open spec fn line_count(text: Seq<char>) -> int {
    let parts = crate::text::pieces(text, '\n');
    if parts.last().len() == 0 {
        parts.len() - 1
    } else {
        parts.len() as int
    }
}

/// Whether the Current side is the working tree, from what
/// `git rev-parse --revs-only` printed for the arguments: `git diff` compares
/// against the working tree when they name at most one commit, and each commit
/// is one line.
pub fn names_one_commit(output: &[u8]) -> (one: bool)
    ensures
        one == (line_count(crate::text::lossy(output@)) <= 1),
{
    let text = decode_lossy(output);
    let parts = split(text.as_str(), '\n');
    proof {
        crate::text::pieces_nonempty(text@, '\n');
        assert(crate::text::views(parts@).last() == parts@.last()@);
    }
    let last = &parts[parts.len() - 1];
    let lines: usize = if last.as_str().is_empty() {
        parts.len() - 1
    } else {
        parts.len()
    };
    lines <= 1
}

/// What git said about a revision it cannot resolve, without the prefix that
/// another takes the place of.
pub open spec fn refusal_of(message: Seq<char>) -> Seq<char> {
    let said = crate::text::trimmed(message);
    if crate::text::starts(said, "fatal: "@) {
        crate::text::trimmed(said.skip("fatal: "@.len() as int))
    } else {
        crate::text::trimmed(said)
    }
}

/// A revision git cannot resolve is refused in git's own words, which are the
/// words the user knows.
pub fn refusal(output: &[u8]) -> (message: String)
    ensures
        message@ == refusal_of(crate::text::lossy(output@)),
{
    let text = decode_lossy(output);
    let said = trim(text.as_str());
    match strip_start(said.as_str(), "fatal: ") {
        Some(rest) => trim(rest.as_str()),
        None => trim(said.as_str()),
    }
}

// ---- Contents ------------------------------------------------------------

#[derive(Debug, Clone, PartialEq, Eq)]
pub struct TextFile {
    pub body: String,
    pub eol: Option<Eol>,
    pub trailing_newline: bool,
}

/// Content of one side, carrying what saving needs to put it back unchanged.
#[derive(Debug, Clone, PartialEq, Eq)]
pub enum FileContent {
    Text(TextFile),
    /// Binary or not valid UTF-8: displayable as a note, never editable, because
    /// a lossy decode would corrupt the file on save.
    Undecodable,
    Missing,
}

/// A zero among the first bytes, which no text has.
pub open spec fn looks_binary(bytes: Seq<u8>) -> bool {
    exists|i: int| 0 <= i < bytes.len() && i < 8000 && #[trigger] bytes[i] == 0
}

/// The line ending that most lines of a text have.
pub open spec fn main_eol(text: Seq<char>) -> Option<Eol> {
    let crlf = crate::config::line_feeds(text, true);
    let lf = crate::config::line_feeds(text, false);
    if crlf == 0 && lf == 0 {
        None
    } else if crlf > lf {
        Some(Eol::Crlf)
    } else {
        Some(Eol::Lf)
    }
}

impl FileContent {
    /// What bytes hold: a text where they are valid UTF-8 without a zero near
    /// their start.
    pub open spec fn decodes(self, bytes: Seq<u8>) -> bool {
        if looks_binary(bytes) || !vstd::utf8::valid_utf8(bytes) {
            self is Undecodable
        } else {
            &&& self is Text
            &&& self->Text_0.body@ == vstd::utf8::decode_utf8(bytes)
            &&& self->Text_0.eol == main_eol(self->Text_0.body@)
            &&& self->Text_0.trailing_newline == (self->Text_0.body@.len() > 0
                && self->Text_0.body@.last() == '\n')
        }
    }

    pub fn decode(bytes: Vec<u8>) -> (content: Self)
        ensures
            content.decodes(bytes@),
    {
        let limit: usize = if bytes.len() <= 8000 {
            bytes.len()
        } else {
            8000
        };
        let mut i: usize = 0;
        while i < limit
            invariant
                0 <= i <= limit,
                limit <= bytes@.len(),
                limit == bytes@.len() || limit == 8000,
                limit <= 8000,
                forall|j: int| 0 <= j < i ==> #[trigger] bytes@[j] != 0,
            decreases limit - i,
        {
            if bytes[i] == 0 {
                assert(bytes@[i as int] == 0);
                return FileContent::Undecodable;
            }
            i += 1;
        }
        assert(!looks_binary(bytes@));
        let body = match decode_strict(bytes) {
            Ok(body) => body,
            Err(_) => {
                return FileContent::Undecodable;
            },
        };
        let eol = detect_eol(body.as_str());
        let chars = chars_of(body.as_str());
        let trailing_newline = chars.len() > 0 && chars[chars.len() - 1] == '\n';
        FileContent::Text(TextFile { body, eol, trailing_newline })
    }

    /// What is shown of the content.
    pub open spec fn words(self) -> Seq<char> {
        match self {
            FileContent::Text(file) => file.body@,
            FileContent::Undecodable => "<binary file>"@,
            FileContent::Missing => ""@,
        }
    }

    pub fn text(&self) -> (text: &str)
        ensures
            text@ == self.words(),
    {
        match self {
            FileContent::Text(file) => file.body.as_str(),
            FileContent::Undecodable => "<binary file>",
            FileContent::Missing => "",
        }
    }

    /// The text to edit, if there is one.
    pub fn editable(&self) -> (file: Option<&TextFile>)
        ensures
            match *self {
                FileContent::Text(text) => file == Some(&text),
                _ => file is None,
            },
    {
        match self {
            FileContent::Text(file) => Some(file),
            _ => None,
        }
    }
}

/// The text of the Before side, from the bytes of its blob if there is one. The
/// Before side is only ever displayed, so undecodable bytes are shown lossily rather
/// than refused.
pub fn old_content(blob: Option<Vec<u8>>) -> (text: String)
    ensures
        match blob {
            Some(bytes) => {
                &&& text@ == crate::text::lossy(bytes@)
                &&& vstd::utf8::valid_utf8(bytes@) ==> text@ == vstd::utf8::decode_utf8(bytes@)
            },
            None => text@.len() == 0,
        },
{
    match blob {
        Some(bytes) => decode_lossy(bytes.as_slice()),
        None => String::new(),
    }
}

/// Where the Current side of a file is read from.
#[derive(Debug, PartialEq, Eq)]
pub enum Source {
    Nowhere,
    Disk,
    Blob(String),
}

/// Where the Current side is read from: the file on disk when the working tree is
/// what is being compared, and the blob otherwise. The blob is never read for the
/// working tree even when `git diff` reported one, because what it reports there
/// is the index's copy, not what the editor would be editing.
pub fn new_source(file: &ChangedFile, worktree: bool) -> (source: Source)
    ensures
        match source {
            Source::Nowhere => file.status == Status::Deleted || (!worktree && file.new_blob is None),
            Source::Disk => file.status != Status::Deleted && worktree,
            Source::Blob(id) => file.status != Status::Deleted && !worktree && file.new_blob is Some
                && file.new_blob->0@ == id@,
        },
{
    if file.status == Status::Deleted {
        return Source::Nowhere;
    }
    if worktree {
        return Source::Disk;
    }
    match &file.new_blob {
        Some(id) => Source::Blob(id.clone()),
        None => Source::Nowhere,
    }
}

/// What was read of the Current side, if it could be.
pub fn new_content(bytes: Option<Vec<u8>>) -> (content: FileContent)
    ensures
        match bytes {
            Some(bytes) => content.decodes(bytes@),
            None => content is Missing,
        },
{
    match bytes {
        Some(bytes) => FileContent::decode(bytes),
        None => FileContent::Missing,
    }
}

/// Lines, each with what ends it.
pub open spec fn woven(lines: Seq<Seq<char>>, ends: Seq<Seq<char>>) -> Seq<char>
    decreases lines.len(),
{
    if lines.len() == 0 {
        Seq::empty()
    } else {
        woven(lines.drop_last(), ends.drop_last()) + lines.last() + ends.last()
    }
}

/// A line ending, and not the end of a text without one.
pub open spec fn ends_line(end: Seq<char>) -> bool {
    end.len() > 0 && end.last() == '\n'
}

/// What is written behind a line: what ended it, where that ends a line exactly where
/// one is to be ended, else the line ending or nothing.
pub open spec fn end_text(end: Seq<char>, more: bool, eol: Eol) -> Seq<char> {
    if ends_line(end) == more {
        end
    } else if more {
        eol.text()
    } else {
        Seq::empty()
    }
}

/// What is written behind each line: a line ending behind all but the last, and behind
/// that one where the file ends with one.
pub open spec fn finished(ends: Seq<Seq<char>>, eol: Eol, trailing: bool) -> Seq<Seq<char>> {
    Seq::new(ends.len(), |i: int| end_text(ends[i], i + 1 < ends.len() || trailing, eol))
}

/// The text of a file with these lines, which were ended like this.
pub open spec fn body_of(
    lines: Seq<Seq<char>>,
    ends: Seq<Seq<char>>,
    eol: Eol,
    trailing: bool,
) -> Seq<char> {
    woven(lines, finished(ends, eol, trailing))
}

/// The text to write for a buffer, restoring each line's own line ending and the
/// trailing-newline state so lines the user never touched come back byte for byte.
pub fn file_body(lines: &[String], ends: &[String], eol: Eol, trailing: bool) -> (body: String)
    requires
        lines@.len() == ends@.len(),
    ensures
        body@ == body_of(crate::text::views(lines@), crate::text::views(ends@), eol, trailing),
{
    let ghost all = crate::text::views(lines@);
    let ghost given = crate::text::views(ends@);
    let ghost closing = finished(given, eol, trailing);
    let mut body = String::new();
    let mut i: usize = 0;
    while i < lines.len()
        invariant
            0 <= i <= lines@.len(),
            lines@.len() == ends@.len(),
            all == crate::text::views(lines@),
            given == crate::text::views(ends@),
            closing == finished(given, eol, trailing),
            body@ == woven(all.take(i as int), closing.take(i as int)),
        decreases lines@.len() - i,
    {
        let more = i + 1 < lines.len() || trailing;
        let own = match strip_end(ends[i].as_str(), "\n") {
            Some(_) => true,
            None => false,
        };
        proof {
            reveal_strlit("\n");
            let end = given[i as int];
            if ends_line(end) {
                assert(end.skip(end.len() - 1) == "\n"@);
            } else if own {
                assert(end.last() == end.skip(end.len() - 1)[0]);
            }
            assert(own == ends_line(end));
            assert(all.take(i + 1).drop_last() == all.take(i as int));
            assert(closing.take(i + 1).drop_last() == closing.take(i as int));
            assert(all.take(i + 1).last() == lines@[i as int]@);
            assert(closing.take(i + 1).last() == end_text(end, more, eol));
        }
        body.push_str(lines[i].as_str());
        let ghost so_far = body@;
        if own == more {
            body.push_str(ends[i].as_str());
        } else if more {
            body.push_str(eol.as_str());
        }
        proof {
            assert(body@ == so_far + end_text(given[i as int], more, eol));
        }
        i += 1;
    }
    proof {
        assert(all.take(all.len() as int) == all);
        assert(closing.take(closing.len() as int) == closing);
    }
    body
}

/// One place above a path: the directory, what is left of the path below it where
/// that can be told, and whether the directory is on disk.
pub struct Ancestor {
    pub dir: Vec<u8>,
    pub rest: Option<Vec<u8>>,
    pub exists: bool,
}

pub open spec fn usable(ancestor: Ancestor) -> bool {
    ancestor.exists && ancestor.rest is Some
}

/// The nearest directory above a path that is on disk, and what is left of the
/// path below it. Neither the path nor its parent is something to count on: a
/// deletion can leave a change worth opening with both of them gone. The places
/// above the path come nearest first. A bare file name has an empty parent, which
/// is the current directory rather than nothing.
pub fn nearest_existing_dir(ancestors: &Vec<Ancestor>) -> (found: Option<(Vec<u8>, Vec<u8>)>)
    ensures
        match found {
            Some((dir, rest)) => exists|k: int|
                #![trigger ancestors@[k]]
                0 <= k < ancestors@.len() && usable(ancestors@[k]) && rest@
                    == ancestors@[k].rest->0@ && dir@ == (if ancestors@[k].dir@.len() == 0 {
                    coded("."@)
                } else {
                    ancestors@[k].dir@
                }) && forall|j: int| 0 <= j < k ==> !usable(#[trigger] ancestors@[j]),
            None => forall|j: int| 0 <= j < ancestors@.len() ==> !usable(#[trigger] ancestors@[j]),
        },
{
    let mut k: usize = 0;
    while k < ancestors.len()
        invariant
            0 <= k <= ancestors@.len(),
            forall|j: int| 0 <= j < k ==> !usable(#[trigger] ancestors@[j]),
        decreases ancestors@.len() - k,
    {
        let ancestor = &ancestors[k];
        if ancestor.exists {
            if let Some(rest) = &ancestor.rest {
                let dir = if ancestor.dir.len() == 0 {
                    bytes_of(".")
                } else {
                    ancestor.dir.clone()
                };
                let rest = rest.clone();
                proof {
                    assert(usable(ancestors@[k as int]));
                    assert(dir@ =~= (if ancestor.dir@.len() == 0 {
                        coded("."@)
                    } else {
                        ancestor.dir@
                    }));
                    assert(rest@ =~= ancestors@[k as int].rest->0@);
                }
                return Some((dir, rest));
            }
        }
        k += 1;
    }
    None
}

// ---- Laws ----------------------------------------------------------------

/// No file stands behind one whose path comes after its own.
pub open spec fn sorted(files: Seq<FileView>) -> bool {
    forall|i: int, j: int|
        #![trigger files[i], files[j]]
        0 <= i < j < files.len() ==> !before(path_key(files[j].path), path_key(files[i].path))
}

proof fn inserted_sorted(files: Seq<FileView>, file: FileView)
    requires
        sorted(files),
    ensures
        sorted(inserted(files, file)),
        forall|k: Seq<int>|
            (forall|i: int|
                0 <= i < files.len() ==> !before(k, path_key((#[trigger] files[i]).path)))
                && !before(k, path_key(file.path)) ==> (forall|i: int|
                0 <= i < inserted(files, file).len() ==> !#[trigger] before(
                    k,
                    path_key(inserted(files, file)[i].path),
                )),
    decreases files.len(),
{
    let result = inserted(files, file);
    let key = path_key(file.path);
    if files.len() > 0 && before(key, path_key(files.last().path)) {
        let init = files.drop_last();
        let last = files.last();
        assert(sorted(init)) by {
            assert forall|i: int, j: int|
                #![trigger init[i], init[j]]
                0 <= i < j < init.len() implies !before(
                path_key(init[j].path),
                path_key(init[i].path),
            ) by {
                assert(init[i] == files[i] && init[j] == files[j]);
            }
        }
        inserted_sorted(init, file);
        let head = inserted(init, file);
        before_total(key, path_key(last.path));
        assert forall|i: int| 0 <= i < init.len() implies !before(
            path_key(last.path),
            path_key((#[trigger] init[i]).path),
        ) by {
            assert(init[i] == files[i]);
        }
        assert(forall|i: int|
            0 <= i < head.len() ==> !#[trigger] before(
                path_key(last.path),
                path_key(head[i].path),
            ));
        assert(sorted(result)) by {
            assert forall|i: int, j: int|
                #![trigger result[i], result[j]]
                0 <= i < j < result.len() implies !before(
                path_key(result[j].path),
                path_key(result[i].path),
            ) by {
                if j < head.len() {
                    assert(result[i] == head[i] && result[j] == head[j]);
                } else {
                    assert(result[i] == head[i] && result[j] == last);
                }
            }
        }
        assert forall|k: Seq<int>|
            (forall|i: int|
                0 <= i < files.len() ==> !before(k, path_key((#[trigger] files[i]).path)))
                && !before(k, path_key(file.path)) implies (forall|i: int|
            0 <= i < result.len() ==> !#[trigger] before(k, path_key(result[i].path))) by {
            assert forall|i: int| 0 <= i < init.len() implies !before(
                k,
                path_key((#[trigger] init[i]).path),
            ) by {
                assert(init[i] == files[i]);
            }
            assert(!before(k, path_key(files[files.len() - 1].path)));
            assert forall|i: int| 0 <= i < result.len() implies !#[trigger] before(
                k,
                path_key(result[i].path),
            ) by {
                if i < head.len() {
                    assert(result[i] == head[i]);
                    assert(!before(k, path_key(head[i].path)));
                } else {
                    assert(result[i] == last);
                }
            }
        }
    } else {
        assert(sorted(result)) by {
            assert forall|i: int, j: int|
                #![trigger result[i], result[j]]
                0 <= i < j < result.len() implies !before(
                path_key(result[j].path),
                path_key(result[i].path),
            ) by {
                if j < files.len() {
                    assert(result[i] == files[i] && result[j] == files[j]);
                } else {
                    assert(result[i] == files[i] && result[j] == file);
                    if i < files.len() - 1 {
                        assert(!before(path_key(files[files.len() - 1].path), path_key(files[i].path)));
                    }
                    before_reflexive(path_key(files.last().path));
                    before_transitive(
                        path_key(files[i].path),
                        path_key(files.last().path),
                        key,
                    );
                }
            }
        }
        assert forall|k: Seq<int>|
            (forall|i: int|
                0 <= i < files.len() ==> !before(k, path_key((#[trigger] files[i]).path)))
                && !before(k, path_key(file.path)) implies (forall|i: int|
            0 <= i < result.len() ==> !#[trigger] before(k, path_key(result[i].path))) by {
            assert forall|i: int| 0 <= i < result.len() implies !#[trigger] before(
                k,
                path_key(result[i].path),
            ) by {
                if i < files.len() {
                    assert(result[i] == files[i]);
                    assert(!before(k, path_key(files[i].path)));
                }
            }
        }
    }
}

proof fn before_reflexive(a: Seq<int>)
    ensures
        !before(a, a),
    decreases a.len(),
{
    if a.len() > 0 {
        before_reflexive(a.skip(1));
    }
}

/// The files of a list come in the order of their paths.
pub proof fn files_come_in_order(files: Seq<FileView>)
    ensures
        sorted(in_order(files)),
    decreases files.len(),
{
    if files.len() > 0 {
        files_come_in_order(files.drop_last());
        inserted_sorted(in_order(files.drop_last()), files.last());
    }
}

/// The files of a list with one path, in the order in which they stand.
pub open spec fn with_path(files: Seq<FileView>, key: Seq<int>) -> Seq<FileView>
    decreases files.len(),
{
    if files.len() == 0 {
        Seq::empty()
    } else {
        let rest = with_path(files.drop_last(), key);
        if path_key(files.last().path) == key {
            rest.push(files.last())
        } else {
            rest
        }
    }
}

proof fn inserted_keeps(files: Seq<FileView>, file: FileView, key: Seq<int>)
    ensures
        with_path(inserted(files, file), key) == with_path(files.push(file), key),
    decreases files.len(),
{
    let result = inserted(files, file);
    assert(files.push(file).drop_last() == files);
    if files.len() > 0 && before(path_key(file.path), path_key(files.last().path)) {
        let init = files.drop_last();
        inserted_keeps(init, file, key);
        assert(init.push(file).drop_last() == init);
        assert(result.drop_last() == inserted(init, file));
        before_reflexive(path_key(file.path));
        let rest = with_path(init, key);
        assert(with_path(files, key) == (if path_key(files.last().path) == key {
            rest.push(files.last())
        } else {
            rest
        }));
        assert(with_path(init.push(file), key) == (if path_key(file.path) == key {
            rest.push(file)
        } else {
            rest
        }));
    }
}

/// Putting files in order loses none and adds none, and those with the same path
/// stay in the order they came.
pub proof fn no_file_is_lost(files: Seq<FileView>, key: Seq<int>)
    ensures
        with_path(in_order(files), key) == with_path(files, key),
    decreases files.len(),
{
    if files.len() > 0 {
        let init = files.drop_last();
        no_file_is_lost(init, key);
        inserted_keeps(in_order(init), files.last(), key);
        let pushed = in_order(init).push(files.last());
        assert(pushed.drop_last() == in_order(init));
    }
}

// ---- A repository and what is asked of git in it --------------------------------

/// What a run of git came to.
pub struct Answer {
    pub success: bool,
    pub stdout: Vec<u8>,
    pub stderr: Vec<u8>,
}

/// A repository, and the revisions that are compared in it.
pub struct Repo {
    pub root: String,
    /// As the user typed them.
    pub revs: Vec<Vec<u8>>,
    /// As git is asked to compare them.
    pub diff_revs: Vec<Vec<u8>>,
    /// The working tree is the Current side.
    pub worktree: bool,
}

/// The bytes of a text.
pub open spec fn coded(text: Seq<char>) -> Seq<u8> {
    vstd::utf8::encode_utf8(text)
}

fn bytes_of(text: &str) -> (bytes: Vec<u8>)
    ensures
        bytes@ == coded(text@),
{
    let mut bytes: Vec<u8> = Vec::new();
    bytes.extend_from_slice(text.as_bytes());
    bytes
}

fn same_bytes_list(list: &Vec<Vec<u8>>) -> (copy: Vec<Vec<u8>>)
    ensures
        crate::text::byte_views(copy@) == crate::text::byte_views(list@),
{
    let mut copy: Vec<Vec<u8>> = Vec::new();
    add_all(&mut copy, list);
    proof {
        assert(crate::text::byte_views(copy@) =~= crate::text::byte_views(list@));
    }
    copy
}

fn add_all(args: &mut Vec<Vec<u8>>, more: &Vec<Vec<u8>>)
    ensures
        crate::text::byte_views(final(args)@) == crate::text::byte_views(old(args)@)
            + crate::text::byte_views(more@),
{
    let ghost start = args@;
    let mut i: usize = 0;
    while i < more.len()
        invariant
            0 <= i <= more@.len(),
            args@.len() == start.len() + i,
            forall|j: int| 0 <= j < start.len() ==> #[trigger] args@[j]@ == start[j]@,
            forall|j: int|
                start.len() <= j < args@.len() ==> #[trigger] args@[j]@ == more@[j
                    - start.len()]@,
        decreases more@.len() - i,
    {
        let mut bytes: Vec<u8> = Vec::new();
        bytes.extend_from_slice(more[i].as_slice());
        proof {
            assert(bytes@ =~= more@[i as int]@);
        }
        args.push(bytes);
        i += 1;
    }
    proof {
        assert(crate::text::byte_views(args@) =~= crate::text::byte_views(start)
            + crate::text::byte_views(more@));
    }
}

/// What `git rev-parse` is asked about revisions: which commits they name.
pub open spec fn rev_query(revs: Seq<Seq<u8>>) -> Seq<Seq<u8>> {
    seq![coded("rev-parse"@), coded("--revs-only"@)] + revs + seq![coded("--"@)]
}

pub fn rev_args(revs: &Vec<Vec<u8>>) -> (args: Vec<Vec<u8>>)
    ensures
        crate::text::byte_views(args@) == rev_query(crate::text::byte_views(revs@)),
{
    let mut args: Vec<Vec<u8>> = Vec::new();
    args.push(bytes_of("rev-parse"));
    args.push(bytes_of("--revs-only"));
    let ghost first = crate::text::byte_views(args@);
    add_all(&mut args, revs);
    let ghost second = crate::text::byte_views(args@);
    args.push(bytes_of("--"));
    proof {
        assert(first =~= seq![coded("rev-parse"@), coded("--revs-only"@)]);
        assert(crate::text::byte_views(args@) =~= second.push(coded("--"@)));
        assert(crate::text::byte_views(args@) =~= rev_query(crate::text::byte_views(revs@)));
    }
    args
}

/// What `git diff` is asked: every file that differs between the two sides, with the
/// blob on each side.
pub open spec fn diff_query(revs: Seq<Seq<u8>>) -> Seq<Seq<u8>> {
    seq![
        coded("diff"@),
        coded("--raw"@),
        coded("-z"@),
        coded("-M"@),
        coded("--abbrev=40"@),
    ] + revs + seq![coded("--"@)]
}

/// What is compared against with no revision given: `HEAD`, except in a repository
/// whose first commit has not been made, where the empty tree is what makes every
/// file an addition. Its id is what git printed for it.
pub fn default_base(head_known: bool, empty: &[u8]) -> (base: Vec<u8>)
    ensures
        base@ == (if head_known {
            coded("HEAD"@)
        } else {
            coded(crate::text::trimmed(crate::text::lossy(empty@)))
        }),
{
    if head_known {
        return bytes_of("HEAD");
    }
    let text = decode_lossy(empty);
    bytes_of(trim(text.as_str()).as_str())
}

/// A path in a directory. An absolute path is one already.
pub open spec fn in_dir(dir: Seq<char>, path: Seq<char>) -> Seq<char> {
    if path.len() > 0 && path[0] == '/' {
        path
    } else if dir.len() > 0 && dir.last() == '/' {
        dir + path
    } else {
        dir + "/"@ + path
    }
}

/// A path as one below a directory, where it is.
pub open spec fn below(root: Seq<char>, path: Seq<char>) -> Option<Seq<char>> {
    let start = if root.len() > 0 && root.last() == '/' {
        root
    } else {
        root + "/"@
    };
    if crate::text::starts(path, start) {
        Some(path.skip(start.len() as int))
    } else {
        None
    }
}

impl Repo {
    /// The working tree of a repository against its last commit.
    pub fn at(root: String) -> (repo: Self)
        ensures
            repo.root == root,
            repo.revs@.len() == 0,
            crate::text::byte_views(repo.diff_revs@) == seq![coded("HEAD"@)],
            repo.worktree,
    {
        let mut diff_revs: Vec<Vec<u8>> = Vec::new();
        diff_revs.push(bytes_of("HEAD"));
        proof {
            assert(crate::text::byte_views(diff_revs@) =~= seq![coded("HEAD"@)]);
        }
        Repo { root, revs: Vec::new(), diff_revs, worktree: true }
    }

    /// The repository that `git rev-parse --show-toplevel` found from a directory, or
    /// that it found none. A root that is not valid UTF-8 is none that can be worked
    /// in.
    pub fn discover(start: &[u8], answer: &Answer) -> (found: Result<Repo, String>)
        ensures
            match found {
                Ok(repo) => {
                    &&& answer.success
                    &&& vstd::utf8::valid_utf8(answer.stdout@)
                    &&& repo.root@ == crate::text::trimmed(
                        vstd::utf8::decode_utf8(answer.stdout@),
                    )
                    &&& repo.revs@.len() == 0
                    &&& repo.diff_revs@.len() == 0
                    &&& repo.worktree
                },
                Err(message) => {
                    &&& !answer.success || !vstd::utf8::valid_utf8(answer.stdout@)
                    &&& message@ == (if answer.success {
                        crate::text::utf8_refusal(answer.stdout@)
                    } else {
                        "not a git repository: "@ + crate::text::lossy(start@)
                    })
                },
            },
    {
        if !answer.success {
            let mut message = owned("not a git repository: ");
            message.push_str(decode_lossy(start).as_str());
            return Err(message);
        }
        let mut bytes: Vec<u8> = Vec::new();
        bytes.extend_from_slice(answer.stdout.as_slice());
        proof {
            assert(bytes@ =~= answer.stdout@);
        }
        match decode_strict(bytes) {
            Ok(text) => Ok(
                Repo {
                    root: trim(text.as_str()),
                    revs: Vec::new(),
                    diff_revs: Vec::new(),
                    worktree: true,
                },
            ),
            Err(message) => Err(message),
        }
    }

    /// The revisions to compare, given what git said of them. Which side the working
    /// tree is on is git's own rule, not a reading of the syntax: it is a side when
    /// the arguments name exactly one commit, and one commit is what one line is
    /// printed for. A revision that cannot be resolved is refused in git's own words.
    pub fn with_revs(self, revs: Vec<Vec<u8>>, answer: &Answer, base: Vec<u8>) -> (compared: Result<
        Repo,
        String,
    >)
        ensures
            match compared {
                Ok(repo) => {
                    &&& answer.success
                    &&& repo.root == self.root
                    &&& repo.revs == revs
                    &&& repo.worktree == (line_count(crate::text::lossy(answer.stdout@)) <= 1)
                    &&& crate::text::byte_views(repo.diff_revs@) == (if revs@.len() == 0 {
                        seq![base@]
                    } else {
                        crate::text::byte_views(revs@)
                    })
                },
                Err(message) => !answer.success && message@ == refusal_of(
                    crate::text::lossy(answer.stderr@),
                ),
            },
    {
        if !answer.success {
            return Err(refusal(answer.stderr.as_slice()));
        }
        let worktree = names_one_commit(answer.stdout.as_slice());
        let diff_revs = if revs.len() == 0 {
            let mut only: Vec<Vec<u8>> = Vec::new();
            only.push(base);
            proof {
                assert(crate::text::byte_views(only@) =~= seq![base@]);
            }
            only
        } else {
            same_bytes_list(&revs)
        };
        Ok(Repo { root: self.root, revs, diff_revs, worktree })
    }

    pub fn worktree(&self) -> (worktree: bool)
        ensures
            worktree == self.worktree,
    {
        self.worktree
    }

    pub fn root(&self) -> (root: &str)
        ensures
            root@ == self.root@,
    {
        self.root.as_str()
    }

    /// What the user typed, as text.
    pub open spec fn typed(self) -> Seq<Seq<char>> {
        crate::text::byte_views(self.revs@).map_values(|rev: Seq<u8>| crate::text::lossy(rev))
    }

    /// What the two panes are looking at, for their titles.
    pub fn labels(&self) -> (both: (String, String))
        ensures
            (both.0@, both.1@) == labels_of(self.typed(), self.worktree),
    {
        let mut typed: Vec<String> = Vec::new();
        let mut i: usize = 0;
        while i < self.revs.len()
            invariant
                0 <= i <= self.revs@.len(),
                typed@.len() == i,
                forall|j: int|
                    0 <= j < i ==> (#[trigger] typed@[j])@ == crate::text::lossy(self.revs@[j]@),
            decreases self.revs@.len() - i,
        {
            typed.push(decode_lossy(self.revs[i].as_slice()));
            i += 1;
        }
        proof {
            assert(crate::text::views(typed@) =~= self.typed());
        }
        labels(&typed, self.worktree)
    }

    /// What git is asked for the list of changed files.
    pub fn diff_args(&self) -> (args: Vec<Vec<u8>>)
        ensures
            crate::text::byte_views(args@) == diff_query(
                crate::text::byte_views(self.diff_revs@),
            ),
    {
        let mut args: Vec<Vec<u8>> = Vec::new();
        args.push(bytes_of("diff"));
        args.push(bytes_of("--raw"));
        args.push(bytes_of("-z"));
        args.push(bytes_of("-M"));
        args.push(bytes_of("--abbrev=40"));
        let ghost first = crate::text::byte_views(args@);
        add_all(&mut args, &self.diff_revs);
        let ghost second = crate::text::byte_views(args@);
        args.push(bytes_of("--"));
        proof {
            assert(first =~= seq![
                coded("diff"@),
                coded("--raw"@),
                coded("-z"@),
                coded("-M"@),
                coded("--abbrev=40"@),
            ]);
            assert(crate::text::byte_views(args@) =~= second.push(coded("--"@)));
            assert(crate::text::byte_views(args@) =~= diff_query(
                crate::text::byte_views(self.diff_revs@),
            ));
        }
        args
    }

    /// Every file that differs between the two sides, from what git printed. Untracked
    /// files only exist when the working tree is a side.
    pub fn changed_files(&self, raw: &[u8], others: &[u8]) -> (files: Vec<ChangedFile>)
        ensures
            file_views(files@) == in_order(
                in_order(raw_files(raw@)) + (if self.worktree {
                    untracked_files(others@)
                } else {
                    Seq::empty()
                }),
            ),
    {
        if self.worktree {
            changed_files(raw, Some(others))
        } else {
            changed_files(raw, None)
        }
    }

    /// A path as the command line gave it, as a repository-relative one: the form
    /// everything else holds paths in. `dir` is the nearest directory that exists, as
    /// the file system names it, and `rest` what of the path is below it: a file
    /// reported as deleted is not on disk to resolve, and neither is the directory
    /// that held it when the deletion took that too. None when the path is outside
    /// this repository.
    pub fn relative(&self, dir: &str, rest: &str) -> (path: Option<String>)
        ensures
            crate::document::opt_view(path) == below(self.root@, in_dir(dir@, rest@)),
    {
        let all = join_path(dir, rest);
        let start = if ends_in_slash(self.root.as_str()) {
            self.root.clone()
        } else {
            let mut start = self.root.clone();
            start.push_str("/");
            start
        };
        strip_start(all.as_str(), start.as_str())
    }

    /// Where a file of the repository is on the disk.
    pub fn abs(&self, path: &str) -> (all: String)
        ensures
            all@ == in_dir(self.root@, path@),
    {
        join_path(self.root.as_str(), path)
    }
}

fn ends_in_slash(text: &str) -> (found: bool)
    ensures
        found == (text@.len() > 0 && text@.last() == '/'),
{
    let chars = chars_of(text);
    chars.len() > 0 && chars[chars.len() - 1] == '/'
}

fn join_path(dir: &str, path: &str) -> (all: String)
    ensures
        all@ == in_dir(dir@, path@),
{
    let chars = chars_of(path);
    if chars.len() > 0 && chars[0] == '/' {
        return owned(path);
    }
    let mut all = owned(dir);
    if !ends_in_slash(dir) {
        all.push_str("/");
    }
    all.push_str(path);
    all
}

/// The name of the file that a write goes to first: a sibling, renamed over the target
/// once it is whole, so an interrupted save leaves either the old content or the new
/// one, never a truncated file.
pub fn temporary_name(name: &str) -> (sibling: String)
    ensures
        sibling@ == "."@ + name@ + ".difv-tmp"@,
{
    let mut sibling = owned(".");
    sibling.push_str(name);
    sibling.push_str(".difv-tmp");
    sibling
}

/// What the records say does not depend on where they stand.
proof fn files_from_moves(first: Seq<Seq<u8>>, rest: Seq<Seq<u8>>, i: int)
    requires
        0 <= i <= rest.len(),
    ensures
        files_from(first + rest, first.len() + i) == files_from(rest, i),
    decreases rest.len() - i,
{
    let all = first + rest;
    if i < rest.len() {
        assert(all[first.len() + i] == rest[i]);
        match head_of(rest[i]) {
            None => files_from_moves(first, rest, i + 1),
            Some(head) => {
                let renamed = head.letter == 'R' || head.letter == 'C';
                if i + 1 >= rest.len() || (renamed && i + 2 >= rest.len()) {
                } else if renamed {
                    assert(all[first.len() + i + 1] == rest[i + 1]);
                    assert(all[first.len() + i + 2] == rest[i + 2]);
                    files_from_moves(first, rest, i + 3);
                } else {
                    assert(all[first.len() + i + 1] == rest[i + 1]);
                    files_from_moves(first, rest, i + 2);
                }
            },
        }
    }
}

/// The records of a buffer that starts with one.
proof fn first_record(record: Seq<u8>, rest: Seq<u8>)
    requires
        record.len() > 0,
        !record.contains(0u8),
    ensures
        crate::text::nonempty(crate::text::pieces(record.push(0u8) + rest, 0u8)) == seq![record]
            + crate::text::nonempty(crate::text::pieces(rest, 0u8)),
{
    crate::text::pieces_part(record, rest, 0u8);
    crate::text::pieces_whole(record, 0u8);
    crate::text::nonempty_first(record, crate::text::pieces(rest, 0u8));
}

/// Five words with spaces between them.
pub open spec fn five_words(words: Seq<Seq<char>>) -> Seq<char> {
    words[0].push(' ') + (words[1].push(' ') + (words[2].push(' ') + (words[3].push(' ')
        + words[4])))
}

proof fn five_words_split(words: Seq<Seq<char>>)
    requires
        words.len() == 5,
        forall|i: int| 0 <= i < 5 ==> !(#[trigger] words[i]).contains(' '),
    ensures
        crate::text::pieces(five_words(words), ' ') == words,
{
    let d = words[4];
    let c = words[3].push(' ') + d;
    let b = words[2].push(' ') + c;
    let a = words[1].push(' ') + b;
    crate::text::pieces_whole(words[0], ' ');
    crate::text::pieces_whole(words[1], ' ');
    crate::text::pieces_whole(words[2], ' ');
    crate::text::pieces_whole(words[3], ' ');
    crate::text::pieces_whole(words[4], ' ');
    crate::text::pieces_part(words[3], d, ' ');
    crate::text::pieces_part(words[2], c, ' ');
    crate::text::pieces_part(words[1], b, ' ');
    crate::text::pieces_part(words[0], a, ' ');
    assert(crate::text::pieces(five_words(words), ' ') =~= words);
}

/// A record of git is one file, before those of what follows it: the colon, two modes,
/// two ids and a status with a score, then its path, or for a rename or a copy the path
/// it had and the one it has. Whatever the status, the first id is the blob of the
/// Before side and the second that of the Current side, and an id of zeroes is none.
pub proof fn a_record_is_a_file(
    head: Seq<u8>,
    words: Seq<Seq<char>>,
    paths: (Seq<u8>, Seq<u8>),
    rest: Seq<u8>,
)
    requires
        words.len() == 5,
        forall|i: int| 0 <= i < 5 ==> !(#[trigger] words[i]).contains(' '),
        words[4].len() > 0,
        crate::text::lossy(head) == five_words(words),
        !head.contains(0u8),
        paths.0.len() > 0,
        !paths.0.contains(0u8),
        paths.1.len() > 0,
        !paths.1.contains(0u8),
    ensures
        ({
            let moved = words[4][0] == 'R' || words[4][0] == 'C';
            let buf = (seq![58u8] + head).push(0u8) + (paths.0.push(0u8) + (if moved {
                paths.1.push(0u8) + rest
            } else {
                rest
            }));
            let file = raw_files(buf)[0];
            &&& raw_files(buf).len() == 1 + raw_files(rest).len()
            &&& raw_files(buf).skip(1) == raw_files(rest)
            &&& (forall|i: int| 0 <= i < words[2].len() ==> #[trigger] words[2][i] == '0')
                ==> file.old_blob is None
            &&& (exists|i: int| 0 <= i < words[2].len() && #[trigger] words[2][i] != '0')
                ==> file.old_blob == Some(words[2])
            &&& (forall|i: int| 0 <= i < words[3].len() ==> #[trigger] words[3][i] == '0')
                ==> file.new_blob is None
            &&& (exists|i: int| 0 <= i < words[3].len() && #[trigger] words[3][i] != '0')
                ==> file.new_blob == Some(words[3])
            &&& moved ==> file.old_path == Some(crate::text::lossy(paths.0)) && file.path
                == crate::text::lossy(paths.1) && file.status == Status::Renamed
            &&& !moved ==> file.old_path is None && file.path == crate::text::lossy(paths.0)
            &&& file.status == Status::Added <==> words[4][0] == 'A'
            &&& file.status == Status::Deleted <==> words[4][0] == 'D'
            &&& file.status == Status::Renamed <==> moved
        }),
{
    let moved = words[4][0] == 'R' || words[4][0] == 'C';
    let record = seq![58u8] + head;
    let tail = if moved {
        paths.1.push(0u8) + rest
    } else {
        rest
    };
    let buf = record.push(0u8) + (paths.0.push(0u8) + tail);
    assert(!record.contains(0u8)) by {
        if record.contains(0u8) {
            let k = choose|k: int| 0 <= k < record.len() && record[k] == 0u8;
            assert(head[k - 1] == 0u8);
        }
    }
    let behind = crate::text::nonempty(crate::text::pieces(rest, 0u8));
    first_record(record, paths.0.push(0u8) + tail);
    first_record(paths.0, tail);
    if moved {
        first_record(paths.1, rest);
    }
    let first = if moved {
        seq![record, paths.0, paths.1]
    } else {
        seq![record, paths.0]
    };
    let all = crate::text::nonempty(crate::text::pieces(buf, 0u8));
    assert(all =~= first + behind);
    five_words_split(words);
    assert(record.skip(1) =~= head);
    assert(head_of(all[0]) == Some(
        (Head { old_id: words[2], new_id: words[3], letter: words[4][0] }),
    ));
    files_from_moves(first, behind, 0);
    let files = raw_files(buf);
    assert(files.skip(1) =~= raw_files(rest));
}

/// Where the listing of a diff is one record it is one file, which is the record's.
pub proof fn a_listing_of_one_is_that_file(buf: Seq<u8>)
    requires
        raw_files(buf).len() == 1,
    ensures
        in_order(raw_files(buf)) == raw_files(buf),
{
    let files = raw_files(buf);
    assert(files.drop_last() =~= Seq::<FileView>::empty());
    assert(in_order(files.drop_last()) =~= Seq::<FileView>::empty());
    assert(in_order(files) =~= files);
}

/// A path that git does not know about yet is one file that was added, before those of
/// the paths that follow it.
pub proof fn an_unknown_path_is_an_added_file(path: Seq<u8>, rest: Seq<u8>)
    requires
        path.len() > 0,
        !path.contains(0u8),
    ensures
        ({
            let files = untracked_files(path.push(0u8) + rest);
            &&& files.len() == 1 + untracked_files(rest).len()
            &&& files.skip(1) == untracked_files(rest)
            &&& files[0].path == crate::text::lossy(path)
            &&& files[0].status == Status::Added
            &&& files[0].old_path is None && files[0].old_blob is None && files[0].new_blob is None
        }),
{
    first_record(path, rest);
    assert(untracked_files(path.push(0u8) + rest).skip(1) =~= untracked_files(rest));
}

/// A path of the repository that is put below its root and taken off it again is the
/// same path, and so is a place below the root that is named by its path and put back.
pub proof fn a_path_comes_back(root: Seq<char>, path: Seq<char>)
    requires
        path.len() > 0 ==> path[0] != '/',
    ensures
        below(root, in_dir(root, path)) == Some(path),
        forall|all: Seq<char>|
            #![trigger below(root, all)]
            below(root, all) == Some(path) ==> in_dir(root, path) == all,
{
    reveal_strlit("/");
    let start = if root.len() > 0 && root.last() == '/' {
        root
    } else {
        root + "/"@
    };
    let all = start + path;
    assert(in_dir(root, path) =~= all);
    assert(all.take(start.len() as int) =~= start);
    assert(all.skip(start.len() as int) =~= path);
    assert forall|all: Seq<char>| #![trigger below(root, all)] below(root, all) == Some(
        path,
    ) implies in_dir(root, path) == all by {
        assert(all =~= start + path);
    }
}

/// A path that does not begin with the root, or that only begins with the same letters,
/// is none of the repository.
pub proof fn a_path_outside_is_refused(root: Seq<char>, path: Seq<char>)
    requires
        root.len() > 0,
        root.last() != '/',
        path.len() <= root.len() || path.take(root.len() as int) != root || path[root.len() as int]
            != '/',
    ensures
        below(root, path) is None,
{
    reveal_strlit("/");
    let start = root + "/"@;
    if crate::text::starts(path, start) {
        assert(path.take(root.len() as int) =~= start.take(root.len() as int));
        assert(start.take(root.len() as int) =~= root);
        assert(path[root.len() as int] == path.take(start.len() as int)[root.len() as int]);
    }
}

/// One end of a range as it is typed: without two dots in a row or a dot at either end.
pub open spec fn is_end(text: Seq<char>) -> bool {
    crate::commits::is_name(text) && (text.len() > 0 ==> text[0] != '.')
}

/// What an end of a range is called: by what was typed, or `HEAD` where nothing was.
pub open spec fn called(end: Seq<char>, name: Seq<char>) -> bool {
    if end.len() > 0 {
        name == end
    } else {
        name == seq!['H', 'E', 'A', 'D']
    }
}

/// A range of two or three dots is titled by its ends, the one before the dots on the
/// Before side and the one behind them on the Current side.
pub proof fn a_range_is_titled_by_its_ends(base: Seq<char>, tip: Seq<char>, three: bool)
    requires
        is_end(base),
        is_end(tip),
    ensures
        ({
            let dots = if three {
                seq!['.', '.', '.']
            } else {
                seq!['.', '.']
            };
            let titles = labels_of(seq![base + dots + tip], false);
            called(base, titles.0) && called(tip, titles.1)
        }),
{
    reveal_strlit("HEAD");
    reveal_strlit("..");
    reveal_strlit("...");
    let dots = if three {
        seq!['.', '.', '.']
    } else {
        seq!['.', '.']
    };
    assert("..."@ =~= seq!['.', '.', '.']);
    assert(".."@ =~= seq!['.', '.']);
    assert("HEAD"@ =~= seq!['H', 'E', 'A', 'D']);
    let text = base + dots + tip;
    let at = base.len() as int;
    let n = dots.len() as int;
    assert(forall|i: int| 0 <= i < tip.len() ==> #[trigger] text[at + n + i] == tip[i]);
    assert(forall|i: int| 0 <= i < base.len() ==> #[trigger] text[i] == base[i]);
    assert(text.subrange(at, at + n) =~= dots);
    assert(text.take(at) =~= base);
    assert(text.skip(at + n) =~= tip);
    if three {
        assert forall|j: int| 0 <= j < at implies #[trigger] text.subrange(j, j + 3)
            != "..."@ by {
            let part = text.subrange(j, j + 3);
            assert(part[0] == base[j]);
            assert(part[1] == text[j + 1]);
            if j + 1 < at {
                assert(text[j + 1] == base[j + 1]);
            }
        }
        crate::commits::found_first(text, "..."@, 0, at);
    } else {
        assert forall|j: int| 0 <= j && j + 3 <= text.len() implies #[trigger] text.subrange(
            j,
            j + 3,
        ) != "..."@ by {
            let part = text.subrange(j, j + 3);
            assert(part[0] == text[j] && part[1] == text[j + 1] && part[2] == text[j + 2]);
            if j + 1 < at {
                assert(text[j] == base[j] && text[j + 1] == base[j + 1]);
            } else if j < at {
                assert(base[j] == base.last());
            } else if j == at {
                assert(text[j + 2] == tip[0]);
            } else if j == at + 1 {
                assert(text[at + n + 0] == tip[0]);
            } else {
                assert(text[at + n + (j - at - n)] == tip[j - at - n]);
                assert(text[at + n + (j + 1 - at - n)] == tip[j + 1 - at - n]);
            }
        }
        crate::commits::found_nowhere(text, "..."@, 0);
        assert forall|j: int| 0 <= j < at implies #[trigger] text.subrange(j, j + 2)
            != ".."@ by {
            let part = text.subrange(j, j + 2);
            assert(part[0] == base[j]);
            assert(part[1] == text[j + 1]);
            if j + 1 < at {
                assert(text[j + 1] == base[j + 1]);
            }
        }
        crate::commits::found_first(text, ".."@, 0, at);
    }
    assert(seq![text][0] == text);
}

/// One commit is titled by the name that was typed and compared with the working tree;
/// with `^!` behind it, it is compared with its parent.
pub proof fn a_commit_is_titled_by_its_name(rev: Seq<char>, worktree: bool)
    requires
        crate::commits::is_name(rev),
    ensures
        ({
            let whole = rev.len() >= 2 && rev[rev.len() - 2] == '^' && rev.last() == '!';
            let titles = labels_of(seq![rev], worktree);
            &&& !whole ==> titles == (rev, "Working Tree"@)
            &&& whole ==> titles.0 == rev.drop_last() && (!worktree ==> titles.1 == rev.take(
                rev.len() - 2,
            ))
            &&& worktree ==> titles.1 == "Working Tree"@
        }),
{
    reveal_strlit("..");
    reveal_strlit("...");
    reveal_strlit("^!");
    reveal_strlit("^");
    assert forall|j: int| 0 <= j && j + 3 <= rev.len() implies #[trigger] rev.subrange(j, j + 3)
        != "..."@ by {
        let part = rev.subrange(j, j + 3);
        assert(part[0] == rev[j] && part[1] == rev[j + 1]);
    }
    assert forall|j: int| 0 <= j && j + 2 <= rev.len() implies #[trigger] rev.subrange(j, j + 2)
        != ".."@ by {
        let part = rev.subrange(j, j + 2);
        assert(part[0] == rev[j] && part[1] == rev[j + 1]);
    }
    crate::commits::found_nowhere(rev, "..."@, 0);
    crate::commits::found_nowhere(rev, ".."@, 0);
    assert(seq![rev][0] == rev);
    if rev.len() >= 2 {
        let end = rev.skip(rev.len() - 2);
        assert(end[0] == rev[rev.len() - 2] && end[1] == rev.last());
        if rev[rev.len() - 2] == '^' && rev.last() == '!' {
            assert(end =~= "^!"@);
            assert(rev.take(rev.len() - 2) + "^"@ =~= rev.drop_last());
        } else {
            assert(end != "^!"@);
        }
    }
}

/// Two revisions are titled by their names, the first on the Before side; none is the
/// last commit and the working tree.
pub proof fn two_revisions_are_titled_in_order(a: Seq<char>, b: Seq<char>)
    ensures
        labels_of(seq![a, b], false) == (a, b),
        labels_of(Seq::empty(), true) == ("HEAD"@, "Working Tree"@),
{
}

/// Only bytes that a save can give back are text: without a zero near their start, and
/// the encoding of the text they are shown as. Everything else is refused.
pub proof fn only_what_can_be_saved_is_edited(content: FileContent, bytes: Seq<u8>)
    requires
        content.decodes(bytes),
    ensures
        content is Text ==> coded(content->Text_0.body@) == bytes,
        content is Text ==> forall|i: int| 0 <= i < bytes.len() && i < 8000 ==> #[trigger] bytes[i] != 0,
        content is Text || content is Undecodable,
        content is Undecodable ==> !vstd::utf8::valid_utf8(bytes) || exists|i: int|
            0 <= i < bytes.len() && i < 8000 && #[trigger] bytes[i] == 0,
{
    if content is Text {
        vstd::utf8::decode_utf8_encode_utf8(bytes);
    }
}

/// A name that is no directory's own or its parent's.
pub open spec fn is_plain(name: Seq<char>) -> bool {
    name.len() > 0 && name != seq!['.'] && name != seq!['.', '.']
}

/// One name before another, character by character, a shorter one before what it begins.
pub open spec fn name_before(a: Seq<char>, b: Seq<char>) -> bool {
    exists|k: int|
        #![trigger a.take(k)]
        0 <= k <= a.len() && k < b.len() && a.take(k) == b.take(k) && (k == a.len() || a[k] < b[k])
}

proof fn key_begins(parts: Seq<Seq<char>>, j: int)
    requires
        0 <= j < parts.len(),
    ensures
        ({
            let first = components_key(parts.take(j)) + component_key(parts[j], j == 0);
            let all = components_key(parts);
            all.len() >= first.len() && all.take(first.len() as int) == first
        }),
    decreases parts.len(),
{
    let first = components_key(parts.take(j)) + component_key(parts[j], j == 0);
    let init = parts.drop_last();
    if j + 1 == parts.len() {
        assert(parts.take(j) =~= init);
        assert(components_key(parts) =~= first);
        assert(first.take(first.len() as int) =~= first);
    } else {
        key_begins(init, j);
        assert(init.take(j) =~= parts.take(j));
        let rest = component_key(parts.last(), parts.len() == 1);
        assert(components_key(parts) =~= components_key(init) + rest);
        assert((components_key(init) + rest).take(first.len() as int) =~= components_key(init).take(
            first.len() as int,
        ));
    }
}

proof fn before_at(a: Seq<int>, b: Seq<int>, k: int)
    requires
        0 <= k < a.len(),
        k < b.len(),
        forall|i: int| 0 <= i < k ==> a[i] == b[i],
        a[k] < b[k],
    ensures
        before(a, b),
    decreases k,
{
    if k > 0 {
        assert(a[0] == b[0]);
        before_at(a.skip(1), b.skip(1), k - 1);
    }
}

proof fn rooted(path: Seq<char>)
    ensures
        ({
            let parts = crate::text::pieces(path, '/');
            (path.len() > 0 && path[0] == '/') <==> (parts.len() > 1 && parts[0].len() == 0)
        }),
    decreases path.len(),
{
    crate::text::pieces_nonempty(path, '/');
    if path.len() > 0 {
        let init = path.drop_last();
        rooted(init);
        crate::text::pieces_nonempty(init, '/');
        if init.len() == 0 {
            assert(init =~= Seq::<char>::empty());
            assert(crate::text::pieces(init, '/') =~= seq![Seq::<char>::empty()]);
        } else {
            assert(path[0] == init[0]);
            only_empty_is_one_empty(init);
        }
    }
}

proof fn only_empty_is_one_empty(path: Seq<char>)
    requires
        path.len() > 0,
    ensures
        crate::text::pieces(path, '/').len() > 1 || crate::text::pieces(path, '/')[0].len() > 0,
    decreases path.len(),
{
    let init = path.drop_last();
    crate::text::pieces_nonempty(init, '/');
}

proof fn counts_up(ch: char)
    ensures
        ch as int >= 0,
{
}

/// Paths are listed by their parts: the first part in which two of them differ decides,
/// by the order of its characters, whatever comes behind it.
pub proof fn the_first_part_that_differs_decides(a: Seq<char>, b: Seq<char>, j: int)
    requires
        ({
            let pa = crate::text::pieces(a, '/');
            let pb = crate::text::pieces(b, '/');
            &&& 0 <= j < pa.len()
            &&& j < pb.len()
            &&& pa.take(j) == pb.take(j)
            &&& is_plain(pa[j])
            &&& is_plain(pb[j])
            &&& name_before(pa[j], pb[j])
        }),
    ensures
        before(path_key(a), path_key(b)),
        !before(path_key(b), path_key(a)),
{
    reveal_strlit(".");
    reveal_strlit("..");
    assert("."@ =~= seq!['.']);
    assert(".."@ =~= seq!['.', '.']);
    let pa = crate::text::pieces(a, '/');
    let pb = crate::text::pieces(b, '/');
    rooted(a);
    rooted(b);
    if j > 0 {
        assert(pa.take(j)[0] == pa[0]);
        assert(pb.take(j)[0] == pb[0]);
    }
    let root: Seq<int> = if a.len() > 0 && a[0] == '/' {
        seq![1int]
    } else {
        Seq::empty()
    };
    let common = root + components_key(pa.take(j));
    let ka = component_key(pa[j], j == 0);
    let kb = component_key(pb[j], j == 0);
    key_begins(pa, j);
    key_begins(pb, j);
    let m = common.len() as int;
    let all_a = path_key(a);
    let all_b = path_key(b);
    assert(all_a =~= root + components_key(pa));
    assert(all_b =~= root + components_key(pb));
    let first_a = components_key(pa.take(j)) + ka;
    let first_b = components_key(pa.take(j)) + kb;
    assert forall|i: int| 0 <= i < m + ka.len() implies all_a[i] == #[trigger] (common + ka)[i] by {
        if i >= root.len() {
            assert(components_key(pa)[i - root.len()] == components_key(pa).take(
                first_a.len() as int,
            )[i - root.len()]);
        }
    }
    assert forall|i: int| 0 <= i < m + kb.len() implies all_b[i] == #[trigger] (common + kb)[i] by {
        if i >= root.len() {
            assert(components_key(pb)[i - root.len()] == components_key(pb).take(
                first_b.len() as int,
            )[i - root.len()]);
        }
    }
    let one = pa[j];
    let two = pb[j];
    let k = choose|k: int|
        #![trigger one.take(k)]
        0 <= k <= one.len() && k < two.len() && one.take(k) == two.take(k) && (k == one.len()
            || one[k] < two[k]);
    let na = pa[j].map_values(|ch: char| ch as int + 1);
    let nb = pb[j].map_values(|ch: char| ch as int + 1);
    assert(ka == seq![4int] + na + seq![0int]);
    assert(kb == seq![4int] + nb + seq![0int]);
    assert(kb[k + 1] == nb[k]);
    assert(nb[k] == two[k] as int + 1);
    if k < one.len() {
        assert(ka[k + 1] == na[k]);
        assert(na[k] == one[k] as int + 1);
        assert(one[k] < two[k]);
        assert(ka[k + 1] < kb[k + 1]);
    } else {
        assert(ka[k + 1] == 0);
        counts_up(two[k]);
        assert(ka[k + 1] < kb[k + 1]);
    }
    assert forall|i: int| 0 <= i < k + 1 implies ka[i] == kb[i] by {
        if i > 0 {
            assert(ka[i] == na[i - 1] && kb[i] == nb[i - 1]);
            assert(pa[j].take(k)[i - 1] == pa[j][i - 1]);
            assert(pb[j].take(k)[i - 1] == pb[j][i - 1]);
        }
    }
    assert(all_a[m + k + 1] == (common + ka)[m + k + 1]);
    assert(all_b[m + k + 1] == (common + kb)[m + k + 1]);
    assert forall|i: int| 0 <= i < m + k + 1 implies all_a[i] == all_b[i] by {
        assert(all_a[i] == (common + ka)[i]);
        assert(all_b[i] == (common + kb)[i]);
    }
    before_at(all_a, all_b, m + k + 1);
    before_total(all_a, all_b);
}

/// A text has as many lines as it has line feeds, and one more where something stands
/// behind the last of them.
pub proof fn lines_are_counted(text: Seq<char>)
    ensures
        line_count(text) == text.filter(|ch: char| ch == '\n').len() + (if text.len() > 0
            && text.last() != '\n' {
            1int
        } else {
            0int
        }),
{
    crate::text::pieces_are_counted(text, '\n');
    if text.len() > 0 {
        crate::text::pieces_nonempty(text.drop_last(), '\n');
    }
}

/// A file that ended with a line ending ends with one again, and one that did not ends
/// with its last line.
pub proof fn a_file_ends_as_it_did(
    lines: Seq<Seq<char>>,
    ends: Seq<Seq<char>>,
    eol: Eol,
    trailing: bool,
)
    requires
        lines.len() > 0,
        lines.len() == ends.len(),
    ensures
        ({
            let body = body_of(lines, ends, eol, trailing);
            let last = lines.last();
            &&& trailing ==> body.len() > 0 && body.last() == '\n'
            &&& !trailing && (ends.last().len() == 0 || ends.last().last() == '\n') ==> body.len()
                >= last.len() && body.skip(body.len() - last.len()) == last
        }),
{
    reveal_strlit("\n");
    reveal_strlit("\r\n");
    let closing = finished(ends, eol, trailing);
    let body = body_of(lines, ends, eol, trailing);
    let last = lines.last();
    let start = woven(lines.drop_last(), closing.drop_last());
    assert(body == start + last + closing.last());
    if trailing {
        assert(closing.last().len() > 0 && closing.last().last() == '\n');
        assert(body.last() == closing.last().last());
    } else if ends.last().len() == 0 || ends.last().last() == '\n' {
        assert(closing.last().len() == 0);
        assert(body =~= start + last);
        assert(body.skip(body.len() - last.len()) =~= last);
    }
}

/// What does not begin as a record does is passed over, and a record that is cut off
/// before its path is no file.
pub proof fn what_is_no_record_is_passed_over(other: Seq<u8>, rest: Seq<u8>)
    requires
        other.len() > 0,
        !other.contains(0u8),
    ensures
        other[0] != 58 ==> raw_files(other.push(0u8) + rest) == raw_files(rest),
        raw_files(other.push(0u8)).len() == 0,
{
    first_record(other, rest);
    let behind = crate::text::nonempty(crate::text::pieces(rest, 0u8));
    let all = crate::text::nonempty(crate::text::pieces(other.push(0u8) + rest, 0u8));
    let first = seq![other];
    assert(all =~= first + behind);
    files_from_moves(first, behind, 0);
    if other[0] != 58 {
        assert(head_of(all[0]) is None);
        assert(files_from(all, 0) == files_from(all, 1));
    }
    let none = Seq::<u8>::empty();
    first_record(other, none);
    assert(other.push(0u8) + none =~= other.push(0u8));
    let only = crate::text::nonempty(crate::text::pieces(other.push(0u8), 0u8));
    assert(crate::text::pieces(none, 0u8) =~= seq![none]);
    assert(seq![none].drop_last() =~= Seq::<Seq<u8>>::empty());
    assert(crate::text::nonempty(seq![none].drop_last()) =~= Seq::<Seq<u8>>::empty());
    assert(crate::text::nonempty(seq![none]) =~= Seq::<Seq<u8>>::empty());
    assert(only =~= seq![other]);
    assert(files_from(only, 1) =~= Seq::<FileView>::empty());
}

/// A path that is absolute is one in every directory, and stands below a directory only
/// where it begins with it.
pub proof fn an_absolute_path_is_one_already(dir: Seq<char>, path: Seq<char>)
    requires
        path.len() > 0,
        path[0] == '/',
    ensures
        in_dir(dir, path) == path,
        below(dir, path) is Some ==> path.len() > dir.len() || (dir.last() == '/' && path == dir),
{
    reveal_strlit("/");
    if below(dir, path) is Some && path.len() <= dir.len() {
        assert(path =~= dir);
    }
}

/// What git says is passed on without the word it begins with, and anything else as it
/// is. What is said has no white space around it.
pub proof fn a_refusal_is_in_gits_own_words(said: Seq<char>)
    ensures
        ({
            let fatal = seq!['f', 'a', 't', 'a', 'l', ':', ' '];
            let bare = said.len() > 0 && !crate::text::white(said[0]) && !crate::text::white(
                said.last(),
            );
            &&& bare && !crate::text::white('f') ==> refusal_of(fatal + said) == said
            &&& bare && (said.len() < 7 || said.take(7) != fatal) ==> refusal_of(said) == said
        }),
{
    reveal_strlit("fatal: ");
    let fatal = seq!['f', 'a', 't', 'a', 'l', ':', ' '];
    assert("fatal: "@ =~= fatal);
    let all = fatal + said;
    if said.len() > 0 && !crate::text::white(said[0]) && !crate::text::white(said.last()) {
        assert(crate::text::trimmed(said) == said);
        if !crate::text::white('f') {
            assert(all.last() == said.last());
            assert(all[0] == 'f');
            assert(crate::text::trimmed(all) == all);
            assert(all.take(7) =~= fatal);
            assert(all.skip(7) =~= said);
        }
    }
}

proof fn no_line_feeds(text: Seq<char>, returned: bool)
    requires
        !text.contains('\n'),
    ensures
        crate::config::line_feeds(text, returned) == 0,
    decreases text.len(),
{
    if text.len() > 0 {
        let init = text.drop_last();
        assert(text.contains(text.last()));
        assert(!init.contains('\n')) by {
            if init.contains('\n') {
                let k = choose|k: int| 0 <= k < init.len() && init[k] == '\n';
                assert(text[k] == '\n');
            }
        }
        no_line_feeds(init, returned);
    }
}

/// A line ending that is written is found again as the one it is, and is one line feed,
/// with a carriage return before it in one of the two.
pub proof fn a_line_ending_is_found_as_itself(line: Seq<char>, eol: Eol)
    requires
        !line.contains('\n'),
        line.len() > 0 ==> line.last() != '\r',
    ensures
        main_eol(line + eol.text()) == Some(eol),
        eol.text().last() == '\n',
        eol.text().len() == (if eol == Eol::Crlf {
            2int
        } else {
            1int
        }),
{
    reveal_strlit("\n");
    reveal_strlit("\r\n");
    let text = line + eol.text();
    assert(text.last() == '\n');
    let init = text.drop_last();
    if eol == Eol::Crlf {
        assert(init =~= line.push('\r'));
        assert(init.last() == '\r');
    } else {
        assert(init =~= line);
    }
    assert(!init.contains('\n')) by {
        if init.contains('\n') {
            let k = choose|k: int| 0 <= k < init.len() && init[k] == '\n';
            if k < line.len() {
                assert(line[k] == '\n');
            }
        }
    }
    no_line_feeds(init, true);
    no_line_feeds(init, false);
}

} // verus!

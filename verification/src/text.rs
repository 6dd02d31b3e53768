//! Strings as sequences of characters.
use vstd::prelude::*;

verus! {

/// The characters of each line.
pub open spec fn views(lines: Seq<String>) -> Seq<Seq<char>> {
    Seq::new(lines.len(), |i: int| lines[i]@)
}

/// `String::push` puts one character at the end.
pub assume_specification[ String::push ](text: &mut String, ch: char)
    ensures
        final(text)@ == old(text)@.push(ch),
;

/// `String::push_str` puts a whole string at the end.
pub assume_specification[ String::push_str ](text: &mut String, other: &str)
    ensures
        final(text)@ == old(text)@ + other@,
;

/// The characters of a string, in order.
pub fn chars_of(text: &str) -> (chars: Vec<char>)
    ensures
        chars@ == text@,
{
    let mut chars: Vec<char> = Vec::new();
    for ch in it: text.chars()
        invariant
            chars@ == text@.take(it.index()),
            it.seq() == text@,
    {
        chars.push(ch);
        proof {
            assert(text@.take(it.index() + 1) == text@.take(it.index()).push(ch));
        }
    }
    proof {
        assert(text@.take(text@.len() as int) == text@);
    }
    chars
}

/// Whether two strings hold the same characters.
pub fn same(a: &String, b: &String) -> (equal: bool)
    ensures
        equal == (a@ == b@),
{
    a.eq(b)
}

/// A string of the given characters.
pub fn from_chars(chars: &[char]) -> (text: String)
    ensures
        text@ == chars@,
{
    let mut text = String::new();
    let mut i: usize = 0;
    while i < chars.len()
        invariant
            0 <= i <= chars@.len(),
            text@ == chars@.take(i as int),
        decreases chars@.len() - i,
    {
        text.push(chars[i]);
        i += 1;
        proof {
            assert(chars@.take(i as int) == chars@.take(i - 1).push(chars@[i - 1]));
        }
    }
    proof {
        assert(chars@.take(chars@.len() as int) == chars@);
    }
    text
}

/// A copy of a string slice.
pub fn owned(text: &str) -> (copy: String)
    ensures
        copy@ == text@,
{
    text.to_owned()
}

/// Copies of the given lines.
pub fn copies(lines: &[String]) -> (all: Vec<String>)
    ensures
        all@ == lines@,
        views(all@) == views(lines@),
{
    let mut all: Vec<String> = Vec::new();
    let mut i: usize = 0;
    while i < lines.len()
        invariant
            0 <= i <= lines@.len(),
            all@ == lines@.take(i as int),
        decreases lines@.len() - i,
    {
        all.push(lines[i].clone());
        i += 1;
        proof {
            assert(lines@.take(i as int) == lines@.take(i - 1).push(lines@[i - 1]));
        }
    }
    proof {
        assert(lines@.take(lines@.len() as int) == lines@);
    }
    all
}

/// Whether two string slices hold the same characters.
pub fn same_str(a: &str, b: &str) -> (equal: bool)
    ensures
        equal == (a@ == b@),
{
    let a = chars_of(a);
    let b = chars_of(b);
    same_chars(a.as_slice(), b.as_slice())
}

/// Whether two lists of characters are the same.
pub fn same_chars(a: &[char], b: &[char]) -> (equal: bool)
    ensures
        equal == (a@ == b@),
{
    if a.len() != b.len() {
        return false;
    }
    let mut i: usize = 0;
    while i < a.len()
        invariant
            0 <= i <= a@.len(),
            a@.len() == b@.len(),
            forall|j: int| 0 <= j < i ==> a@[j] == b@[j],
        decreases a@.len() - i,
    {
        if a[i] != b[i] {
            assert(a@[i as int] != b@[i as int]);
            return false;
        }
        i += 1;
    }
    assert(a@ =~= b@);
    true
}

/// `n` copies of one character.
pub open spec fn run(ch: char, n: int) -> Seq<char> {
    Seq::new(
        if n < 0 {
            0
        } else {
            n as nat
        },
        |i: int| ch,
    )
}

/// `n` copies of one character.
pub fn repeated(ch: char, n: usize) -> (text: String)
    ensures
        text@ == run(ch, n as int),
{
    let mut text = String::new();
    let mut i: usize = 0;
    while i < n
        invariant
            0 <= i <= n,
            text@ == run(ch, i as int),
        decreases n - i,
    {
        text.push(ch);
        i += 1;
        proof {
            assert(run(ch, i as int) == run(ch, i - 1).push(ch));
        }
    }
    text
}

/// A text set to the right of a field of `width` characters.
pub open spec fn right_set(text: Seq<char>, width: int) -> Seq<char> {
    run(' ', width - text.len()) + text
}

/// A text set to the left of a field of `width` characters.
pub open spec fn left_set(text: Seq<char>, width: int) -> Seq<char> {
    text + run(' ', width - text.len())
}

/// A text set to the right of a field of `width` characters.
pub fn pad_left(text: &str, width: usize) -> (padded: String)
    ensures
        padded@ == right_set(text@, width as int),
{
    let len: usize = chars_of(text).len();
    let mut padded = repeated(' ', width.saturating_sub(len));
    padded.push_str(text);
    padded
}

/// A text set to the left of a field of `width` characters.
pub fn pad_right(text: &str, width: usize) -> (padded: String)
    ensures
        padded@ == left_set(text@, width as int),
{
    let len: usize = chars_of(text).len();
    let mut padded = owned(text);
    padded.push_str(repeated(' ', width.saturating_sub(len)).as_str());
    padded
}

/// The character of one decimal digit.
pub open spec fn digit(d: int) -> char {
    if d == 0 {
        '0'
    } else if d == 1 {
        '1'
    } else if d == 2 {
        '2'
    } else if d == 3 {
        '3'
    } else if d == 4 {
        '4'
    } else if d == 5 {
        '5'
    } else if d == 6 {
        '6'
    } else if d == 7 {
        '7'
    } else if d == 8 {
        '8'
    } else {
        '9'
    }
}

/// A number in decimal, without leading zeros.
pub open spec fn decimal(n: int) -> Seq<char>
    decreases n,
{
    if n < 10 {
        seq![digit(n)]
    } else {
        decimal(n / 10).push(digit(n % 10))
    }
}

/// The smallest number with more than `k` digits.
pub open spec fn power_of_ten(k: nat) -> int
    decreases k,
{
    if k == 0 {
        1
    } else {
        10 * power_of_ten((k - 1) as nat)
    }
}

/// A number below a power of ten has no more digits than the power has zeros.
pub proof fn decimal_digits(n: int, k: nat)
    requires
        0 <= n < power_of_ten(k),
        k >= 1,
    ensures
        1 <= decimal(n).len() <= k,
    decreases k,
{
    if n >= 10 {
        assert(power_of_ten(1) == 10) by {
            reveal_with_fuel(power_of_ten, 2);
        }
        decimal_digits(n / 10, (k - 1) as nat);
    }
}

fn digit_char(d: u64) -> (ch: char)
    requires
        d < 10,
    ensures
        ch == digit(d as int),
{
    if d == 0 {
        '0'
    } else if d == 1 {
        '1'
    } else if d == 2 {
        '2'
    } else if d == 3 {
        '3'
    } else if d == 4 {
        '4'
    } else if d == 5 {
        '5'
    } else if d == 6 {
        '6'
    } else if d == 7 {
        '7'
    } else if d == 8 {
        '8'
    } else {
        '9'
    }
}

/// A number in decimal.
pub fn number(n: u64) -> (text: String)
    ensures
        text@ == decimal(n as int),
    decreases n,
{
    if n < 10 {
        let mut text = String::new();
        text.push(digit_char(n));
        text
    } else {
        let mut text = number(n / 10);
        text.push(digit_char(n % 10));
        text
    }
}

/// The first `n` characters of a text, or all of it.
pub open spec fn cut_to(text: Seq<char>, n: int) -> Seq<char> {
    if text.len() <= n {
        text
    } else {
        text.take(n)
    }
}

/// The first `n` characters of a text, or all of it.
pub fn first_chars(text: &str, n: usize) -> (part: String)
    ensures
        part@ == cut_to(text@, n as int),
{
    let chars = chars_of(text);
    let len: usize = if chars.len() <= n {
        chars.len()
    } else {
        n
    };
    let part = from_chars(vstd::slice::slice_subrange(chars.as_slice(), 0, len));
    proof {
        assert(text@.subrange(0, len as int) == cut_to(text@, n as int));
    }
    part
}

/// The characters that `char::is_whitespace` takes for white space.
pub uninterp spec fn white(ch: char) -> bool;

/// `char::is_whitespace`: the `White_Space` property of Unicode, which a space, a
/// tab and the line endings have and no other printable ASCII character has.
pub assume_specification[ char::is_whitespace ](ch: char) -> (found: bool)
    ensures
        found == white(ch),
        ch == ' ' || ch == '\t' || ch == '\n' || ch == '\r' ==> found,
        ('!' <= ch && ch <= '~') ==> !found,
;

/// A text without the white space at its start.
pub open spec fn trimmed_start(text: Seq<char>) -> Seq<char>
    decreases text.len(),
{
    if text.len() > 0 && white(text[0]) {
        trimmed_start(text.skip(1))
    } else {
        text
    }
}

/// A text without the white space at its end.
pub open spec fn trimmed_end(text: Seq<char>) -> Seq<char>
    decreases text.len(),
{
    if text.len() > 0 && white(text.last()) {
        trimmed_end(text.drop_last())
    } else {
        text
    }
}

/// A text without the white space around it.
pub open spec fn trimmed(text: Seq<char>) -> Seq<char> {
    trimmed_end(trimmed_start(text))
}

/// A text without the white space at its start.
pub fn trim_start(text: &str) -> (part: String)
    ensures
        part@ == trimmed_start(text@),
{
    let chars = chars_of(text);
    let mut from: usize = 0;
    proof {
        assert(text@.skip(0) == text@);
    }
    while from < chars.len() && chars[from].is_whitespace()
        invariant
            0 <= from <= chars@.len(),
            chars@ == text@,
            trimmed_start(text@.skip(from as int)) == trimmed_start(text@),
        decreases chars@.len() - from,
    {
        proof {
            assert(text@.skip(from as int).skip(1) == text@.skip(from + 1));
        }
        from += 1;
    }
    proof {
        assert(text@.subrange(from as int, text@.len() as int) == text@.skip(from as int));
    }
    from_chars(vstd::slice::slice_subrange(chars.as_slice(), from, chars.len()))
}

/// A text without the white space around it.
pub fn trim(text: &str) -> (part: String)
    ensures
        part@ == trimmed(text@),
{
    let chars = chars_of(text);
    let mut from: usize = 0;
    proof {
        assert(text@.skip(0) == text@);
    }
    while from < chars.len() && chars[from].is_whitespace()
        invariant
            0 <= from <= chars@.len(),
            chars@ == text@,
            trimmed_start(text@.skip(from as int)) == trimmed_start(text@),
        decreases chars@.len() - from,
    {
        proof {
            assert(text@.skip(from as int).skip(1) == text@.skip(from + 1));
        }
        from += 1;
    }
    let ghost rest = trimmed_start(text@);
    proof {
        assert(rest == text@.skip(from as int));
        assert(rest.take(rest.len() as int) == rest);
    }
    let mut to: usize = chars.len();
    while to > from && chars[to - 1].is_whitespace()
        invariant
            from <= to <= chars@.len(),
            chars@ == text@,
            rest == text@.skip(from as int),
            trimmed_end(rest.take(to - from)) == trimmed_end(rest),
        decreases to,
    {
        proof {
            assert(rest.take(to - from).drop_last() == rest.take(to - from - 1));
            assert(rest.take(to - from).last() == chars@[to - 1]);
        }
        to -= 1;
    }
    proof {
        assert(trimmed_end(rest) == rest.take(to - from)) by {
            if to > from {
                assert(rest.take(to - from).last() == chars@[to - 1]);
            }
        }
        assert(text@.subrange(from as int, to as int) == rest.take(to - from));
    }
    from_chars(vstd::slice::slice_subrange(chars.as_slice(), from, to))
}

/// The pieces of a sequence between separators, at least one.
pub open spec fn pieces<T>(all: Seq<T>, sep: T) -> Seq<Seq<T>>
    decreases all.len(),
{
    if all.len() == 0 {
        seq![Seq::empty()]
    } else {
        let before = pieces(all.drop_last(), sep);
        if all.last() == sep {
            before.push(Seq::empty())
        } else {
            before.update(before.len() - 1, before.last().push(all.last()))
        }
    }
}

pub proof fn pieces_nonempty<T>(all: Seq<T>, sep: T)
    ensures
        pieces(all, sep).len() >= 1,
    decreases all.len(),
{
    if all.len() > 0 {
        pieces_nonempty(all.drop_last(), sep);
    }
}

/// No piece holds a separator.
pub proof fn pieces_hold_none<T>(all: Seq<T>, sep: T)
    ensures
        forall|i: int|
            0 <= i < pieces(all, sep).len() ==> !(#[trigger] pieces(all, sep)[i]).contains(sep),
    decreases all.len(),
{
    if all.len() > 0 {
        let init = all.drop_last();
        let before = pieces(init, sep);
        pieces_hold_none(init, sep);
        pieces_nonempty(init, sep);
        assert forall|i: int| 0 <= i < pieces(all, sep).len() implies !(#[trigger] pieces(
            all,
            sep,
        )[i]).contains(sep) by {
            let piece = pieces(all, sep)[i];
            if all.last() != sep && i == before.len() - 1 {
                assert(!before[i].contains(sep));
                if piece.contains(sep) {
                    let k = choose|k: int| 0 <= k < piece.len() && piece[k] == sep;
                    assert(before[i][k] == sep);
                }
            } else if i < before.len() {
                assert(piece == before[i]);
            }
        }
    }
}

/// The pieces of a text between separators.
pub fn split(text: &str, sep: char) -> (parts: Vec<String>)
    ensures
        views(parts@) == pieces(text@, sep),
{
    let chars = chars_of(text);
    let mut parts: Vec<String> = Vec::new();
    let mut last = String::new();
    let mut i: usize = 0;
    proof {
        assert(views(parts@).push(last@) == pieces(text@.take(0), sep));
    }
    while i < chars.len()
        invariant
            0 <= i <= chars@.len(),
            chars@ == text@,
            views(parts@).push(last@) == pieces(text@.take(i as int), sep),
        decreases chars@.len() - i,
    {
        proof {
            assert(text@.take(i + 1).drop_last() == text@.take(i as int));
            assert(text@.take(i + 1).last() == chars@[i as int]);
        }
        let ghost done = views(parts@);
        let ghost part = last@;
        if chars[i] == sep {
            parts.push(last);
            last = String::new();
            proof {
                assert(views(parts@) == done.push(part));
            }
        } else {
            last.push(chars[i]);
            proof {
                assert(done.push(part).update(done.len() as int, part.push(chars@[i as int]))
                    == done.push(last@));
            }
        }
        i += 1;
    }
    proof {
        assert(text@.take(text@.len() as int) == text@);
    }
    let ghost done = views(parts@);
    let ghost part = last@;
    parts.push(last);
    proof {
        assert(views(parts@) == done.push(part));
    }
    parts
}

/// The contents of lists of bytes.
pub open spec fn byte_views(lists: Seq<Vec<u8>>) -> Seq<Seq<u8>> {
    Seq::new(lists.len(), |i: int| lists[i]@)
}

/// The pieces that hold something.
pub open spec fn nonempty<T>(pieces: Seq<Seq<T>>) -> Seq<Seq<T>>
    decreases pieces.len(),
{
    if pieces.len() == 0 {
        Seq::empty()
    } else {
        let before = nonempty(pieces.drop_last());
        if pieces.last().len() > 0 {
            before.push(pieces.last())
        } else {
            before
        }
    }
}

/// The records of a buffer: its pieces between separators, without the empty
/// ones.
pub fn records(buf: &[u8], sep: u8) -> (found: Vec<Vec<u8>>)
    ensures
        byte_views(found@) == nonempty(pieces(buf@, sep)),
{
    let mut found: Vec<Vec<u8>> = Vec::new();
    let mut last: Vec<u8> = Vec::new();
    let ghost mut done = Seq::<Seq<u8>>::empty();
    let mut i: usize = 0;
    proof {
        assert(done.push(last@) == pieces(buf@.take(0), sep));
        assert(byte_views(found@) == nonempty(done));
    }
    while i < buf.len()
        invariant
            0 <= i <= buf@.len(),
            done.push(last@) == pieces(buf@.take(i as int), sep),
            byte_views(found@) == nonempty(done),
        decreases buf@.len() - i,
    {
        proof {
            assert(buf@.take(i + 1).drop_last() == buf@.take(i as int));
            assert(buf@.take(i + 1).last() == buf@[i as int]);
        }
        let ghost part = last@;
        if buf[i] == sep {
            let ghost kept = byte_views(found@);
            if last.len() > 0 {
                found.push(last);
                proof {
                    assert(byte_views(found@) == kept.push(part));
                }
            }
            last = Vec::new();
            proof {
                assert(done.push(part).drop_last() == done);
                done = done.push(part);
            }
        } else {
            last.push(buf[i]);
            proof {
                assert(done.push(part).update(done.len() as int, part.push(buf@[i as int]))
                    == done.push(last@));
            }
        }
        i += 1;
    }
    proof {
        assert(buf@.take(buf@.len() as int) == buf@);
        assert(done.push(last@).drop_last() == done);
    }
    let ghost kept = byte_views(found@);
    let ghost part = last@;
    if last.len() > 0 {
        found.push(last);
        proof {
            assert(byte_views(found@) == kept.push(part));
        }
    }
    found
}

/// What `String::from_utf8_lossy` makes of bytes.
pub uninterp spec fn lossy(bytes: Seq<u8>) -> Seq<char>;

/// `String::from_utf8_lossy`: bytes that are valid UTF-8 come back as their
/// text. Of other bytes the result is only named.
#[verifier::external_body]
pub(crate) fn decode_lossy(bytes: &[u8]) -> (text: String)
    ensures
        text@ == lossy(bytes@),
        vstd::utf8::valid_utf8(bytes@) ==> text@ == vstd::utf8::decode_utf8(bytes@),
{
    String::from_utf8_lossy(bytes).into_owned()
}

/// The words with which `String::from_utf8` refuses bytes.
pub uninterp spec fn utf8_refusal(bytes: Seq<u8>) -> Seq<char>;

/// `String::from_utf8`: the text of bytes that are valid UTF-8, and a message for
/// others, of which the words are only named.
#[verifier::external_body]
pub(crate) fn decode_strict(bytes: Vec<u8>) -> (text: Result<String, String>)
    ensures
        match text {
            Ok(text) => {
                &&& vstd::utf8::valid_utf8(bytes@)
                &&& text@ == vstd::utf8::decode_utf8(bytes@)
            },
            Err(message) => {
                &&& !vstd::utf8::valid_utf8(bytes@)
                &&& message@ == utf8_refusal(bytes@)
            },
        },
{
    String::from_utf8(bytes).map_err(|err| err.to_string())
}

/// A text starts with another.
pub open spec fn starts(text: Seq<char>, start: Seq<char>) -> bool {
    text.len() >= start.len() && text.take(start.len() as int) == start
}

/// What follows `start` in a text that starts with it.
pub fn strip_start(text: &str, start: &str) -> (rest: Option<String>)
    ensures
        match rest {
            Some(rest) => starts(text@, start@) && rest@ == text@.skip(start@.len() as int),
            None => !starts(text@, start@),
        },
{
    let chars = chars_of(text);
    let head = chars_of(start);
    if chars.len() < head.len() {
        return None;
    }
    let first = vstd::slice::slice_subrange(chars.as_slice(), 0, head.len());
    if !same_chars(first, head.as_slice()) {
        return None;
    }
    let rest = vstd::slice::slice_subrange(chars.as_slice(), head.len(), chars.len());
    proof {
        assert(text@.subrange(0, start@.len() as int) == text@.take(start@.len() as int));
        assert(text@.subrange(start@.len() as int, text@.len() as int) == text@.skip(
            start@.len() as int,
        ));
    }
    Some(from_chars(rest))
}

/// The first place at or after `from` where a text holds `pat`.
pub open spec fn index_of(text: Seq<char>, pat: Seq<char>, from: int) -> Option<int>
    decreases text.len() + 1 - from,
{
    if from < 0 || from + pat.len() > text.len() {
        None
    } else if text.subrange(from, from + pat.len()) == pat {
        Some(from)
    } else {
        index_of(text, pat, from + 1)
    }
}

/// What stands before and after the first `pat` in a text.
pub open spec fn halves(text: Seq<char>, pat: Seq<char>) -> Option<(Seq<char>, Seq<char>)> {
    match index_of(text, pat, 0) {
        Some(at) => Some((text.take(at), text.skip(at + pat.len()))),
        None => None,
    }
}

/// What stands before and after the first `pat` in a text, if it is there.
pub fn split_once(text: &str, pat: &str) -> (found: Option<(String, String)>)
    ensures
        match found {
            Some((before, after)) => halves(text@, pat@) == Some((before@, after@)),
            None => halves(text@, pat@) is None,
        },
{
    let chars = chars_of(text);
    let wanted = chars_of(pat);
    if wanted.len() > chars.len() {
        return None;
    }
    let total: usize = chars.len();
    let last: usize = total - wanted.len();
    let mut at: usize = 0;
    while at <= last
        invariant
            0 <= at <= last,
            total == chars@.len(),
            last == total - wanted@.len(),
            chars@ == text@,
            wanted@ == pat@,
            index_of(text@, pat@, at as int) == index_of(text@, pat@, 0),
        decreases last + 1 - at,
    {
        let end: usize = at + wanted.len();
        let here = vstd::slice::slice_subrange(chars.as_slice(), at, end);
        if same_chars(here, wanted.as_slice()) {
            let before = from_chars(vstd::slice::slice_subrange(chars.as_slice(), 0, at));
            let after = from_chars(vstd::slice::slice_subrange(chars.as_slice(), end, chars.len()));
            proof {
                assert(text@.subrange(0, at as int) == text@.take(at as int));
                assert(text@.subrange(end as int, text@.len() as int) == text@.skip(end as int));
            }
            return Some((before, after));
        }
        proof {
            assert(index_of(text@, pat@, at as int) == index_of(text@, pat@, at + 1));
        }
        if at == last {
            assert(index_of(text@, pat@, at + 1) is None);
            return None;
        }
        at += 1;
    }
    None
}

/// A text without its last characters `end`, if it ends with them.
pub fn strip_end(text: &str, end: &str) -> (rest: Option<String>)
    ensures
        match rest {
            Some(rest) => text@ == rest@ + end@,
            None => !ends(text@, end@),
        },
{
    let chars = chars_of(text);
    let tail = chars_of(end);
    if chars.len() < tail.len() {
        return None;
    }
    let at: usize = chars.len() - tail.len();
    let last = vstd::slice::slice_subrange(chars.as_slice(), at, chars.len());
    if !same_chars(last, tail.as_slice()) {
        proof {
            assert(text@.subrange(at as int, text@.len() as int) == text@.skip(at as int));
        }
        return None;
    }
    let rest = from_chars(vstd::slice::slice_subrange(chars.as_slice(), 0, at));
    proof {
        assert(text@ == rest@ + end@);
    }
    Some(rest)
}

/// A text ends with another.
pub open spec fn ends(text: Seq<char>, end: Seq<char>) -> bool {
    text.len() >= end.len() && text.skip(text.len() - end.len()) == end
}

/// Texts with a separator between each two.
pub open spec fn joined(parts: Seq<Seq<char>>, sep: Seq<char>) -> Seq<char>
    decreases parts.len(),
{
    if parts.len() == 0 {
        Seq::empty()
    } else if parts.len() == 1 {
        parts[0]
    } else {
        joined(parts.drop_last(), sep) + sep + parts.last()
    }
}

/// Texts with a separator between each two.
pub fn join(parts: &[String], sep: &str) -> (text: String)
    ensures
        text@ == joined(views(parts@), sep@),
{
    let mut text = String::new();
    let ghost all = views(parts@);
    let mut i: usize = 0;
    while i < parts.len()
        invariant
            0 <= i <= parts@.len(),
            all == views(parts@),
            text@ == joined(all.take(i as int), sep@),
        decreases parts@.len() - i,
    {
        if i > 0 {
            text.push_str(sep);
        }
        text.push_str(parts[i].as_str());
        proof {
            assert(all.take(i + 1).drop_last() == all.take(i as int));
            assert(all.take(i + 1).last() == parts@[i as int]@);
        }
        i += 1;
    }
    proof {
        assert(all.take(all.len() as int) == all);
    }
    text
}

/// Two texts of parts with a separator between them are the text of all the parts.
pub proof fn joined_both(a: Seq<Seq<char>>, b: Seq<Seq<char>>, sep: Seq<char>)
    requires
        a.len() > 0,
        b.len() > 0,
    ensures
        joined(a + b, sep) == joined(a, sep) + sep + joined(b, sep),
    decreases b.len(),
{
    let all = a + b;
    assert(all.last() == b.last());
    if b.len() == 1 {
        assert(all.drop_last() =~= a);
    } else {
        joined_both(a, b.drop_last(), sep);
        assert(all.drop_last() =~= a + b.drop_last());
        assert(joined(all, sep) =~= joined(a, sep) + sep + joined(b.drop_last(), sep) + sep
            + b.last());
        assert(joined(b, sep) =~= joined(b.drop_last(), sep) + sep + b.last());
    }
}

/// What is put behind the last part is put behind the text.
pub proof fn joined_longer(parts: Seq<Seq<char>>, last: Seq<char>, more: Seq<char>, sep: Seq<char>)
    ensures
        joined(parts.push(last + more), sep) == joined(parts.push(last), sep) + more,
{
    let a = parts.push(last + more);
    let b = parts.push(last);
    assert(a.drop_last() =~= parts);
    assert(b.drop_last() =~= parts);
    if parts.len() == 0 {
        assert(joined(a, sep) =~= last + more);
        assert(joined(b, sep) =~= last);
    } else {
        assert(joined(a, sep) =~= joined(parts, sep) + sep + (last + more));
        assert(joined(b, sep) =~= joined(parts, sep) + sep + last);
    }
}

/// What is put before the first part is put before the text.
pub proof fn joined_sooner(first: Seq<char>, more: Seq<char>, parts: Seq<Seq<char>>, sep: Seq<char>)
    ensures
        joined(seq![more + first] + parts, sep) == more + joined(seq![first] + parts, sep),
{
    if parts.len() == 0 {
        assert(seq![more + first] + parts =~= seq![more + first]);
        assert(seq![first] + parts =~= seq![first]);
    } else {
        joined_both(seq![more + first], parts, sep);
        joined_both(seq![first], parts, sep);
        assert(joined(seq![more + first], sep) =~= more + first);
        assert(joined(seq![first], sep) =~= first);
        assert(joined(seq![more + first] + parts, sep) =~= more + joined(
            seq![first] + parts,
            sep,
        ));
    }
}

/// A separator parts the pieces before it from those behind it.
pub proof fn pieces_part<T>(a: Seq<T>, b: Seq<T>, sep: T)
    ensures
        pieces(a.push(sep) + b, sep) == pieces(a, sep) + pieces(b, sep),
    decreases b.len(),
{
    let all = a.push(sep) + b;
    pieces_nonempty(a, sep);
    pieces_nonempty(b, sep);
    if b.len() == 0 {
        assert(all =~= a.push(sep));
        assert(all.drop_last() =~= a);
        assert(pieces(b, sep) =~= seq![Seq::<T>::empty()]);
        assert(pieces(all, sep) =~= pieces(a, sep) + pieces(b, sep));
    } else {
        let init = b.drop_last();
        pieces_part(a, init, sep);
        pieces_nonempty(init, sep);
        assert(all.drop_last() =~= a.push(sep) + init);
        assert(all.last() == b.last());
        assert(pieces(all, sep) =~= pieces(a, sep) + pieces(b, sep));
    }
}

/// A text without the separator is one piece.
pub proof fn pieces_whole<T>(all: Seq<T>, sep: T)
    requires
        !all.contains(sep),
    ensures
        pieces(all, sep) == seq![all],
    decreases all.len(),
{
    if all.len() > 0 {
        let init = all.drop_last();
        assert(all.contains(all.last()));
        assert(!init.contains(sep)) by {
            if init.contains(sep) {
                let k = choose|k: int| 0 <= k < init.len() && init[k] == sep;
                assert(all[k] == sep);
            }
        }
        pieces_whole(init, sep);
        assert(init.push(all.last()) =~= all);
        assert(pieces(all, sep) =~= seq![all]);
    } else {
        assert(all =~= Seq::<T>::empty());
        assert(pieces(all, sep) =~= seq![all]);
    }
}

/// A piece that holds something comes first among those that do.
pub proof fn nonempty_first<T>(first: Seq<T>, rest: Seq<Seq<T>>)
    requires
        first.len() > 0,
    ensures
        nonempty(seq![first] + rest) == seq![first] + nonempty(rest),
    decreases rest.len(),
{
    let all = seq![first] + rest;
    if rest.len() == 0 {
        assert(all =~= seq![first]);
        assert(all.drop_last() =~= Seq::<Seq<T>>::empty());
        assert(nonempty(all.drop_last()) =~= Seq::<Seq<T>>::empty());
        assert(all.last() == first);
        assert(nonempty(all) =~= seq![first]);
        assert(nonempty(all) =~= seq![first] + nonempty(rest));
    } else {
        nonempty_first(first, rest.drop_last());
        assert(all.drop_last() =~= seq![first] + rest.drop_last());
        assert(nonempty(all) =~= seq![first] + nonempty(rest));
    }
}

/// The number that digits spell.
pub open spec fn spelled(digits: Seq<char>) -> int
    decreases digits.len(),
{
    if digits.len() == 0 {
        0
    } else {
        spelled(digits.drop_last()) * 10 + (digits.last() as int - '0' as int)
    }
}

/// A number is written in decimal digits that spell it, without a zero in front.
pub proof fn a_number_reads_back(n: int)
    requires
        0 <= n,
    ensures
        spelled(decimal(n)) == n,
        decimal(n).len() > 0,
        forall|i: int|
            0 <= i < decimal(n).len() ==> '0' <= #[trigger] decimal(n)[i] && decimal(n)[i] <= '9',
        n > 0 ==> decimal(n)[0] != '0',
    decreases n,
{
    if n < 10 {
        assert(decimal(n).drop_last() =~= Seq::<char>::empty());
        assert(spelled(Seq::<char>::empty()) == 0);
    } else {
        a_number_reads_back(n / 10);
        let most = decimal(n / 10);
        assert(decimal(n).drop_last() =~= most);
        assert(decimal(n)[0] == most[0]);
    }
}

/// A number has as many digits as it takes.
pub proof fn a_number_has_its_digits(n: int)
    requires
        0 < n,
    ensures
        power_of_ten((decimal(n).len() - 1) as nat) <= n < power_of_ten(decimal(n).len()),
    decreases n,
{
    reveal_with_fuel(power_of_ten, 2);
    if n >= 10 {
        a_number_has_its_digits(n / 10);
        let k = decimal(n / 10).len();
        assert(decimal(n).len() == k + 1);
        assert(power_of_ten(k) == 10 * power_of_ten((k - 1) as nat));
        assert(power_of_ten((k + 1) as nat) == 10 * power_of_ten(k));
    }
}

/// Trimming takes white space off a text and stops at what is not.
pub proof fn trimming_takes_white_space_only(text: Seq<char>)
    ensures
        ({
            let rest = trimmed_start(text);
            let off = text.len() - rest.len();
            &&& 0 <= off
            &&& rest == text.skip(off)
            &&& forall|i: int| 0 <= i < off ==> white(#[trigger] text[i])
            &&& rest.len() > 0 ==> !white(rest[0])
        }),
        ({
            let rest = trimmed_end(text);
            &&& rest.len() <= text.len()
            &&& rest == text.take(rest.len() as int)
            &&& forall|i: int| rest.len() <= i < text.len() ==> white(#[trigger] text[i])
            &&& rest.len() > 0 ==> !white(rest.last())
        }),
    decreases text.len(),
{
    if text.len() > 0 {
        if white(text[0]) {
            trimming_takes_white_space_only(text.skip(1));
            let rest = trimmed_start(text);
            let off = text.len() - rest.len();
            assert(rest =~= text.skip(off));
            assert forall|i: int| 0 <= i < off implies white(#[trigger] text[i]) by {
                if i > 0 {
                    assert(text.skip(1)[i - 1] == text[i]);
                }
            }
        } else {
            assert(text.skip(0) =~= text);
        }
        if white(text.last()) {
            trimming_takes_white_space_only(text.drop_last());
            let rest = trimmed_end(text);
            assert(rest =~= text.take(rest.len() as int));
            assert forall|i: int| rest.len() <= i < text.len() implies white(#[trigger] text[i]) by {
                if i < text.len() - 1 {
                    assert(text.drop_last()[i] == text[i]);
                }
            }
        } else {
            assert(text.take(text.len() as int) =~= text);
        }
    } else {
        assert(text.skip(0) =~= text);
        assert(text.take(0) =~= text);
    }
}

/// A text that is split at the first of something is what stands before it, the thing, and
/// what stands behind it, and the thing does not stand before.
pub proof fn halves_make_up_the_text(text: Seq<char>, pat: Seq<char>)
    ensures
        match halves(text, pat) {
            Some((a, b)) => {
                &&& a + pat + b == text
                &&& forall|j: int|
                    0 <= j < a.len() ==> #[trigger] text.subrange(j, j + pat.len()) != pat
            },
            None => forall|j: int|
                0 <= j && j + pat.len() <= text.len() ==> #[trigger] text.subrange(
                    j,
                    j + pat.len(),
                ) != pat,
        },
{
    first_found(text, pat, 0);
    if let Some(at) = index_of(text, pat, 0) {
        assert(text.take(at) + pat + text.skip(at + pat.len()) =~= text) by {
            assert(text.subrange(at, at + pat.len()) == pat);
            assert forall|i: int| at <= i < at + pat.len() implies text[i] == pat[i - at] by {
                assert(text.subrange(at, at + pat.len())[i - at] == text[i]);
            }
        }
    }
}

proof fn first_found(text: Seq<char>, pat: Seq<char>, from: int)
    requires
        0 <= from,
    ensures
        match index_of(text, pat, from) {
            Some(at) => {
                &&& from <= at
                &&& at + pat.len() <= text.len()
                &&& text.subrange(at, at + pat.len()) == pat
                &&& forall|j: int|
                    from <= j < at ==> #[trigger] text.subrange(j, j + pat.len()) != pat
            },
            None => forall|j: int|
                from <= j && j + pat.len() <= text.len() ==> #[trigger] text.subrange(
                    j,
                    j + pat.len(),
                ) != pat,
        },
    decreases text.len() + 1 - from,
{
    if from + pat.len() <= text.len() && text.subrange(from, from + pat.len()) != pat {
        first_found(text, pat, from + 1);
    }
}

/// The pieces of a text hold no separator, and there is one more of them than there are
/// separators.
pub proof fn pieces_are_counted(text: Seq<char>, sep: char)
    ensures
        pieces(text, sep).len() == text.filter(|ch: char| ch == sep).len() + 1,
        forall|i: int|
            0 <= i < pieces(text, sep).len() ==> !(#[trigger] pieces(text, sep)[i]).contains(sep),
    decreases text.len(),
{
    reveal(Seq::filter);
    pieces_hold_none(text, sep);
    if text.len() > 0 {
        pieces_are_counted(text.drop_last(), sep);
        pieces_nonempty(text.drop_last(), sep);
    }
}

} // verus!

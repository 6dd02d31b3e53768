//! TOML documents: what is read from one, and the plain form that is written.
use crate::text::{decimal, number, views};
use std::collections::BTreeMap;
use toml::{Table, Value};
use vstd::prelude::*;

verus! {

/// The keys of a TOML document in the order of its table, or the message with
/// which it is refused.
pub uninterp spec fn keys_in(text: Seq<char>) -> Result<Seq<Seq<char>>, Seq<char>>;

/// The boolean at a key of a TOML document, if the key is there, or the message
/// with which the value is refused.
pub uninterp spec fn flag_in(text: Seq<char>, key: Seq<char>) -> Result<Option<bool>, Seq<char>>;

/// The count at a key of a TOML document, likewise.
pub uninterp spec fn count_in(text: Seq<char>, key: Seq<char>) -> Result<Option<usize>, Seq<char>>;

/// The number of milliseconds at a key of a TOML document, likewise.
pub uninterp spec fn millis_in(text: Seq<char>, key: Seq<char>) -> Result<Option<u64>, Seq<char>>;

/// The string at a key of a TOML document, likewise.
pub uninterp spec fn string_in(text: Seq<char>, key: Seq<char>) -> Result<
    Option<Seq<char>>,
    Seq<char>,
>;

/// The array at a key of a TOML document, its elements as integers where they
/// are, or `None` where there is no such array.
pub uninterp spec fn array_in(text: Seq<char>, key: Seq<char>) -> Option<Seq<Option<i64>>>;

/// A value as it is written in a document.
pub enum Literal {
    Flag(bool),
    Number(int),
    Text(Seq<char>),
    Numbers(Seq<int>),
}

/// One line of a document: a key and its value.
pub struct Entry {
    pub key: Seq<char>,
    pub value: Literal,
}

pub open spec fn list_text(numbers: Seq<int>) -> Seq<char>
    decreases numbers.len(),
{
    if numbers.len() == 0 {
        Seq::empty()
    } else if numbers.len() == 1 {
        decimal(numbers[0])
    } else {
        list_text(numbers.drop_last()) + ", "@ + decimal(numbers.last())
    }
}

pub open spec fn literal_text(value: Literal) -> Seq<char> {
    match value {
        Literal::Flag(on) => if on {
            "true"@
        } else {
            "false"@
        },
        Literal::Number(n) => decimal(n),
        Literal::Text(text) => "\""@ + text + "\""@,
        Literal::Numbers(numbers) => "["@ + list_text(numbers) + "]"@,
    }
}

pub open spec fn entry_text(entry: Entry) -> Seq<char> {
    entry.key + " = "@ + literal_text(entry.value) + "\n"@
}

/// The text of a document: a comment, then one line per entry.
pub open spec fn document(comment: Seq<char>, entries: Seq<Entry>) -> Seq<char>
    decreases entries.len(),
{
    if entries.len() == 0 {
        comment
    } else {
        document(comment, entries.drop_last()) + entry_text(entries.last())
    }
}

pub open spec fn lower(ch: char) -> bool {
    'a' <= ch && ch <= 'z'
}

/// Lines of printable ASCII that each start with a hash sign and end with a line
/// feed.
pub open spec fn is_comment(text: Seq<char>) -> bool {
    &&& text.len() > 0 ==> text[0] == '#' && text.last() == '\n'
    &&& forall|i: int|
        0 <= i < text.len() ==> #[trigger] text[i] == '\n' || (' ' <= text[i] && text[i] <= '~')
    &&& forall|i: int|
        0 <= i < text.len() - 1 && #[trigger] text[i] == '\n' ==> text[i + 1] == '#'
}

pub open spec fn plain_literal(value: Literal) -> bool {
    match value {
        Literal::Flag(_) => true,
        Literal::Number(n) => 0 <= n <= i64::MAX,
        Literal::Text(text) => forall|i: int| 0 <= i < text.len() ==> lower(#[trigger] text[i]),
        Literal::Numbers(numbers) => forall|i: int|
            0 <= i < numbers.len() ==> 0 <= #[trigger] numbers[i] <= i64::MAX,
    }
}

/// Keys made of letters and underscores, no key twice, and values that need no
/// quoting.
pub open spec fn plain(comment: Seq<char>, entries: Seq<Entry>) -> bool {
    &&& is_comment(comment)
    &&& forall|i: int|
        #![trigger entries[i]]
        0 <= i < entries.len() ==> {
            &&& entries[i].key.len() > 0
            &&& forall|j: int|
                0 <= j < entries[i].key.len() ==> lower(#[trigger] entries[i].key[j])
                    || entries[i].key[j] == '_'
            &&& plain_literal(entries[i].value)
        }
    &&& forall|i: int, j: int|
        #![trigger entries[i], entries[j]]
        0 <= i < j < entries.len() ==> entries[i].key != entries[j].key
}

/// The entries have a line for this key.
pub open spec fn has_key(entries: Seq<Entry>, key: Seq<char>) -> bool {
    exists|i: int| 0 <= i < entries.len() && (#[trigger] entries[i]).key == key
}

/// `str::parse::<toml::Table>` and `Table::keys`. A plain document is accepted
/// and has exactly the keys of its lines.
#[verifier::external_body]
pub(crate) fn read_keys(text: &str) -> (keys: Result<Vec<String>, String>)
    ensures
        match keys {
            Ok(keys) => keys_in(text@) == Ok::<Seq<Seq<char>>, Seq<char>>(views(keys@)),
            Err(message) => keys_in(text@) == Err::<Seq<Seq<char>>, Seq<char>>(message@),
        },
        forall|comment: Seq<char>, entries: Seq<Entry>|
            #![trigger document(comment, entries)]
            plain(comment, entries) && document(comment, entries) == text@ ==> keys is Ok && (forall|
                key: Seq<char>,
            |
                views(keys->Ok_0@).contains(key) <==> #[trigger] has_key(entries, key)),
{
    match text.parse::<Table>() {
        Ok(table) => Ok(table.keys().cloned().collect()),
        Err(err) => Err(err.to_string()),
    }
}

/// `Table::try_into` on the one entry at a key, as a map of booleans. From a
/// plain document the value of the line is read.
#[verifier::external_body]
pub(crate) fn read_flag(text: &str, key: &str) -> (flag: Result<Option<bool>, String>)
    ensures
        match flag {
            Ok(flag) => flag_in(text@, key@) == Ok::<Option<bool>, Seq<char>>(flag),
            Err(message) => flag_in(text@, key@) == Err::<Option<bool>, Seq<char>>(message@),
        },
        forall|comment: Seq<char>, entries: Seq<Entry>, i: int|
            #![trigger document(comment, entries), entries[i]]
            plain(comment, entries) && document(comment, entries) == text@ && 0 <= i
                < entries.len() && entries[i].key == key@ && entries[i].value is Flag ==> flag is Ok && flag->Ok_0
                == Some(entries[i].value->Flag_0),
{
    let mut table = text.parse::<Table>().map_err(|err| err.to_string())?;
    match table.remove_entry(key) {
        Some(entry) => Table::from_iter([entry])
            .try_into::<BTreeMap<String, bool>>()
            .map(|found| found.into_values().next())
            .map_err(|err| err.to_string()),
        None => Ok(None),
    }
}

/// `Table::try_into` on the one entry at a key, as a map of `usize`. From a plain
/// document the value of the line is read, where it fits.
#[verifier::external_body]
pub(crate) fn read_count(text: &str, key: &str) -> (count: Result<Option<usize>, String>)
    ensures
        match count {
            Ok(count) => count_in(text@, key@) == Ok::<Option<usize>, Seq<char>>(count),
            Err(message) => count_in(text@, key@) == Err::<Option<usize>, Seq<char>>(message@),
        },
        forall|comment: Seq<char>, entries: Seq<Entry>, i: int|
            #![trigger document(comment, entries), entries[i]]
            plain(comment, entries) && document(comment, entries) == text@ && 0 <= i
                < entries.len() && entries[i].key == key@ && entries[i].value is Number
                && entries[i].value->Number_0 <= usize::MAX ==> count is Ok && count->Ok_0 == Some(
                entries[i].value->Number_0 as usize,
            ),
{
    let mut table = text.parse::<Table>().map_err(|err| err.to_string())?;
    match table.remove_entry(key) {
        Some(entry) => Table::from_iter([entry])
            .try_into::<BTreeMap<String, usize>>()
            .map(|found| found.into_values().next())
            .map_err(|err| err.to_string()),
        None => Ok(None),
    }
}

/// `Table::try_into` on the one entry at a key, as a map of `u64`. From a plain
/// document the value of the line is read.
#[verifier::external_body]
pub(crate) fn read_millis(text: &str, key: &str) -> (millis: Result<Option<u64>, String>)
    ensures
        match millis {
            Ok(millis) => millis_in(text@, key@) == Ok::<Option<u64>, Seq<char>>(millis),
            Err(message) => millis_in(text@, key@) == Err::<Option<u64>, Seq<char>>(message@),
        },
        forall|comment: Seq<char>, entries: Seq<Entry>, i: int|
            #![trigger document(comment, entries), entries[i]]
            plain(comment, entries) && document(comment, entries) == text@ && 0 <= i
                < entries.len() && entries[i].key == key@ && entries[i].value is Number ==> millis is Ok
                && millis->Ok_0 == Some(entries[i].value->Number_0 as u64),
{
    let mut table = text.parse::<Table>().map_err(|err| err.to_string())?;
    match table.remove_entry(key) {
        Some(entry) => Table::from_iter([entry])
            .try_into::<BTreeMap<String, u64>>()
            .map(|found| found.into_values().next())
            .map_err(|err| err.to_string()),
        None => Ok(None),
    }
}

/// The characters of an optional string.
pub open spec fn opt_view(text: Option<String>) -> Option<Seq<char>> {
    match text {
        Some(text) => Some(text@),
        None => None,
    }
}

/// `Table::try_into` on the one entry at a key, as a map of strings. From a plain
/// document the value of the line is read.
#[verifier::external_body]
pub(crate) fn read_string(text: &str, key: &str) -> (string: Result<Option<String>, String>)
    ensures
        match string {
            Ok(string) => string_in(text@, key@) == Ok::<Option<Seq<char>>, Seq<char>>(
                opt_view(string),
            ),
            Err(message) => string_in(text@, key@) == Err::<Option<Seq<char>>, Seq<char>>(
                message@,
            ),
        },
        forall|comment: Seq<char>, entries: Seq<Entry>, i: int|
            #![trigger document(comment, entries), entries[i]]
            plain(comment, entries) && document(comment, entries) == text@ && 0 <= i
                < entries.len() && entries[i].key == key@ && entries[i].value is Text ==> string is Ok
                && opt_view(string->Ok_0) == Some(entries[i].value->Text_0),
{
    let mut table = text.parse::<Table>().map_err(|err| err.to_string())?;
    match table.remove_entry(key) {
        Some(entry) => Table::from_iter([entry])
            .try_into::<BTreeMap<String, String>>()
            .map(|found| found.into_values().next())
            .map_err(|err| err.to_string()),
        None => Ok(None),
    }
}

/// `Table::get`, `Value::as_array` and `Value::as_integer`. From a plain document
/// the numbers of the line are read.
#[verifier::external_body]
pub(crate) fn read_array(text: &str, key: &str) -> (array: Option<Vec<Option<i64>>>)
    ensures
        match array {
            Some(array) => array_in(text@, key@) == Some(array@),
            None => array_in(text@, key@) is None,
        },
        forall|comment: Seq<char>, entries: Seq<Entry>, i: int|
            #![trigger document(comment, entries), entries[i]]
            plain(comment, entries) && document(comment, entries) == text@ && 0 <= i
                < entries.len() && entries[i].key == key@ && entries[i].value is Numbers ==> array is Some
                && array->0@ == entries[i].value->Numbers_0.map_values(|n: int| Some(n as i64)),
{
    let table = text.parse::<Table>().ok()?;
    let array = table.get(key)?.as_array()?;
    Some(array.iter().map(Value::as_integer).collect())
}

/// One more line at the end of a document.
pub proof fn document_push(comment: Seq<char>, entries: Seq<Entry>, entry: Entry)
    ensures
        document(comment, entries.push(entry)) == document(comment, entries) + entry_text(entry),
{
    assert(entries.push(entry).drop_last() == entries);
}

fn write_key(out: &mut String, key: &str)
    ensures
        final(out)@ == old(out)@ + key@ + " = "@,
{
    out.push_str(key);
    out.push_str(" = ");
}

/// Write the line of a boolean.
pub(crate) fn write_flag(out: &mut String, key: &str, on: bool)
    ensures
        final(out)@ == old(out)@ + entry_text((Entry { key: key@, value: Literal::Flag(on) })),
{
    write_key(out, key);
    if on {
        out.push_str("true");
    } else {
        out.push_str("false");
    }
    out.push_str("\n");
}

/// Write the line of a number.
pub(crate) fn write_number(out: &mut String, key: &str, n: u64)
    ensures
        final(out)@ == old(out)@ + entry_text(
            (Entry { key: key@, value: Literal::Number(n as int) }),
        ),
{
    write_key(out, key);
    out.push_str(number(n).as_str());
    out.push_str("\n");
}

/// Write the line of a string.
pub(crate) fn write_string(out: &mut String, key: &str, text: &str)
    ensures
        final(out)@ == old(out)@ + entry_text((Entry { key: key@, value: Literal::Text(text@) })),
{
    write_key(out, key);
    out.push_str("\"");
    out.push_str(text);
    out.push_str("\"");
    out.push_str("\n");
}

/// The numbers of a list of lengths.
pub open spec fn as_ints(numbers: Seq<u16>) -> Seq<int> {
    numbers.map_values(|n: u16| n as int)
}

/// Write the line of a list of numbers.
pub(crate) fn write_numbers(out: &mut String, key: &str, numbers: &[u16])
    ensures
        final(out)@ == old(out)@ + entry_text(
            (Entry { key: key@, value: Literal::Numbers(as_ints(numbers@)) }),
        ),
{
    write_key(out, key);
    out.push_str("[");
    let ghost before = out@;
    let ghost all = as_ints(numbers@);
    let mut i: usize = 0;
    while i < numbers.len()
        invariant
            0 <= i <= numbers@.len(),
            all == as_ints(numbers@),
            out@ == before + list_text(all.take(i as int)),
        decreases numbers@.len() - i,
    {
        if i > 0 {
            out.push_str(", ");
        }
        out.push_str(number(numbers[i] as u64).as_str());
        proof {
            assert(all.take(i + 1).drop_last() == all.take(i as int));
            assert(all.take(i + 1).last() == numbers@[i as int]);
        }
        i += 1;
    }
    proof {
        assert(all.take(all.len() as int) == all);
    }
    out.push_str("]");
    out.push_str("\n");
}

} // verus!

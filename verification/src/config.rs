//! The configuration: what a config file says, what a file's own text says about
//! indentation and line endings, and where the files are kept.
use crate::document::{
    read_array, read_count, read_flag, read_keys, read_millis, read_string, write_flag,
    write_number, write_numbers, write_string, Entry, Literal,
};
use crate::settings::{Setting, ALL};
use crate::text::{chars_of, owned, repeated, same_str};
use vstd::prelude::*;

verus! {

#[derive(Debug, Clone, Copy, PartialEq, Eq, Structural)]
pub enum Eol {
    Lf,
    Crlf,
}

impl Eol {
    pub open spec fn text(self) -> Seq<char> {
        match self {
            Eol::Lf => "\n"@,
            Eol::Crlf => "\r\n"@,
        }
    }

    pub fn as_str(self) -> (text: &'static str)
        ensures
            text@ == self.text(),
    {
        match self {
            Eol::Lf => "\n",
            Eol::Crlf => "\r\n",
        }
    }
}

/// How one indent level is written. Detected per file; the config supplies the
/// fallback when a file has nothing to detect from.
#[derive(Debug, Clone, Copy, PartialEq, Eq, Structural)]
pub struct Indent {
    pub width: usize,
    pub tabs: bool,
}

impl Indent {
    pub open spec fn text(self) -> Seq<char> {
        if self.tabs {
            "\t"@
        } else {
            crate::text::run(' ', self.width as int)
        }
    }

    /// One level of indentation.
    pub fn unit(self) -> (text: String)
        ensures
            text@ == self.text(),
    {
        if self.tabs {
            owned("\t")
        } else {
            repeated(' ', self.width)
        }
    }
}

#[derive(Debug, PartialEq, Eq)]
pub struct Config {
    pub detect_indent: bool,
    pub indent_width: usize,
    pub use_tabs: bool,
    pub detect_line_ending: bool,
    pub line_ending: String,
    /// Diff rows one wheel notch moves.
    pub scroll_lines: usize,
    /// Carry the pane widths over to the next run.
    pub remember_layout: bool,
    /// How long after a keystroke scroll events are ignored, so a trackpad's
    /// momentum cannot drag the view off the line being edited. 0 turns it off,
    /// which is the right setting once the system's own inertia is off.
    pub momentum_delay_ms: u64,
}

/// The values of a config.
#[verifier::ext_equal]
pub struct Values {
    pub detect_indent: bool,
    pub indent_width: usize,
    pub use_tabs: bool,
    pub detect_line_ending: bool,
    pub line_ending: Seq<char>,
    pub scroll_lines: usize,
    pub remember_layout: bool,
    pub momentum_delay_ms: u64,
}

impl View for Config {
    type V = Values;

    open spec fn view(&self) -> Values {
        Values {
            detect_indent: self.detect_indent,
            indent_width: self.indent_width,
            use_tabs: self.use_tabs,
            detect_line_ending: self.detect_line_ending,
            line_ending: self.line_ending@,
            scroll_lines: self.scroll_lines,
            remember_layout: self.remember_layout,
            momentum_delay_ms: self.momentum_delay_ms,
        }
    }
}

pub open spec fn defaults() -> Values {
    Values {
        detect_indent: true,
        indent_width: 2,
        use_tabs: false,
        detect_line_ending: true,
        line_ending: "lf"@,
        scroll_lines: 3,
        remember_layout: true,
        momentum_delay_ms: 300,
    }
}

impl Clone for Config {
    fn clone(&self) -> (copy: Self)
        ensures
            copy@ == self@,
    {
        Config {
            detect_indent: self.detect_indent,
            indent_width: self.indent_width,
            use_tabs: self.use_tabs,
            detect_line_ending: self.detect_line_ending,
            line_ending: self.line_ending.clone(),
            scroll_lines: self.scroll_lines,
            remember_layout: self.remember_layout,
            momentum_delay_ms: self.momentum_delay_ms,
        }
    }
}

impl Config {
    /// Whether two configs hold the same values.
    pub fn same(&self, other: &Config) -> (equal: bool)
        ensures
            equal == (self@ == other@),
    {
        self.detect_indent == other.detect_indent && self.indent_width == other.indent_width
            && self.use_tabs == other.use_tabs && self.detect_line_ending
            == other.detect_line_ending && crate::text::same(&self.line_ending, &other.line_ending)
            && self.scroll_lines == other.scroll_lines && self.remember_layout
            == other.remember_layout && self.momentum_delay_ms == other.momentum_delay_ms
    }
}

impl Default for Config {
    fn default() -> (config: Self)
        ensures
            config@ == defaults(),
    {
        Config {
            detect_indent: true,
            indent_width: 2,
            use_tabs: false,
            detect_line_ending: true,
            line_ending: owned("lf"),
            scroll_lines: 3,
            remember_layout: true,
            momentum_delay_ms: 300,
        }
    }
}

/// A key that some setting has.
pub open spec fn known(key: Seq<char>) -> bool {
    exists|s: Setting| #[trigger] s.label_text() == key
}

/// `origin: what`.
pub open spec fn report(origin: Seq<char>, what: Seq<char>) -> Seq<char> {
    origin + ": "@ + what
}

/// A warning for each key that no setting has.
pub open spec fn unknown_keys(keys: Seq<Seq<char>>, origin: Seq<char>) -> Seq<Seq<char>>
    decreases keys.len(),
{
    if keys.len() == 0 {
        Seq::empty()
    } else {
        let before = unknown_keys(keys.drop_last(), origin);
        if known(keys.last()) {
            before
        } else {
            before.push(report(origin, "unrecognised key `"@ + keys.last() + "`"@))
        }
    }
}

/// What is wrong with the value at a key: it is not of the type that the key's
/// setting has.
pub open spec fn type_error(text: Seq<char>, key: Seq<char>) -> Option<Seq<char>> {
    if key == Setting::DetectIndent.label_text() || key == Setting::UseTabs.label_text() || key
        == Setting::DetectLineEnding.label_text() || key == Setting::RememberLayout.label_text() {
        match crate::document::flag_in(text, key) {
            Ok(_) => None,
            Err(message) => Some(message),
        }
    } else if key == Setting::IndentWidth.label_text() || key == Setting::ScrollLines.label_text() {
        match crate::document::count_in(text, key) {
            Ok(_) => None,
            Err(message) => Some(message),
        }
    } else if key == Setting::LineEnding.label_text() {
        match crate::document::string_in(text, key) {
            Ok(_) => None,
            Err(message) => Some(message),
        }
    } else if key == Setting::MomentumDelayMs.label_text() {
        match crate::document::millis_in(text, key) {
            Ok(_) => None,
            Err(message) => Some(message),
        }
    } else {
        None
    }
}

/// The first of the keys whose value has the wrong type, as its message.
pub open spec fn first_error(text: Seq<char>, keys: Seq<Seq<char>>) -> Option<Seq<char>>
    decreases keys.len(),
{
    if keys.len() == 0 {
        None
    } else {
        match first_error(text, keys.drop_last()) {
            Some(message) => Some(message),
            None => type_error(text, keys.last()),
        }
    }
}

pub open spec fn flag_or(text: Seq<char>, setting: Setting, default: bool) -> bool {
    match crate::document::flag_in(text, setting.label_text()) {
        Ok(Some(on)) => on,
        _ => default,
    }
}

pub open spec fn count_or(text: Seq<char>, setting: Setting, default: usize) -> usize {
    match crate::document::count_in(text, setting.label_text()) {
        Ok(Some(n)) => n,
        _ => default,
    }
}

/// What a document says, with the defaults for what it leaves out.
pub open spec fn read_values(text: Seq<char>) -> Values {
    Values {
        detect_indent: flag_or(text, Setting::DetectIndent, true),
        indent_width: count_or(text, Setting::IndentWidth, 2),
        use_tabs: flag_or(text, Setting::UseTabs, false),
        detect_line_ending: flag_or(text, Setting::DetectLineEnding, true),
        line_ending: match crate::document::string_in(text, Setting::LineEnding.label_text()) {
            Ok(Some(ending)) => ending,
            _ => "lf"@,
        },
        scroll_lines: count_or(text, Setting::ScrollLines, 3),
        remember_layout: flag_or(text, Setting::RememberLayout, true),
        momentum_delay_ms: match crate::document::millis_in(
            text,
            Setting::MomentumDelayMs.label_text(),
        ) {
            Ok(Some(ms)) => ms,
            _ => 300,
        },
    }
}

pub open spec fn ending_known(ending: Seq<char>) -> bool {
    ending == "lf"@ || ending == "crlf"@
}

/// Values that cannot be used give way to the defaults.
pub open spec fn corrected(v: Values) -> Values {
    Values {
        indent_width: if v.indent_width == 0 {
            2
        } else {
            v.indent_width
        },
        scroll_lines: if v.scroll_lines == 0 {
            3
        } else {
            v.scroll_lines
        },
        line_ending: if ending_known(v.line_ending) {
            v.line_ending
        } else {
            "lf"@
        },
        ..v
    }
}

/// A warning for each value that cannot be used.
pub open spec fn corrections(v: Values, origin: Seq<char>) -> Seq<Seq<char>> {
    let indent = if v.indent_width == 0 {
        seq![report(origin, "indent_width must be at least 1, using 2"@)]
    } else {
        Seq::empty()
    };
    let scroll = if v.scroll_lines == 0 {
        seq![report(origin, "scroll_lines must be at least 1, using 3"@)]
    } else {
        Seq::empty()
    };
    let ending = if ending_known(v.line_ending) {
        Seq::empty()
    } else {
        seq![report(origin, "line_ending must be \"lf\" or \"crlf\", using \"lf\""@)]
    };
    indent + scroll + ending
}

/// What a config file says: its values, and the warnings it earns.
pub open spec fn parsed(text: Seq<char>, origin: Seq<char>) -> (Values, Seq<Seq<char>>) {
    match crate::document::keys_in(text) {
        Err(message) => (defaults(), seq![report(origin, message)]),
        Ok(keys) => match first_error(text, keys) {
            Some(message) => (
                defaults(),
                unknown_keys(keys, origin).push(report(origin, message)),
            ),
            None => (
                corrected(read_values(text)),
                unknown_keys(keys, origin) + corrections(read_values(text), origin),
            ),
        },
    }
}

fn is_known(key: &str) -> (found: bool)
    ensures
        found == known(key@),
{
    let mut i: usize = 0;
    while i < 8
        invariant
            0 <= i <= 8,
            forall|j: int| 0 <= j < i ==> (#[trigger] ALL@[j]).label_text() != key@,
        decreases 8 - i,
    {
        let setting = ALL[i];
        if same_str(setting.label(), key) {
            assert(setting.label_text() == key@);
            return true;
        }
        i += 1;
    }
    proof {
        assert forall|s: Setting| #[trigger] s.label_text() != key@ by {
            let k: int = match s {
                Setting::DetectIndent => 0,
                Setting::IndentWidth => 1,
                Setting::UseTabs => 2,
                Setting::DetectLineEnding => 3,
                Setting::LineEnding => 4,
                Setting::ScrollLines => 5,
                Setting::RememberLayout => 6,
                Setting::MomentumDelayMs => 7,
            };
            assert(ALL@[k] == s);
        }
    }
    false
}

fn reported(origin: &str, what: &str) -> (warning: String)
    ensures
        warning@ == report(origin@, what@),
{
    let mut warning = owned(origin);
    warning.push_str(": ");
    warning.push_str(what);
    warning
}

/// What is wrong with the type of the value at a key.
fn wrong_type(text: &str, key: &str) -> (message: Option<String>)
    ensures
        crate::document::opt_view(message) == type_error(text@, key@),
{
    if same_str(key, Setting::DetectIndent.label()) || same_str(key, Setting::UseTabs.label())
        || same_str(key, Setting::DetectLineEnding.label()) || same_str(
        key,
        Setting::RememberLayout.label(),
    ) {
        match read_flag(text, key) {
            Ok(_) => None,
            Err(message) => Some(message),
        }
    } else if same_str(key, Setting::IndentWidth.label()) || same_str(
        key,
        Setting::ScrollLines.label(),
    ) {
        match read_count(text, key) {
            Ok(_) => None,
            Err(message) => Some(message),
        }
    } else if same_str(key, Setting::LineEnding.label()) {
        match read_string(text, key) {
            Ok(_) => None,
            Err(message) => Some(message),
        }
    } else if same_str(key, Setting::MomentumDelayMs.label()) {
        match read_millis(text, key) {
            Ok(_) => None,
            Err(message) => Some(message),
        }
    } else {
        None
    }
}

fn or_flag(read: Result<Option<bool>, String>, default: bool) -> (on: bool)
    ensures
        on == (match read {
            Ok(Some(on)) => on,
            _ => default,
        }),
{
    match read {
        Ok(Some(on)) => on,
        _ => default,
    }
}

fn or_count(read: Result<Option<usize>, String>, default: usize) -> (n: usize)
    ensures
        n == (match read {
            Ok(Some(n)) => n,
            _ => default,
        }),
{
    match read {
        Ok(Some(n)) => n,
        _ => default,
    }
}

// ---- What is written -----------------------------------------------------

/// Values that a written file can hold and that are accepted on the way back in.
pub open spec fn acceptable(v: Values) -> bool {
    &&& 1 <= v.indent_width <= i64::MAX
    &&& 1 <= v.scroll_lines <= i64::MAX
    &&& v.momentum_delay_ms <= i64::MAX
    &&& ending_known(v.line_ending)
}

pub open spec fn header() -> Seq<char> {
    "# Written by difv. Comments and ordering are not preserved when difv\n# saves this file from its settings panel.\n"@
}

pub open spec fn flag_entry(setting: Setting, on: bool) -> Entry {
    Entry { key: setting.label_text(), value: Literal::Flag(on) }
}

pub open spec fn number_entry(setting: Setting, n: int) -> Entry {
    Entry { key: setting.label_text(), value: Literal::Number(n) }
}

/// The lines of a written config, one per setting.
pub open spec fn entries_of(v: Values) -> Seq<Entry> {
    Seq::empty().push(flag_entry(Setting::DetectIndent, v.detect_indent)).push(
        number_entry(Setting::IndentWidth, v.indent_width as int),
    ).push(flag_entry(Setting::UseTabs, v.use_tabs)).push(
        flag_entry(Setting::DetectLineEnding, v.detect_line_ending),
    ).push(
        Entry { key: Setting::LineEnding.label_text(), value: Literal::Text(v.line_ending) },
    ).push(number_entry(Setting::ScrollLines, v.scroll_lines as int)).push(
        flag_entry(Setting::RememberLayout, v.remember_layout),
    ).push(number_entry(Setting::MomentumDelayMs, v.momentum_delay_ms as int))
}

/// The text of a written config.
pub open spec fn rendered(v: Values) -> Seq<char> {
    crate::document::document(header(), entries_of(v))
}

/// The whole config file. Every key there is belongs to the settings, so
/// anything the user wrote around them does not survive a save from inside the
/// app.
pub fn render(config: &Config) -> (text: String)
    ensures
        text@ == rendered(config@),
{
    let mut out = owned(
        "# Written by difv. Comments and ordering are not preserved when difv\n# saves this file from its settings panel.\n",
    );
    let ghost v = config@;
    let ghost e0 = Seq::<Entry>::empty();
    let ghost e1 = e0.push(flag_entry(Setting::DetectIndent, v.detect_indent));
    let ghost e2 = e1.push(number_entry(Setting::IndentWidth, v.indent_width as int));
    let ghost e3 = e2.push(flag_entry(Setting::UseTabs, v.use_tabs));
    let ghost e4 = e3.push(flag_entry(Setting::DetectLineEnding, v.detect_line_ending));
    let ghost e5 = e4.push(
        Entry { key: Setting::LineEnding.label_text(), value: Literal::Text(v.line_ending) },
    );
    let ghost e6 = e5.push(number_entry(Setting::ScrollLines, v.scroll_lines as int));
    let ghost e7 = e6.push(flag_entry(Setting::RememberLayout, v.remember_layout));
    proof {
        use_document_push(e0, flag_entry(Setting::DetectIndent, v.detect_indent));
        use_document_push(e1, number_entry(Setting::IndentWidth, v.indent_width as int));
        use_document_push(e2, flag_entry(Setting::UseTabs, v.use_tabs));
        use_document_push(e3, flag_entry(Setting::DetectLineEnding, v.detect_line_ending));
        use_document_push(
            e4,
            Entry { key: Setting::LineEnding.label_text(), value: Literal::Text(v.line_ending) },
        );
        use_document_push(e5, number_entry(Setting::ScrollLines, v.scroll_lines as int));
        use_document_push(e6, flag_entry(Setting::RememberLayout, v.remember_layout));
        use_document_push(e7, number_entry(Setting::MomentumDelayMs, v.momentum_delay_ms as int));
    }
    write_flag(&mut out, Setting::DetectIndent.label(), config.detect_indent);
    write_number(&mut out, Setting::IndentWidth.label(), config.indent_width as u64);
    write_flag(&mut out, Setting::UseTabs.label(), config.use_tabs);
    write_flag(&mut out, Setting::DetectLineEnding.label(), config.detect_line_ending);
    write_string(&mut out, Setting::LineEnding.label(), config.line_ending.as_str());
    write_number(&mut out, Setting::ScrollLines.label(), config.scroll_lines as u64);
    write_flag(&mut out, Setting::RememberLayout.label(), config.remember_layout);
    write_number(&mut out, Setting::MomentumDelayMs.label(), config.momentum_delay_ms);
    out
}

proof fn use_document_push(entries: Seq<Entry>, entry: Entry)
    ensures
        crate::document::document(header(), entries.push(entry)) == crate::document::document(
            header(),
            entries,
        ) + crate::document::entry_text(entry),
        crate::document::document(header(), Seq::<Entry>::empty()) == header(),
{
    crate::document::document_push(header(), entries, entry);
}

/// The keys of two settings differ, and are letters and underscores.
proof fn labels_plain()
    ensures
        forall|a: Setting, b: Setting|
            #![trigger a.label_text(), b.label_text()]
            a != b ==> a.label_text() != b.label_text(),
        forall|s: Setting|
            #![trigger s.label_text()]
            s.label_text().len() > 0 && forall|j: int|
                0 <= j < s.label_text().len() ==> crate::document::lower(
                    #[trigger] s.label_text()[j],
                ) || s.label_text()[j] == '_',
{
    reveal_strlit("detect_indent");
    reveal_strlit("indent_width");
    reveal_strlit("use_tabs");
    reveal_strlit("detect_line_ending");
    reveal_strlit("line_ending");
    reveal_strlit("scroll_lines");
    reveal_strlit("remember_layout");
    reveal_strlit("momentum_delay_ms");
    assert forall|a: Setting, b: Setting|
        #![trigger a.label_text(), b.label_text()]
        a != b implies a.label_text() != b.label_text() by {
        assert(a.label_text().len() == b.label_text().len() ==> a.label_text()[0]
            != b.label_text()[0]);
    }
}

/// A written config is a plain document.
proof fn entries_plain(v: Values)
    requires
        acceptable(v),
    ensures
        crate::document::plain(header(), entries_of(v)),
        entries_of(v).len() == 8,
        forall|key: Seq<char>| #[trigger]
            crate::document::has_key(entries_of(v), key) ==> known(key),
{
    labels_plain();
    reveal_strlit(
        "# Written by difv. Comments and ordering are not preserved when difv\n# saves this file from its settings panel.\n",
    );
    reveal_strlit("lf");
    reveal_strlit("crlf");
    let entries = entries_of(v);
    assert(entries[0].key == Setting::DetectIndent.label_text());
    assert(entries[1].key == Setting::IndentWidth.label_text());
    assert(entries[2].key == Setting::UseTabs.label_text());
    assert(entries[3].key == Setting::DetectLineEnding.label_text());
    assert(entries[4].key == Setting::LineEnding.label_text());
    assert(entries[5].key == Setting::ScrollLines.label_text());
    assert(entries[6].key == Setting::RememberLayout.label_text());
    assert(entries[7].key == Setting::MomentumDelayMs.label_text());
}

/// What a plain written config gives when its keys and values are read.
spec fn reads_back(text: Seq<char>, names: Seq<Seq<char>>, v: Values) -> bool {
    &&& forall|key: Seq<char>| names.contains(key) ==> #[trigger] known(key)
    &&& crate::document::flag_in(text, Setting::DetectIndent.label_text()) == Ok::<
        Option<bool>,
        Seq<char>,
    >(Some(v.detect_indent))
    &&& crate::document::count_in(text, Setting::IndentWidth.label_text()) == Ok::<
        Option<usize>,
        Seq<char>,
    >(Some(v.indent_width))
    &&& crate::document::flag_in(text, Setting::UseTabs.label_text()) == Ok::<
        Option<bool>,
        Seq<char>,
    >(Some(v.use_tabs))
    &&& crate::document::flag_in(text, Setting::DetectLineEnding.label_text()) == Ok::<
        Option<bool>,
        Seq<char>,
    >(Some(v.detect_line_ending))
    &&& crate::document::string_in(text, Setting::LineEnding.label_text()) == Ok::<
        Option<Seq<char>>,
        Seq<char>,
    >(Some(v.line_ending))
    &&& crate::document::count_in(text, Setting::ScrollLines.label_text()) == Ok::<
        Option<usize>,
        Seq<char>,
    >(Some(v.scroll_lines))
    &&& crate::document::flag_in(text, Setting::RememberLayout.label_text()) == Ok::<
        Option<bool>,
        Seq<char>,
    >(Some(v.remember_layout))
    &&& crate::document::millis_in(text, Setting::MomentumDelayMs.label_text()) == Ok::<
        Option<u64>,
        Seq<char>,
    >(Some(v.momentum_delay_ms))
}

proof fn reads_back_parses(text: Seq<char>, origin: Seq<char>, names: Seq<Seq<char>>, v: Values)
    requires
        acceptable(v),
        reads_back(text, names, v),
        crate::document::keys_in(text) == Ok::<Seq<Seq<char>>, Seq<char>>(names),
    ensures
        parsed(text, origin) == (v, Seq::<Seq<char>>::empty()),
{
    all_known(text, origin, names, v);
    assert(read_values(text) == v);
    assert(corrected(v) == v);
    assert(unknown_keys(names, origin) + corrections(v, origin) == Seq::<Seq<char>>::empty());
}

proof fn all_known(text: Seq<char>, origin: Seq<char>, names: Seq<Seq<char>>, v: Values)
    requires
        reads_back(text, names, v),
    ensures
        unknown_keys(names, origin) == Seq::<Seq<char>>::empty(),
        first_error(text, names) is None,
    decreases names.len(),
{
    if names.len() > 0 {
        let init = names.drop_last();
        assert forall|key: Seq<char>| init.contains(key) implies #[trigger] known(key) by {
            let i = choose|i: int| 0 <= i < init.len() && init[i] == key;
            assert(names[i] == key);
        }
        all_known(text, origin, init, v);
        assert(names.contains(names.last())) by {
            assert(names[names.len() - 1] == names.last());
        }
        assert(known(names.last()));
        let s = choose|s: Setting| #[trigger] s.label_text() == names.last();
        match s {
            Setting::DetectIndent => {},
            Setting::IndentWidth => {},
            Setting::UseTabs => {},
            Setting::DetectLineEnding => {},
            Setting::LineEnding => {},
            Setting::ScrollLines => {},
            Setting::RememberLayout => {},
            Setting::MomentumDelayMs => {},
        }
    }
}

impl Config {
    /// Read the text of a config file, always returning a usable value. Problems
    /// are reported rather than silently corrected: a setting the user believes
    /// is applied and is not is the worst failure a config file has.
    pub fn parse(text: &str, origin: &str) -> (read: (Self, Vec<String>))
        ensures
            (read.0@, crate::text::views(read.1@)) == parsed(text@, origin@),
            forall|v: Values|
                acceptable(v) && #[trigger] rendered(v) == text@ ==> read.0@ == v && read.1@.len()
                    == 0,
    {
        let mut warnings: Vec<String> = Vec::new();
        let keys = match read_keys(text) {
            Ok(keys) => keys,
            Err(message) => {
                warnings.push(reported(origin, message.as_str()));
                proof {
                    assert(crate::text::views(warnings@) == seq![warnings@[0]@]);
                    assert forall|v: Values| #![trigger rendered(v)] acceptable(v) implies rendered(v)
                        != text@ by {
                        entries_plain(v);
                    }
                }
                return (Config::default(), warnings);
            },
        };
        let ghost names = crate::text::views(keys@);
        let detect_indent = read_flag(text, Setting::DetectIndent.label());
        let indent_width = read_count(text, Setting::IndentWidth.label());
        let use_tabs = read_flag(text, Setting::UseTabs.label());
        let detect_line_ending = read_flag(text, Setting::DetectLineEnding.label());
        let line_ending = read_string(text, Setting::LineEnding.label());
        let scroll_lines = read_count(text, Setting::ScrollLines.label());
        let remember_layout = read_flag(text, Setting::RememberLayout.label());
        let momentum_delay_ms = read_millis(text, Setting::MomentumDelayMs.label());
        proof {
            assert forall|v: Values| acceptable(v) && #[trigger] rendered(v) == text@ implies
                reads_back(text@, names, v) by {
                let entries = entries_of(v);
                entries_plain(v);
                assert(crate::document::document(header(), entries_of(v)) == text@);
                assert(entries[0].value is Flag);
                assert(entries[1].value is Number);
                assert(entries[2].value is Flag);
                assert(entries[3].value is Flag);
                assert(entries[4].value is Text);
                assert(entries[5].value is Number);
                assert(entries[6].value is Flag);
                assert(entries[7].value is Number);
                assert forall|key: Seq<char>| names.contains(key) implies #[trigger] known(key) by {
                    assert(crate::document::has_key(entries, key));
                }
            }
            assert forall|v: Values| acceptable(v) && #[trigger] rendered(v) == text@ implies parsed(
                text@,
                origin@,
            ) == (v, Seq::<Seq<char>>::empty()) by {
                reads_back_parses(text@, origin@, names, v);
            }
        }
        // The settings panel is the list of keys there are; a key missing from
        // it is a key the panel cannot show, so the two cannot drift apart.
        let mut i: usize = 0;
        while i < keys.len()
            invariant
                0 <= i <= keys@.len(),
                names == crate::text::views(keys@),
                crate::text::views(warnings@) == unknown_keys(names.take(i as int), origin@),
                forall|v: Values|
                    acceptable(v) && #[trigger] rendered(v) == text@ ==> parsed(text@, origin@) == (
                        v,
                        Seq::<Seq<char>>::empty(),
                    ),
            decreases keys@.len() - i,
        {
            proof {
                assert(names.take(i + 1).drop_last() == names.take(i as int));
                assert(names.take(i + 1).last() == keys@[i as int]@);
            }
            if !is_known(keys[i].as_str()) {
                let mut what = owned("unrecognised key `");
                what.push_str(keys[i].as_str());
                what.push_str("`");
                let ghost before = warnings@;
                warnings.push(reported(origin, what.as_str()));
                proof {
                    assert(crate::text::views(warnings@) == crate::text::views(before).push(
                        warnings@.last()@,
                    ));
                }
            }
            i += 1;
        }
        proof {
            assert(names.take(names.len() as int) == names);
        }
        let mut k: usize = 0;
        while k < keys.len()
            invariant
                0 <= k <= keys@.len(),
                names == crate::text::views(keys@),
                crate::document::keys_in(text@) == Ok::<Seq<Seq<char>>, Seq<char>>(names),
                crate::text::views(warnings@) == unknown_keys(names, origin@),
                first_error(text@, names.take(k as int)) is None,
                forall|v: Values|
                    acceptable(v) && #[trigger] rendered(v) == text@ ==> parsed(text@, origin@) == (
                        v,
                        Seq::<Seq<char>>::empty(),
                    ),
            decreases keys@.len() - k,
        {
            proof {
                assert(names.take(k + 1).drop_last() == names.take(k as int));
                assert(names.take(k + 1).last() == keys@[k as int]@);
            }
            if let Some(message) = wrong_type(text, keys[k].as_str()) {
                let ghost before = warnings@;
                warnings.push(reported(origin, message.as_str()));
                proof {
                    first_error_stays(text@, names, k + 1);
                    assert(crate::text::views(warnings@) == crate::text::views(before).push(
                        warnings@.last()@,
                    ));
                }
                return (Config::default(), warnings);
            }
            k += 1;
        }
        proof {
            assert(names.take(names.len() as int) == names);
        }
        let config = Config {
            detect_indent: or_flag(detect_indent, true),
            indent_width: or_count(indent_width, 2),
            use_tabs: or_flag(use_tabs, false),
            detect_line_ending: or_flag(detect_line_ending, true),
            line_ending: match line_ending {
                Ok(Some(ending)) => ending,
                _ => owned("lf"),
            },
            scroll_lines: or_count(scroll_lines, 3),
            remember_layout: or_flag(remember_layout, true),
            momentum_delay_ms: match momentum_delay_ms {
                Ok(Some(ms)) => ms,
                _ => 300,
            },
        };
        proof {
            assert(config@ == read_values(text@));
        }
        Self::corrected(config, warnings, origin)
    }

    /// Put usable values in the place of those that are not, and say so.
    fn corrected(config: Config, warnings: Vec<String>, origin: &str) -> (read: (Self, Vec<String>))
        ensures
            read.0@ == corrected(config@),
            crate::text::views(read.1@) == crate::text::views(warnings@) + corrections(
                config@,
                origin@,
            ),
    {
        let ghost read = config@;
        let ghost before = crate::text::views(warnings@);
        let mut config = config;
        let mut warnings = warnings;
        if config.indent_width == 0 {
            warnings.push(reported(origin, "indent_width must be at least 1, using 2"));
            config.indent_width = 2;
        }
        if config.scroll_lines == 0 {
            warnings.push(reported(origin, "scroll_lines must be at least 1, using 3"));
            config.scroll_lines = 3;
        }
        if !same_str(config.line_ending.as_str(), "lf") && !same_str(
            config.line_ending.as_str(),
            "crlf",
        ) {
            warnings.push(
                reported(origin, "line_ending must be \"lf\" or \"crlf\", using \"lf\""),
            );
            config.line_ending = owned("lf");
        }
        proof {
            assert(crate::text::views(warnings@) == before + corrections(read, origin@));
        }
        (config, warnings)
    }

    /// The indentation of files that have none to detect.
    pub fn fallback_indent(&self) -> (indent: Indent)
        ensures
            indent == (Indent { width: self.indent_width, tabs: self.use_tabs }),
    {
        Indent { width: self.indent_width, tabs: self.use_tabs }
    }

    /// The line ending of files that have none to detect.
    pub fn fallback_eol(&self) -> (eol: Eol)
        ensures
            eol == (if self.line_ending@ == "crlf"@ {
                Eol::Crlf
            } else {
                Eol::Lf
            }),
    {
        if same_str(self.line_ending.as_str(), "crlf") {
            Eol::Crlf
        } else {
            Eol::Lf
        }
    }

    /// The indentation of a file with these lines: what they say, and where they
    /// say nothing or are not asked, the fallback.
    pub open spec fn indents(&self, lines: Seq<Seq<char>>, indent: Indent) -> bool {
        let fallback = Indent { width: self.indent_width, tabs: self.use_tabs };
        if self.detect_indent {
            detects(lines, Some(indent)) || (detects(lines, None) && indent == fallback)
        } else {
            indent == fallback
        }
    }

    /// The indentation of a file with these lines.
    pub fn indent_for(&self, lines: &[String]) -> (indent: Indent)
        ensures
            self.indents(crate::text::views(lines@), indent),
    {
        if !self.detect_indent {
            return self.fallback_indent();
        }
        match detect_indent(lines) {
            Some(indent) => indent,
            None => self.fallback_indent(),
        }
    }

    /// The line ending of a file in which `detected` was found.
    pub fn eol_for(&self, detected: Option<Eol>) -> (eol: Eol)
        ensures
            eol == (if self.detect_line_ending && detected is Some {
                detected->0
            } else if self.line_ending@ == "crlf"@ {
                Eol::Crlf
            } else {
                Eol::Lf
            }),
    {
        match detected {
            Some(eol) => if self.detect_line_ending {
                eol
            } else {
                self.fallback_eol()
            },
            None => self.fallback_eol(),
        }
    }
}

/// The first error among the keys is the first among more of them.
proof fn first_error_stays(text: Seq<char>, keys: Seq<Seq<char>>, k: int)
    requires
        0 <= k <= keys.len(),
        first_error(text, keys.take(k)) is Some,
    ensures
        first_error(text, keys) == first_error(text, keys.take(k)),
    decreases keys.len(),
{
    if k == keys.len() {
        assert(keys.take(k) == keys);
    } else {
        assert(keys.drop_last().take(k) == keys.take(k));
        first_error_stays(text, keys.drop_last(), k);
    }
}

// ---- What a file's own text says -----------------------------------------

/// How many line feeds of a text follow a carriage return, or do not.
pub open spec fn line_feeds(text: Seq<char>, after_return: bool) -> nat
    decreases text.len(),
{
    if text.len() == 0 {
        0
    } else {
        let before = line_feeds(text.drop_last(), after_return);
        let returned = text.len() >= 2 && text[text.len() - 2] == '\r';
        if text.last() == '\n' && returned == after_return {
            before + 1
        } else {
            before
        }
    }
}

proof fn line_feeds_bound(text: Seq<char>)
    ensures
        line_feeds(text, true) + line_feeds(text, false) <= text.len(),
    decreases text.len(),
{
    if text.len() > 0 {
        line_feeds_bound(text.drop_last());
    }
}

/// The dominant line ending in the raw file, or `None` when it has none.
pub fn detect_eol(text: &str) -> (eol: Option<Eol>)
    ensures
        ({
            let crlf = line_feeds(text@, true);
            let lf = line_feeds(text@, false);
            eol == (if crlf == 0 && lf == 0 {
                None
            } else if crlf > lf {
                Some(Eol::Crlf)
            } else {
                Some(Eol::Lf)
            })
        }),
{
    let chars = chars_of(text);
    let mut crlf: usize = 0;
    let mut lf: usize = 0;
    let mut i: usize = 0;
    while i < chars.len()
        invariant
            0 <= i <= chars@.len(),
            chars@ == text@,
            crlf == line_feeds(text@.take(i as int), true),
            lf == line_feeds(text@.take(i as int), false),
        decreases chars@.len() - i,
    {
        proof {
            assert(text@.take(i + 1).drop_last() == text@.take(i as int));
            line_feeds_bound(text@.take(i as int));
        }
        if chars[i] == '\n' {
            if i > 0 && chars[i - 1] == '\r' {
                crlf += 1;
            } else {
                lf += 1;
            }
        }
        i += 1;
    }
    proof {
        assert(text@.take(text@.len() as int) == text@);
    }
    if crlf == 0 && lf == 0 {
        None
    } else if crlf > lf {
        Some(Eol::Crlf)
    } else {
        Some(Eol::Lf)
    }
}

/// A line of nothing but white space.
pub open spec fn blank(line: Seq<char>) -> bool {
    forall|i: int| 0 <= i < line.len() ==> crate::text::white(#[trigger] line[i])
}

/// How many spaces a line starts with.
pub open spec fn leading_spaces(line: Seq<char>) -> int
    decreases line.len(),
{
    if line.len() == 0 || line[0] != ' ' {
        0
    } else {
        1 + leading_spaces(line.skip(1))
    }
}

/// What the indentation of lines adds up to: how many start with a tab, how many
/// with spaces, how often each step from one line to the next occurs, and the
/// indentation of the last line that has any bearing.
#[verifier::ext_equal]
pub struct Tally {
    pub tabs: int,
    pub spaces: int,
    pub steps: Seq<int>,
    pub previous: int,
}

pub open spec fn nothing_seen() -> Tally {
    Tally { tabs: 0, spaces: 0, steps: Seq::new(9, |i: int| 0int), previous: 0 }
}

/// One more line. A blank line says nothing; a line that starts with a tab counts
/// as one; a line without indentation starts over; and a line that is one to
/// eight columns deeper than the one before is a step of that size.
pub open spec fn seen(before: Tally, line: Seq<char>) -> Tally {
    let width = leading_spaces(line);
    if blank(line) {
        before
    } else if line[0] == '\t' {
        Tally { tabs: before.tabs + 1, ..before }
    } else if width == 0 {
        Tally { previous: 0, ..before }
    } else {
        let step = width - before.previous;
        Tally {
            spaces: before.spaces + 1,
            steps: if 1 <= step <= 8 {
                before.steps.update(step, before.steps[step] + 1)
            } else {
                before.steps
            },
            previous: width,
            ..before
        }
    }
}

pub open spec fn tally(lines: Seq<Seq<char>>) -> Tally
    decreases lines.len(),
{
    if lines.len() == 0 {
        nothing_seen()
    } else {
        seen(tally(lines.drop_last()), lines.last())
    }
}

/// What lines say about their indentation: tabs where more lines start with a tab
/// than with spaces, else the most frequent step, the larger of two that are
/// equally frequent; nothing where no line is indented or no step is small.
pub open spec fn detects(lines: Seq<Seq<char>>, found: Option<Indent>) -> bool {
    let t = tally(lines);
    if t.tabs > t.spaces {
        found == Some(Indent { width: 4, tabs: true })
    } else {
        match found {
            Some(indent) => {
                &&& !indent.tabs
                &&& 1 <= indent.width <= 8
                &&& t.steps[indent.width as int] > 0
                &&& forall|w: int|
                    1 <= w <= 8 ==> #[trigger] t.steps[w] <= t.steps[indent.width as int]
                &&& forall|w: int|
                    indent.width < w <= 8 ==> #[trigger] t.steps[w] < t.steps[indent.width as int]
            },
            None => forall|w: int| 1 <= w <= 8 ==> #[trigger] t.steps[w] == 0,
        }
    }
}

proof fn leading_bound(line: Seq<char>)
    ensures
        0 <= leading_spaces(line) <= line.len(),
    decreases line.len(),
{
    if line.len() > 0 && line[0] == ' ' {
        leading_bound(line.skip(1));
    }
}

proof fn leading_at(line: Seq<char>, n: int)
    requires
        0 <= n <= line.len(),
        forall|i: int| 0 <= i < n ==> line[i] == ' ',
        n == line.len() || line[n] != ' ',
    ensures
        leading_spaces(line) == n,
    decreases n,
{
    if n > 0 {
        leading_at(line.skip(1), n - 1);
    }
}

fn is_blank(chars: &Vec<char>) -> (found: bool)
    ensures
        found == blank(chars@),
{
    let mut i: usize = 0;
    while i < chars.len()
        invariant
            0 <= i <= chars@.len(),
            forall|j: int| 0 <= j < i ==> crate::text::white(#[trigger] chars@[j]),
        decreases chars@.len() - i,
    {
        if !chars[i].is_whitespace() {
            return false;
        }
        i += 1;
    }
    true
}

fn count_leading(chars: &Vec<char>) -> (n: usize)
    ensures
        n == leading_spaces(chars@),
{
    let mut n: usize = 0;
    while n < chars.len() && chars[n] == ' '
        invariant
            0 <= n <= chars@.len(),
            forall|i: int| 0 <= i < n ==> chars@[i] == ' ',
        decreases chars@.len() - n,
    {
        n += 1;
    }
    proof {
        leading_at(chars@, n as int);
    }
    n
}

proof fn tally_bound(lines: Seq<Seq<char>>)
    ensures
        0 <= tally(lines).tabs <= lines.len(),
        0 <= tally(lines).spaces <= lines.len(),
        tally(lines).steps.len() == 9,
        forall|w: int| 0 <= w < 9 ==> 0 <= #[trigger] tally(lines).steps[w] <= tally(lines).spaces,
    decreases lines.len(),
{
    if lines.len() > 0 {
        tally_bound(lines.drop_last());
    }
}

/// One pass over the file: tab-led against space-led lines by majority, and for
/// spaces the most common step between consecutive indented lines. Returns
/// `None` when there is nothing to go on.
pub fn detect_indent(lines: &[String]) -> (found: Option<Indent>)
    ensures
        detects(crate::text::views(lines@), found),
{
    let ghost all = crate::text::views(lines@);
    let mut tabs: usize = 0;
    let mut spaces: usize = 0;
    let mut steps: Vec<usize> = vec![0, 0, 0, 0, 0, 0, 0, 0, 0];
    let mut previous: usize = 0;
    let mut i: usize = 0;
    proof {
        assert(steps@.map_values(|n: usize| n as int) == nothing_seen().steps);
    }
    while i < lines.len()
        invariant
            0 <= i <= lines@.len(),
            all == crate::text::views(lines@),
            tabs == tally(all.take(i as int)).tabs,
            spaces == tally(all.take(i as int)).spaces,
            previous == tally(all.take(i as int)).previous,
            steps@.len() == 9,
            steps@.map_values(|n: usize| n as int) == tally(all.take(i as int)).steps,
        decreases lines@.len() - i,
    {
        let chars = chars_of(lines[i].as_str());
        let ghost t = tally(all.take(i as int));
        proof {
            assert(all.take(i + 1).drop_last() == all.take(i as int));
            assert(all.take(i + 1).last() == chars@);
            tally_bound(all.take(i as int));
            assert(forall|w: int|
                0 <= w < 9 ==> #[trigger] steps@[w] == steps@.map_values(
                    |n: usize| n as int,
                )[w]);
        }
        i += 1;
        if is_blank(&chars) {
            continue;
        }
        proof {
            assert(chars@.len() > 0);
        }
        if chars[0] == '\t' {
            tabs += 1;
            continue;
        }
        let width: usize = count_leading(&chars);
        if width == 0 {
            previous = 0;
            continue;
        }
        spaces += 1;
        if width > previous && width - previous <= 8 {
            let step: usize = width - previous;
            let next: usize = steps[step] + 1;
            let ghost before = steps@;
            steps.set(step, next);
            proof {
                assert(steps@.map_values(|n: usize| n as int) == before.map_values(
                    |n: usize| n as int,
                ).update(step as int, next as int));
            }
        }
        previous = width;
    }
    proof {
        assert(all.take(all.len() as int) == all);
        tally_bound(all);
        assert(forall|w: int|
            0 <= w < 9 ==> #[trigger] steps@[w] == steps@.map_values(|n: usize| n as int)[w]);
    }
    if tabs == 0 && spaces == 0 {
        return None;
    }
    if tabs > spaces {
        return Some(Indent { width: 4, tabs: true });
    }
    let mut best: usize = 1;
    let mut w: usize = 2;
    while w < 9
        invariant
            2 <= w <= 9,
            1 <= best < w,
            steps@.len() == 9,
            forall|v: int| 1 <= v < w ==> #[trigger] steps@[v] <= steps@[best as int],
            forall|v: int| best < v < w ==> #[trigger] steps@[v] < steps@[best as int],
        decreases 9 - w,
    {
        if steps[w] >= steps[best] {
            best = w;
        }
        w += 1;
    }
    if steps[best] > 0 {
        Some(Indent { width: best, tabs: false })
    } else {
        None
    }
}

// ---- Where the files are -------------------------------------------------

/// A path below another: one separator between the two.
pub open spec fn joined(base: Seq<u8>, name: Seq<char>) -> Seq<u8> {
    let sep: Seq<u8> = if base.len() > 0 && base.last() != 47 {
        seq![47u8]
    } else {
        Seq::empty()
    };
    base + sep + vstd::utf8::encode_utf8(name)
}

/// A path below another: one separator between the two.
pub fn join(base: Vec<u8>, name: &str) -> (path: Vec<u8>)
    ensures
        path@ == joined(base@, name@),
{
    let mut path = base;
    if path.len() > 0 && path[path.len() - 1] != 47 {
        path.push(47);
    }
    let bytes = name.as_bytes();
    path.extend_from_slice(bytes);
    path
}

/// The value of a variable that is set to something.
pub open spec fn set_to(value: Option<Vec<u8>>) -> Option<Seq<u8>> {
    match value {
        Some(value) => if value@.len() > 0 {
            Some(value@)
        } else {
            None
        },
        None => None,
    }
}

/// Where the config and the layout are kept, from the variables `DIFV_HOME`,
/// `XDG_CONFIG_HOME` and `HOME`.
pub open spec fn dir_of(
    difv_home: Option<Seq<u8>>,
    xdg_config_home: Option<Seq<u8>>,
    home: Option<Seq<u8>>,
) -> Option<Seq<u8>> {
    match (difv_home, xdg_config_home, home) {
        (Some(dir), _, _) => Some(dir),
        (None, Some(dir), _) => Some(joined(dir, "difv"@)),
        (None, None, Some(dir)) => Some(joined(joined(dir, ".config"@), "difv"@)),
        (None, None, None) => None,
    }
}

fn nonempty(value: Option<Vec<u8>>) -> (kept: Option<Vec<u8>>)
    ensures
        match kept {
            Some(kept) => set_to(value) == Some(kept@),
            None => set_to(value) is None,
        },
{
    match value {
        Some(value) => if value.len() > 0 {
            Some(value)
        } else {
            None
        },
        None => None,
    }
}

/// Where `config.toml` and `layout.toml` are kept.
///
/// `XDG_CONFIG_HOME` is the freedesktop base directory spec, one setting that
/// moves every tool's config at once. `DIFV_HOME` is the private override for
/// moving this tool alone. A variable that is set to nothing is not set.
pub fn config_dir(
    difv_home: Option<Vec<u8>>,
    xdg_config_home: Option<Vec<u8>>,
    home: Option<Vec<u8>>,
) -> (dir: Option<Vec<u8>>)
    ensures
        match dir {
            Some(dir) => dir_of(set_to(difv_home), set_to(xdg_config_home), set_to(home)) == Some(
                dir@,
            ),
            None => dir_of(set_to(difv_home), set_to(xdg_config_home), set_to(home)) is None,
        },
{
    if let Some(dir) = nonempty(difv_home) {
        return Some(dir);
    }
    if let Some(dir) = nonempty(xdg_config_home) {
        return Some(join(dir, "difv"));
    }
    match nonempty(home) {
        Some(dir) => Some(join(join(dir, ".config"), "difv")),
        None => None,
    }
}

/// The config file in a directory.
pub fn config_path(dir: Vec<u8>) -> (path: Vec<u8>)
    ensures
        path@ == joined(dir@, "config.toml"@),
{
    join(dir, "config.toml")
}

/// The file of the pane widths in a directory. It is written by the program
/// rather than by the user, so it lives beside the config file instead of inside
/// it: rewriting a hand-edited file would lose its comments.
pub fn layout_path(dir: Vec<u8>) -> (path: Vec<u8>)
    ensures
        path@ == joined(dir@, "layout.toml"@),
{
    join(dir, "layout.toml")
}

// ---- The layout ----------------------------------------------------------

/// What a divider drag leaves behind: the three column widths, and the two
/// heights the left column is split into.
#[derive(Debug, Clone, Copy, PartialEq, Eq)]
pub struct Layout {
    pub weights: [u16; 3],
    pub split: [u16; 2],
}

/// The Changes pane and the Commits pane share the column evenly until a drag
/// says otherwise.
pub const DEFAULT_SPLIT: [u16; 2] = [1, 1];

/// The numbers of an array that can be sizes: whole, positive and no larger than
/// a terminal can be.
pub open spec fn sizes(array: Seq<Option<i64>>) -> Seq<u16>
    decreases array.len(),
{
    if array.len() == 0 {
        Seq::empty()
    } else {
        let before = sizes(array.drop_last());
        match array.last() {
            Some(n) => if 0 < n <= u16::MAX {
                before.push(n as u16)
            } else {
                before
            },
            None => before,
        }
    }
}

/// The sizes at a key of a document, if it has an array there.
pub open spec fn sizes_in(text: Seq<char>, key: Seq<char>) -> Option<Seq<u16>> {
    match crate::document::array_in(text, key) {
        Some(array) => Some(sizes(array)),
        None => None,
    }
}

/// The layout that a document describes: three widths, and a split where it has
/// one that can be trusted.
pub open spec fn layout_in(text: Seq<char>) -> Option<(Seq<u16>, Seq<u16>)> {
    match sizes_in(text, "weights"@) {
        Some(weights) => if weights.len() == 3 {
            Some(
                (
                    weights,
                    match sizes_in(text, "split"@) {
                        Some(split) => if split.len() == 2 {
                            split
                        } else {
                            DEFAULT_SPLIT@
                        },
                        None => DEFAULT_SPLIT@,
                    },
                ),
            )
        } else {
            None
        },
        None => None,
    }
}

pub open spec fn layout_header() -> Seq<char> {
    "# Written by difv. Set `remember_layout = false` in config.toml to stop.\n"@
}

pub open spec fn layout_entries(weights: Seq<u16>, split: Seq<u16>) -> Seq<Entry> {
    Seq::empty().push(
        Entry { key: "weights"@, value: Literal::Numbers(crate::document::as_ints(weights)) },
    ).push(Entry { key: "split"@, value: Literal::Numbers(crate::document::as_ints(split)) })
}

/// The text of a written layout.
pub open spec fn layout_text(weights: Seq<u16>, split: Seq<u16>) -> Seq<char> {
    crate::document::document(layout_header(), layout_entries(weights, split))
}

fn only_sizes(array: &Vec<Option<i64>>) -> (kept: Vec<u16>)
    ensures
        kept@ == sizes(array@),
{
    let mut kept: Vec<u16> = Vec::new();
    let mut i: usize = 0;
    while i < array.len()
        invariant
            0 <= i <= array@.len(),
            kept@ == sizes(array@.take(i as int)),
        decreases array@.len() - i,
    {
        proof {
            assert(array@.take(i + 1).drop_last() == array@.take(i as int));
        }
        if let Some(n) = array[i] {
            if 0 < n && n <= 65535 {
                kept.push(n as u16);
            }
        }
        i += 1;
    }
    proof {
        assert(array@.take(array@.len() as int) == array@);
    }
    kept
}

/// Sizes that are written are read back as themselves.
proof fn sizes_stay(numbers: Seq<u16>)
    requires
        forall|i: int| 0 <= i < numbers.len() ==> #[trigger] numbers[i] > 0,
    ensures
        sizes(crate::document::as_ints(numbers).map_values(|n: int| Some(n as i64))) == numbers,
    decreases numbers.len(),
{
    let array = crate::document::as_ints(numbers).map_values(|n: int| Some(n as i64));
    if numbers.len() > 0 {
        let init = numbers.drop_last();
        sizes_stay(init);
        assert(array.drop_last() == crate::document::as_ints(init).map_values(
            |n: int| Some(n as i64),
        ));
        assert(init.push(numbers.last()) == numbers);
    }
}

/// The pane widths that a file holds, if they still make sense. Anything else
/// means the default layout, which is always usable.
pub fn parse_layout(text: &str) -> (layout: Option<Layout>)
    ensures
        match layout {
            Some(layout) => layout_in(text@) == Some((layout.weights@, layout.split@)),
            None => layout_in(text@) is None,
        },
        forall|weights: Seq<u16>, split: Seq<u16>|
            weights.len() == 3 && split.len() == 2 && (forall|i: int|
                0 <= i < 3 ==> #[trigger] weights[i] > 0) && (forall|i: int|
                0 <= i < 2 ==> #[trigger] split[i] > 0) && #[trigger] layout_text(weights, split)
                == text@ ==> layout is Some && layout->0.weights@ == weights && layout->0.split@
                == split,
{
    let weights = read_array(text, "weights");
    let split = read_array(text, "split");
    proof {
        assert forall|weights: Seq<u16>, split: Seq<u16>|
            weights.len() == 3 && split.len() == 2 && (forall|i: int|
                0 <= i < 3 ==> #[trigger] weights[i] > 0) && (forall|i: int|
                0 <= i < 2 ==> #[trigger] split[i] > 0) && #[trigger] layout_text(weights, split)
                == text@ implies layout_in(text@) == Some((weights, split)) by {
            let entries = layout_entries(weights, split);
            reveal_strlit("weights");
            reveal_strlit("split");
            reveal_strlit(
                "# Written by difv. Set `remember_layout = false` in config.toml to stop.\n",
            );
            assert(entries[0].value is Numbers);
            assert(entries[1].value is Numbers);
            assert(entries[0].key != entries[1].key);
            assert(crate::document::plain(layout_header(), entries));
            assert(crate::document::document(layout_header(), entries) == text@);
            sizes_stay(weights);
            sizes_stay(split);
        }
    }
    let weights = match weights {
        Some(array) => only_sizes(&array),
        None => {
            return None;
        },
    };
    if weights.len() != 3 {
        return None;
    }
    let split = match split {
        Some(array) => only_sizes(&array),
        None => Vec::new(),
    };
    let layout = Layout {
        weights: [weights[0], weights[1], weights[2]],
        // A file written before the Commits pane existed has widths and no
        // split; its widths are still what the user arranged.
        split: if split.len() == 2 {
            [split[0], split[1]]
        } else {
            DEFAULT_SPLIT
        },
    };
    proof {
        assert(layout.weights@ == weights@);
        if split.len() == 2 {
            assert(layout.split@ == split@);
        }
    }
    Some(layout)
}

/// The file of the pane widths.
pub fn render_layout(layout: Layout) -> (text: String)
    ensures
        text@ == layout_text(layout.weights@, layout.split@),
{
    let mut out = owned(
        "# Written by difv. Set `remember_layout = false` in config.toml to stop.\n",
    );
    proof {
        let first = Entry {
            key: "weights"@,
            value: Literal::Numbers(crate::document::as_ints(layout.weights@)),
        };
        let second = Entry {
            key: "split"@,
            value: Literal::Numbers(crate::document::as_ints(layout.split@)),
        };
        let none = Seq::<Entry>::empty();
        crate::document::document_push(layout_header(), none, first);
        crate::document::document_push(layout_header(), none.push(first), second);
        assert(crate::document::document(layout_header(), none) == layout_header());
    }
    write_numbers(&mut out, "weights", layout.weights.as_slice());
    write_numbers(&mut out, "split", layout.split.as_slice());
    out
}

// ---- Laws ----------------------------------------------------------------

/// Whatever a config file says, the values that come of it can be used: no
/// indent or scroll step of nothing, and a line ending that there is.
pub proof fn parsed_values_are_usable(text: Seq<char>, origin: Seq<char>)
    ensures
        ({
            let v = parsed(text, origin).0;
            v.indent_width >= 1 && v.scroll_lines >= 1 && ending_known(v.line_ending)
        }),
{
}

/// A setting is never stepped past a value that would be refused on the way back
/// in, and the line ending stays one that there is.
pub proof fn steps_stay_usable(setting: Setting, before: Config, after: Config, step: int)
    requires
        setting.adjusted(before, after, step),
        acceptable(before@),
    ensures
        acceptable(after@),
{
}

/// A two-valued setting goes back to what it was after two steps, whichever way
/// they go.
pub proof fn two_steps_flip_back(
    setting: Setting,
    before: Config,
    once: Config,
    twice: Config,
    first: int,
    second: int,
)
    requires
        setting.adjusted(before, once, first),
        setting.adjusted(once, twice, second),
        ending_known(before.line_ending@),
        setting != Setting::IndentWidth,
        setting != Setting::ScrollLines,
        setting != Setting::MomentumDelayMs,
    ensures
        twice@ == before@,
{
    reveal_strlit("lf");
    reveal_strlit("crlf");
}

/// No two settings share a key, so every key of a config file names one.
pub proof fn keys_name_one_setting(a: Setting, b: Setting)
    requires
        a.label_text() == b.label_text(),
    ensures
        a == b,
{
    labels_plain();
}

/// A config file of the right types gives every setting the value it has for it, the
/// default for what it leaves out, and the default with a warning for what cannot be
/// used. A file that can be read in full earns no warning, and every other key does.
pub proof fn a_config_says_what_it_holds(text: Seq<char>, origin: Seq<char>, keys: Seq<Seq<char>>)
    requires
        crate::document::keys_in(text) == Ok::<Seq<Seq<char>>, Seq<char>>(keys),
        first_error(text, keys) is None,
    ensures
        ({
            let (v, warnings) = parsed(text, origin);
            let flag = |key: Seq<char>, default: bool, value: bool|
                value == (match crate::document::flag_in(text, key) {
                    Ok(Some(on)) => on,
                    _ => default,
                });
            let count = |key: Seq<char>, default: usize, value: usize|
                value == (match crate::document::count_in(text, key) {
                    Ok(Some(n)) => if n >= 1 {
                        n
                    } else {
                        default
                    },
                    _ => default,
                });
            &&& flag("detect_indent"@, true, v.detect_indent)
            &&& flag("use_tabs"@, false, v.use_tabs)
            &&& flag("detect_line_ending"@, true, v.detect_line_ending)
            &&& flag("remember_layout"@, true, v.remember_layout)
            &&& count("indent_width"@, 2, v.indent_width)
            &&& count("scroll_lines"@, 3, v.scroll_lines)
            &&& v.line_ending == (match crate::document::string_in(text, "line_ending"@) {
                Ok(Some(ending)) => if ending == "crlf"@ {
                    "crlf"@
                } else {
                    "lf"@
                },
                _ => "lf"@,
            })
            &&& v.momentum_delay_ms == (match crate::document::millis_in(
                text,
                "momentum_delay_ms"@,
            ) {
                Ok(Some(ms)) => ms,
                _ => 300,
            })
        }),
{
}

/// A config file earns one warning for each key it holds that is no setting, and one for
/// each value that cannot be used.
pub proof fn every_problem_is_reported(text: Seq<char>, origin: Seq<char>, keys: Seq<Seq<char>>)
    requires
        crate::document::keys_in(text) == Ok::<Seq<Seq<char>>, Seq<char>>(keys),
        first_error(text, keys) is None,
    ensures
        ({
            let warnings = parsed(text, origin).1;
            let none = |key: Seq<char>|
                match crate::document::count_in(text, key) {
                    Ok(Some(n)) => n == 0,
                    _ => false,
                };
            let odd = match crate::document::string_in(text, "line_ending"@) {
                Ok(Some(ending)) => ending != "lf"@ && ending != "crlf"@,
                _ => false,
            };
            warnings.len() == keys.filter(|key: Seq<char>| !known(key)).len() + (if none(
                "indent_width"@,
            ) {
                1int
            } else {
                0
            }) + (if none("scroll_lines"@) {
                1int
            } else {
                0
            }) + (if odd {
                1int
            } else {
                0
            })
        }),
{
    strangers_are_counted(keys, origin);
}

proof fn strangers_are_counted(keys: Seq<Seq<char>>, origin: Seq<char>)
    ensures
        unknown_keys(keys, origin).len() == keys.filter(|key: Seq<char>| !known(key)).len(),
    decreases keys.len(),
{
    reveal(Seq::filter);
    if keys.len() > 0 {
        strangers_are_counted(keys.drop_last(), origin);
    }
}

/// A file that is no document, or has a value of another type, leaves every setting at
/// its default, and says so.
pub proof fn a_broken_config_changes_nothing(text: Seq<char>, origin: Seq<char>)
    requires
        match crate::document::keys_in(text) {
            Ok(keys) => first_error(text, keys) is Some,
            Err(_) => true,
        },
    ensures
        ({
            let (v, warnings) = parsed(text, origin);
            &&& v.detect_indent && !v.use_tabs && v.detect_line_ending && v.remember_layout
            &&& v.indent_width == 2 && v.scroll_lines == 3 && v.momentum_delay_ms == 300
            &&& v.line_ending == "lf"@
            &&& warnings.len() > 0
        }),
{
}

/// How many line feeds there are in a text, by whether a carriage return is before them.
pub open spec fn feeds(text: Seq<char>, returned: bool) -> Set<int> {
    Set::new(
        |i: int|
            0 <= i < text.len() && text[i] == '\n' && (i > 0 && text[i - 1] == '\r') == returned,
    )
}

proof fn feeds_are_counted(text: Seq<char>, returned: bool)
    ensures
        feeds(text, returned).finite(),
        feeds(text, returned).len() == line_feeds(text, returned),
    decreases text.len(),
{
    let all = feeds(text, returned);
    if text.len() == 0 {
        assert(all =~= Set::empty());
    } else {
        let init = text.drop_last();
        let last = text.len() - 1;
        feeds_are_counted(init, returned);
        let before = feeds(init, returned);
        assert(!before.contains(last));
        if all.contains(last) {
            assert(all =~= before.insert(last));
        } else {
            assert(all =~= before);
        }
    }
}

/// The line ending of a text is the one that more of its lines have, and a bare line feed
/// where both are as frequent. A text without line feeds has none.
pub proof fn the_more_frequent_line_ending_is_found(text: Seq<char>)
    ensures
        ({
            let crlf = feeds(text, true).len();
            let lf = feeds(text, false).len();
            let eol = crate::git::main_eol(text);
            &&& eol is None <==> !text.contains('\n')
            &&& eol == Some(Eol::Crlf) <==> crlf > lf
            &&& eol == Some(Eol::Lf) <==> lf >= crlf && text.contains('\n')
        }),
{
    feeds_are_counted(text, true);
    feeds_are_counted(text, false);
    if text.contains('\n') {
        let k = choose|k: int| 0 <= k < text.len() && text[k] == '\n';
        if k > 0 && text[k - 1] == '\r' {
            assert(feeds(text, true).contains(k));
            assert(feeds(text, true).len() > 0) by {
                if feeds(text, true).len() == 0 {
                    assert(feeds(text, true) =~= Set::empty());
                }
            }
        } else {
            assert(feeds(text, false).contains(k));
            assert(feeds(text, false).len() > 0) by {
                if feeds(text, false).len() == 0 {
                    assert(feeds(text, false) =~= Set::empty());
                }
            }
        }
    } else {
        assert forall|k: int| 0 <= k < text.len() implies text[k] != '\n' by {
            assert(text.contains(text[k]));
        }
        assert(feeds(text, true) =~= Set::empty());
        assert(feeds(text, false) =~= Set::empty());
    }
}

/// The lines that start with a tab.
pub open spec fn tab_led(lines: Seq<Seq<char>>) -> Seq<Seq<char>> {
    lines.filter(|line: Seq<char>| !blank(line) && line[0] == '\t')
}

/// The lines that start with a space.
pub open spec fn space_led(lines: Seq<Seq<char>>) -> Seq<Seq<char>> {
    lines.filter(|line: Seq<char>| !blank(line) && line[0] == ' ')
}

proof fn led_lines_are_counted(lines: Seq<Seq<char>>)
    ensures
        tally(lines).tabs == tab_led(lines).len(),
        tally(lines).spaces == space_led(lines).len(),
    decreases lines.len(),
{
    reveal(Seq::filter);
    if lines.len() > 0 {
        led_lines_are_counted(lines.drop_last());
        let line = lines.last();
        leading_bound(line);
        if line.len() > 0 && line[0] == ' ' {
            leading_bound(line.skip(1));
        }
    }
}

/// Tabs are found exactly where more lines start with a tab than with a space, and a
/// file in which no line that is not blank starts with either says nothing.
pub proof fn the_more_frequent_indent_is_found(lines: Seq<Seq<char>>, found: Option<Indent>)
    requires
        detects(lines, found),
    ensures
        found is Some && found->0.tabs <==> tab_led(lines).len() > space_led(lines).len(),
        space_led(lines).len() == 0 && tab_led(lines).len() == 0 ==> found is None,
        found is Some ==> 1 <= found->0.width <= 8,
{
    led_lines_are_counted(lines);
    if space_led(lines).len() == 0 && found is Some && !found->0.tabs {
        no_step_without_spaces(lines);
    }
}

proof fn no_step_without_spaces(lines: Seq<Seq<char>>)
    ensures
        forall|w: int| 0 <= w < 9 ==> 0 <= #[trigger] tally(lines).steps[w] <= tally(lines).spaces,
{
    tally_bound(lines);
}

/// A line that is indented no deeper than the one above it, or deeper by so many spaces.
pub open spec fn steps_by(lines: Seq<Seq<char>>, i: int, width: int) -> bool {
    let depth = leading_spaces(lines[i]);
    let above = if i == 0 {
        0
    } else {
        leading_spaces(lines[i - 1])
    };
    !blank(lines[i]) && lines[i][0] != '\t' && (depth <= above || depth == above + width)
}

/// Lines that go one step deeper at a time, always by the same number of spaces.
pub open spec fn nested_by(lines: Seq<Seq<char>>, width: int) -> bool {
    forall|i: int| 0 <= i < lines.len() ==> #[trigger] steps_by(lines, i, width)
}

proof fn nested_steps(lines: Seq<Seq<char>>, width: int)
    requires
        1 <= width <= 8,
        nested_by(lines, width),
    ensures
        tally(lines).tabs == 0,
        tally(lines).steps.len() == 9,
        lines.len() > 0 ==> tally(lines).previous == leading_spaces(lines.last()),
        lines.len() == 0 ==> tally(lines).previous == 0,
        forall|w: int| 1 <= w <= 8 && w != width ==> #[trigger] tally(lines).steps[w] == 0,
        tally(lines).steps[width] >= 0,
        (exists|i: int| 0 <= i < lines.len() && leading_spaces(#[trigger] lines[i]) > 0)
            ==> tally(lines).steps[width] > 0,
    decreases lines.len(),
{
    if lines.len() > 0 {
        let init = lines.drop_last();
        let last = lines.len() - 1;
        assert forall|i: int| 0 <= i < init.len() implies #[trigger] steps_by(init, i, width) by {
            assert(steps_by(lines, i, width));
        }
        nested_steps(init, width);
        assert(steps_by(lines, last, width));
        leading_bound(lines.last());
        let depth = leading_spaces(lines.last());
        let above = if last == 0 {
            0
        } else {
            leading_spaces(lines[last - 1])
        };
        assert(depth <= above || depth == above + width);
        if init.len() > 0 {
            assert(init.last() == lines[last - 1]);
        }
        if exists|i: int| 0 <= i < lines.len() && leading_spaces(#[trigger] lines[i]) > 0 {
            let i = choose|i: int| 0 <= i < lines.len() && leading_spaces(#[trigger] lines[i]) > 0;
            if i < last {
                assert(leading_spaces(init[i]) > 0);
            } else if above > 0 {
                assert(leading_spaces(init[last - 1]) > 0);
            }
        }
    }
}

/// A file whose lines go deeper by the same number of spaces every time is found to be
/// indented by that number.
pub proof fn a_steady_indent_is_found(lines: Seq<Seq<char>>, width: int, found: Option<Indent>)
    requires
        1 <= width <= 8,
        nested_by(lines, width),
        exists|i: int| 0 <= i < lines.len() && leading_spaces(#[trigger] lines[i]) > 0,
        detects(lines, found),
    ensures
        found == Some(Indent { width: width as usize, tabs: false }),
{
    nested_steps(lines, width);
    tally_bound(lines);
}

/// A blank line says nothing about indentation, wherever it is.
pub proof fn a_blank_line_says_nothing(
    first: Seq<Seq<char>>,
    line: Seq<char>,
    rest: Seq<Seq<char>>,
    found: Option<Indent>,
)
    requires
        blank(line),
    ensures
        detects(first.push(line) + rest, found) == detects(first + rest, found),
{
    blank_lines_add_nothing(first, line, rest);
}

proof fn blank_lines_add_nothing(first: Seq<Seq<char>>, line: Seq<char>, rest: Seq<Seq<char>>)
    requires
        blank(line),
    ensures
        tally(first.push(line) + rest) == tally(first + rest),
    decreases rest.len(),
{
    if rest.len() == 0 {
        assert(first.push(line) + rest =~= first.push(line));
        assert(first.push(line).drop_last() =~= first);
        assert(first + rest =~= first);
    } else {
        blank_lines_add_nothing(first, line, rest.drop_last());
        assert((first.push(line) + rest).drop_last() =~= first.push(line) + rest.drop_last());
        assert((first + rest).drop_last() =~= first + rest.drop_last());
    }
}

/// A path below another begins with it and ends with the name, with a slash before the
/// name and no second one put there.
pub proof fn a_path_goes_below(base: Seq<u8>, name: Seq<char>)
    requires
        base.len() > 0,
    ensures
        ({
            let path = joined(base, name);
            let end = vstd::utf8::encode_utf8(name);
            let at = path.len() - end.len();
            &&& path.take(base.len() as int) == base
            &&& path.skip(at) == end
            &&& path[at - 1] == 47
            &&& at == (if base.last() == 47 {
                base.len() as int
            } else {
                base.len() as int + 1
            })
        }),
{
    let path = joined(base, name);
    let end = vstd::utf8::encode_utf8(name);
    assert(path.take(base.len() as int) =~= base);
    assert(path.skip(path.len() - end.len()) =~= end);
}

/// The directory of the config is the private one where that is set, else one below the
/// shared one, else one below the home directory; without any there is none.
pub proof fn the_nearest_variable_says_where(
    difv_home: Option<Seq<u8>>,
    xdg_config_home: Option<Seq<u8>>,
    home: Option<Seq<u8>>,
)
    requires
        xdg_config_home is Some ==> xdg_config_home->0.len() > 0,
        home is Some ==> home->0.len() > 0,
    ensures
        ({
            let dir = dir_of(difv_home, xdg_config_home, home);
            &&& difv_home is Some ==> dir == difv_home
            &&& difv_home is None && xdg_config_home is Some ==> dir is Some && dir->0.take(
                xdg_config_home->0.len() as int,
            ) == xdg_config_home->0
            &&& difv_home is None && xdg_config_home is None && home is Some ==> dir is Some
                && dir->0.take(home->0.len() as int) == home->0
            &&& dir is None <==> difv_home is None && xdg_config_home is None && home is None
        }),
{
    if let Some(dir) = xdg_config_home {
        a_path_goes_below(dir, "difv"@);
    }
    if let Some(dir) = home {
        a_path_goes_below(dir, ".config"@);
        let below = joined(dir, ".config"@);
        let whole = joined(below, "difv"@);
        a_path_goes_below(below, "difv"@);
        assert(whole.take(dir.len() as int) =~= whole.take(below.len() as int).take(
            dir.len() as int,
        ));
    }
}

/// A number that can be a size.
pub open spec fn is_size(n: Option<i64>) -> bool {
    n is Some && 1 <= n->0 <= 65535
}

/// Numbers that can all be sizes are taken as they are, and one that cannot is left out.
pub proof fn only_sizes_are_taken(array: Seq<Option<i64>>)
    ensures
        sizes(array).len() <= array.len(),
        (forall|i: int| 0 <= i < array.len() ==> is_size(#[trigger] array[i])) ==> sizes(array).len()
            == array.len() && forall|i: int|
            0 <= i < array.len() ==> sizes(array)[i] == (#[trigger] array[i])->0,
        (exists|i: int| 0 <= i < array.len() && !is_size(#[trigger] array[i])) ==> sizes(array).len()
            < array.len(),
        forall|i: int| 0 <= i < sizes(array).len() ==> #[trigger] sizes(array)[i] > 0,
    decreases array.len(),
{
    if array.len() > 0 {
        let init = array.drop_last();
        only_sizes_are_taken(init);
        assert(forall|i: int| 0 <= i < init.len() ==> #[trigger] array[i] == init[i]);
        assert(array[array.len() - 1] == array.last());
        if exists|i: int| 0 <= i < array.len() && !is_size(#[trigger] array[i]) {
            let i = choose|i: int| 0 <= i < array.len() && !is_size(#[trigger] array[i]);
            if i < init.len() {
                assert(!is_size(init[i]));
            }
        } else {
            assert forall|i: int| 0 <= i < init.len() implies is_size(#[trigger] init[i]) by {
                assert(is_size(array[i]));
            }
            assert(is_size(array[array.len() - 1]));
            assert forall|i: int| 0 <= i < array.len() implies sizes(array)[i] == (
            #[trigger] array[i])->0 by {
                if i < init.len() {
                    assert(init[i] == array[i]);
                }
            }
        }
    }
}

/// A layout is only taken with three widths, all of them sizes, and with a split that was
/// not written as two sizes the lists share their column evenly.
pub proof fn a_layout_needs_three_widths(text: Seq<char>)
    ensures
        ({
            let weights = crate::document::array_in(text, "weights"@);
            let split = crate::document::array_in(text, "split"@);
            let read = layout_in(text);
            &&& read is Some ==> weights is Some && (read->0).0.len() == 3 && (read->0).1.len() == 2
            &&& weights is None ==> read is None
            &&& weights is Some && weights->0.len() == 3 && (forall|i: int|
                0 <= i < 3 ==> is_size(#[trigger] weights->0[i])) ==> read is Some && forall|i: int|
                0 <= i < 3 ==> (read->0).0[i] == (#[trigger] weights->0[i])->0
            &&& weights is Some && weights->0.len() == 3 && (exists|i: int|
                0 <= i < 3 && !is_size(#[trigger] weights->0[i])) ==> read is None
            &&& read is Some && split is None ==> (read->0).1 == seq![1u16, 1u16]
            &&& read is Some && split is Some && split->0.len() == 2 && (forall|i: int|
                0 <= i < 2 ==> is_size(#[trigger] split->0[i])) ==> forall|i: int|
                0 <= i < 2 ==> (read->0).1[i] == (#[trigger] split->0[i])->0
        }),
{
    if let Some(weights) = crate::document::array_in(text, "weights"@) {
        only_sizes_are_taken(weights);
    }
    if let Some(split) = crate::document::array_in(text, "split"@) {
        only_sizes_are_taken(split);
    }
    assert(DEFAULT_SPLIT@ =~= seq![1u16, 1u16]);
}

} // verus!

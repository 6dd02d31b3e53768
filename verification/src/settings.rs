//! The settings panel: what each setting is called, what it shows, and how a
//! step changes it.
use crate::config::Config;
use crate::text::{number, owned, same_str};
use vstd::prelude::*;

verus! {

/// One editable line of the settings panel. Adding a config key means adding it
/// here too, which is what keeps the panel and the file in step.
#[derive(Debug, Clone, Copy, PartialEq, Eq, Structural)]
pub enum Setting {
    DetectIndent,
    IndentWidth,
    UseTabs,
    DetectLineEnding,
    LineEnding,
    ScrollLines,
    RememberLayout,
    MomentumDelayMs,
}

pub const ALL: [Setting; 8] = [
    Setting::DetectIndent,
    Setting::IndentWidth,
    Setting::UseTabs,
    Setting::DetectLineEnding,
    Setting::LineEnding,
    Setting::ScrollLines,
    Setting::RememberLayout,
    Setting::MomentumDelayMs,
];

/// Wide enough for a comfortable step, narrow enough to stay readable.
pub const MAX_NUMBER: usize = 16;

/// A momentum guard is a coarse thing: 50ms is the smallest step worth having,
/// and a second is longer than any trackpad's tail.
pub const MS_STEP: u64 = 50;

pub const MAX_MS: u64 = 1000;

/// A number kept between two bounds.
pub open spec fn within(x: int, low: int, high: int) -> int {
    if x < low {
        low
    } else if x > high {
        high
    } else {
        x
    }
}

/// A count of things.
pub open spec fn counted(n: int, unit: Seq<char>) -> Seq<char> {
    if n == 1 {
        "1 "@ + unit
    } else {
        crate::text::decimal(n) + " "@ + unit + "s"@
    }
}

pub open spec fn flag_text(on: bool) -> Seq<char> {
    if on {
        "on"@
    } else {
        "off"@
    }
}

/// What `str::to_uppercase` makes of a text.
pub uninterp spec fn uppercase(text: Seq<char>) -> Seq<char>;

/// The upper case of an ASCII character.
pub open spec fn ascii_upper(ch: char) -> char {
    if 'a' <= ch && ch <= 'z' {
        (ch as int - 32) as char
    } else {
        ch
    }
}

/// `str::to_uppercase`: an ASCII text becomes its upper case, letter by letter.
/// Of other texts the result is only named.
#[verifier::external_body]
fn to_upper(text: &str) -> (upper: String)
    ensures
        upper@ == uppercase(text@),
        (forall|i: int| 0 <= i < text@.len() ==> (#[trigger] text@[i] as int) < 128) ==> upper@
            == text@.map_values(|ch: char| ascii_upper(ch)),
{
    text.to_uppercase()
}

impl Setting {
    /// What the panel calls a setting.
    pub open spec fn name_text(self) -> Seq<char> {
        match self {
            Setting::DetectIndent => "Detect indentation"@,
            Setting::IndentWidth => "Indent width"@,
            Setting::UseTabs => "Indent with tabs"@,
            Setting::DetectLineEnding => "Detect line endings"@,
            Setting::LineEnding => "Line endings"@,
            Setting::ScrollLines => "Wheel scroll step"@,
            Setting::RememberLayout => "Remember pane widths"@,
            Setting::MomentumDelayMs => "Ignore scrolling after a keystroke"@,
        }
    }

    /// The `config.toml` key of a setting.
    pub open spec fn label_text(self) -> Seq<char> {
        match self {
            Setting::DetectIndent => "detect_indent"@,
            Setting::IndentWidth => "indent_width"@,
            Setting::UseTabs => "use_tabs"@,
            Setting::DetectLineEnding => "detect_line_ending"@,
            Setting::LineEnding => "line_ending"@,
            Setting::ScrollLines => "scroll_lines"@,
            Setting::RememberLayout => "remember_layout"@,
            Setting::MomentumDelayMs => "momentum_delay_ms"@,
        }
    }

    /// What a setting does, in one line.
    pub open spec fn help_text(self) -> Seq<char> {
        match self {
            Setting::DetectIndent =>
                "Read each file's own indentation. Off uses the width below everywhere."@,
            Setting::IndentWidth => "Spaces per indent for files with none to detect. 1-16."@,
            Setting::UseTabs => "Indent with a tab for files with none to detect."@,
            Setting::DetectLineEnding =>
                "Keep each file's own line endings. Off writes the choice below."@,
            Setting::LineEnding => "Line ending for files with none to detect."@,
            Setting::ScrollLines => "Diff rows one wheel notch moves. 1-16."@,
            Setting::RememberLayout => "Carry pane widths over to the next run, in layout.toml."@,
            Setting::MomentumDelayMs =>
                "A trackpad keeps scrolling after your fingers leave it. Lowest is off."@,
        }
    }

    /// The value of a setting as the panel shows it.
    pub open spec fn value_text(self, config: Config) -> Seq<char> {
        match self {
            Setting::DetectIndent => flag_text(config.detect_indent),
            Setting::IndentWidth => counted(config.indent_width as int, "space"@),
            Setting::UseTabs => flag_text(config.use_tabs),
            Setting::DetectLineEnding => flag_text(config.detect_line_ending),
            Setting::LineEnding => uppercase(config.line_ending@),
            Setting::ScrollLines => counted(config.scroll_lines as int, "row"@),
            Setting::RememberLayout => flag_text(config.remember_layout),
            Setting::MomentumDelayMs => if config.momentum_delay_ms == 0 {
                "off"@
            } else {
                crate::text::decimal(config.momentum_delay_ms as int) + " ms"@
            },
        }
    }

    /// What the panel calls this setting. The `config.toml` key is shown with
    /// the help instead: a panel of key names reads like a struct definition.
    pub fn name(self) -> (name: &'static str)
        ensures
            name@ == self.name_text(),
    {
        match self {
            Setting::DetectIndent => "Detect indentation",
            Setting::IndentWidth => "Indent width",
            Setting::UseTabs => "Indent with tabs",
            Setting::DetectLineEnding => "Detect line endings",
            Setting::LineEnding => "Line endings",
            Setting::ScrollLines => "Wheel scroll step",
            Setting::RememberLayout => "Remember pane widths",
            Setting::MomentumDelayMs => "Ignore scrolling after a keystroke",
        }
    }

    /// The `config.toml` key.
    pub fn label(self) -> (label: &'static str)
        ensures
            label@ == self.label_text(),
    {
        match self {
            Setting::DetectIndent => "detect_indent",
            Setting::IndentWidth => "indent_width",
            Setting::UseTabs => "use_tabs",
            Setting::DetectLineEnding => "detect_line_ending",
            Setting::LineEnding => "line_ending",
            Setting::ScrollLines => "scroll_lines",
            Setting::RememberLayout => "remember_layout",
            Setting::MomentumDelayMs => "momentum_delay_ms",
        }
    }

    /// One line on what the setting does, shown for the selected row. Says what
    /// changes, not what the value is: the value is already on screen.
    pub fn help(self) -> (help: &'static str)
        ensures
            help@ == self.help_text(),
    {
        match self {
            Setting::DetectIndent =>
                "Read each file's own indentation. Off uses the width below everywhere.",
            Setting::IndentWidth => "Spaces per indent for files with none to detect. 1-16.",
            Setting::UseTabs => "Indent with a tab for files with none to detect.",
            Setting::DetectLineEnding =>
                "Keep each file's own line endings. Off writes the choice below.",
            Setting::LineEnding => "Line ending for files with none to detect.",
            Setting::ScrollLines => "Diff rows one wheel notch moves. 1-16.",
            Setting::RememberLayout => "Carry pane widths over to the next run, in layout.toml.",
            Setting::MomentumDelayMs =>
                "A trackpad keeps scrolling after your fingers leave it. Lowest is off.",
        }
    }

    /// The value as the panel shows it. `true`/`false` and a bare millisecond
    /// count are how the file stores it, not how it reads.
    pub fn value(self, config: &Config) -> (value: String)
        ensures
            value@ == self.value_text(*config),
    {
        match self {
            Setting::DetectIndent => flag(config.detect_indent),
            Setting::IndentWidth => plural(config.indent_width, "space"),
            Setting::UseTabs => flag(config.use_tabs),
            Setting::DetectLineEnding => flag(config.detect_line_ending),
            Setting::LineEnding => to_upper(config.line_ending.as_str()),
            Setting::ScrollLines => plural(config.scroll_lines, "row"),
            Setting::RememberLayout => flag(config.remember_layout),
            Setting::MomentumDelayMs => if config.momentum_delay_ms == 0 {
                owned("off")
            } else {
                let mut text = number(config.momentum_delay_ms);
                text.push_str(" ms");
                text
            },
        }
    }

    /// A config after one step of this setting.
    pub open spec fn adjusted(self, before: Config, after: Config, step: int) -> bool {
        &&& after.detect_indent == (before.detect_indent != (self == Setting::DetectIndent))
        &&& after.use_tabs == (before.use_tabs != (self == Setting::UseTabs))
        &&& after.detect_line_ending == (before.detect_line_ending != (self
            == Setting::DetectLineEnding))
        &&& after.remember_layout == (before.remember_layout != (self == Setting::RememberLayout))
        &&& after.line_ending@ == (if self == Setting::LineEnding {
            if before.line_ending@ == "lf"@ {
                "crlf"@
            } else {
                "lf"@
            }
        } else {
            before.line_ending@
        })
        &&& after.indent_width == (if self == Setting::IndentWidth {
            within(before.indent_width + step, 1, MAX_NUMBER as int)
        } else {
            before.indent_width as int
        })
        &&& after.scroll_lines == (if self == Setting::ScrollLines {
            within(before.scroll_lines + step, 1, MAX_NUMBER as int)
        } else {
            before.scroll_lines as int
        })
        &&& after.momentum_delay_ms == (if self == Setting::MomentumDelayMs {
            within(before.momentum_delay_ms + step * MS_STEP, 0, MAX_MS as int)
        } else {
            before.momentum_delay_ms as int
        })
    }

    /// A step of the value, in the direction the user pressed. Two-valued
    /// settings flip either way: there is nowhere else for them to go.
    pub fn adjust(self, config: &mut Config, step: isize)
        ensures
            self.adjusted(*old(config), *final(config), step as int),
    {
        match self {
            Setting::DetectIndent => {
                config.detect_indent = !config.detect_indent;
            },
            Setting::UseTabs => {
                config.use_tabs = !config.use_tabs;
            },
            Setting::DetectLineEnding => {
                config.detect_line_ending = !config.detect_line_ending;
            },
            Setting::RememberLayout => {
                config.remember_layout = !config.remember_layout;
            },
            Setting::LineEnding => {
                config.line_ending = if same_str(config.line_ending.as_str(), "lf") {
                    owned("crlf")
                } else {
                    owned("lf")
                };
            },
            Setting::IndentWidth => {
                config.indent_width = step_number(config.indent_width, step);
            },
            Setting::ScrollLines => {
                config.scroll_lines = step_number(config.scroll_lines, step);
            },
            // Milliseconds, so it steps in a unit anyone would actually pick.
            Setting::MomentumDelayMs => {
                let next: i128 = config.momentum_delay_ms as i128 + step as i128 * MS_STEP as i128;
                config.momentum_delay_ms = if next < 0 {
                    0
                } else if next > MAX_MS as i128 {
                    MAX_MS
                } else {
                    next as u64
                };
            },
        }
    }
}

fn flag(on: bool) -> (text: String)
    ensures
        text@ == flag_text(on),
{
    if on {
        owned("on")
    } else {
        owned("off")
    }
}

/// A count of things, with the plural where it is not one.
pub fn plural(n: usize, unit: &str) -> (text: String)
    ensures
        text@ == counted(n as int, unit@),
{
    if n == 1 {
        let mut text = owned("1 ");
        text.push_str(unit);
        text
    } else {
        let mut text = number(n as u64);
        text.push_str(" ");
        text.push_str(unit);
        text.push_str("s");
        text
    }
}

/// One step of a number that stays between one and its largest value.
pub fn step_number(value: usize, step: isize) -> (next: usize)
    ensures
        next == within(value + step, 1, MAX_NUMBER as int),
{
    let next: i128 = value as i128 + step as i128;
    if next < 1 {
        1
    } else if next > MAX_NUMBER as i128 {
        MAX_NUMBER
    } else {
        next as usize
    }
}

// ---- Laws ----------------------------------------------------------------

/// A step changes what the panel shows of its own setting and of no other.
pub proof fn a_step_changes_one_setting(
    setting: Setting,
    other: Setting,
    before: Config,
    after: Config,
    step: int,
)
    requires
        setting.adjusted(before, after, step),
        other != setting,
    ensures
        other.value_text(after) == other.value_text(before),
{
}

/// What is on goes off and what is off goes on, whichever way the step went, and two
/// steps give back what there was.
pub proof fn a_switch_is_turned_over(
    setting: Setting,
    before: Config,
    after: Config,
    again: Config,
    steps: (int, int),
)
    requires
        setting.adjusted(before, after, steps.0),
        setting.adjusted(after, again, steps.1),
    ensures
        setting == Setting::DetectIndent ==> after.detect_indent != before.detect_indent
            && again.detect_indent == before.detect_indent,
        setting == Setting::UseTabs ==> after.use_tabs != before.use_tabs && again.use_tabs
            == before.use_tabs,
        setting == Setting::DetectLineEnding ==> after.detect_line_ending
            != before.detect_line_ending && again.detect_line_ending == before.detect_line_ending,
        setting == Setting::RememberLayout ==> after.remember_layout != before.remember_layout
            && again.remember_layout == before.remember_layout,
        setting == Setting::LineEnding && (before.line_ending@ == "lf"@ || before.line_ending@
            == "crlf"@) ==> after.line_ending@ != before.line_ending@ && again.line_ending@
            == before.line_ending@,
        setting == Setting::LineEnding ==> after.line_ending@ == "lf"@ || after.line_ending@
            == "crlf"@,
{
    reveal_strlit("lf");
    reveal_strlit("crlf");
    assert("lf"@.len() != "crlf"@.len());
}

/// A number goes up by one and down by one between one and sixteen, the delay by fifty
/// milliseconds between none and a second, and a step back undoes a step that was not
/// stopped.
pub proof fn a_number_goes_up_and_down(before: Config, up: Config, down: Config, setting: Setting)
    requires
        setting.adjusted(before, up, 1),
        setting.adjusted(up, down, -1),
    ensures
        setting == Setting::IndentWidth && 1 <= before.indent_width <= 16 ==> {
            &&& before.indent_width < 16 ==> up.indent_width == before.indent_width + 1
                && down.indent_width == before.indent_width
            &&& before.indent_width == 16 ==> up.indent_width == 16 && down.indent_width == 15
        },
        setting == Setting::ScrollLines && 1 <= before.scroll_lines <= 16 ==> {
            &&& before.scroll_lines < 16 ==> up.scroll_lines == before.scroll_lines + 1
                && down.scroll_lines == before.scroll_lines
            &&& before.scroll_lines == 16 ==> up.scroll_lines == 16 && down.scroll_lines == 15
        },
        setting == Setting::MomentumDelayMs && before.momentum_delay_ms <= 950 ==> {
            &&& up.momentum_delay_ms == before.momentum_delay_ms + 50
            &&& down.momentum_delay_ms == before.momentum_delay_ms
        },
        setting == Setting::MomentumDelayMs ==> up.momentum_delay_ms <= 1000,
        setting == Setting::IndentWidth ==> 1 <= up.indent_width <= 16 && 1 <= down.indent_width
            <= 16,
        setting == Setting::ScrollLines ==> 1 <= up.scroll_lines <= 16 && 1 <= down.scroll_lines
            <= 16,
{
}

/// A switch is shown as on or off, and a number by its digits with what it counts, in the
/// plural unless it is one.
pub proof fn the_panel_shows_the_values(config: Config)
    ensures
        config.detect_indent ==> Setting::DetectIndent.value_text(config) == "on"@,
        !config.detect_indent ==> Setting::DetectIndent.value_text(config) == "off"@,
        config.use_tabs ==> Setting::UseTabs.value_text(config) == "on"@,
        !config.use_tabs ==> Setting::UseTabs.value_text(config) == "off"@,
        config.detect_line_ending ==> Setting::DetectLineEnding.value_text(config) == "on"@,
        !config.detect_line_ending ==> Setting::DetectLineEnding.value_text(config) == "off"@,
        config.remember_layout ==> Setting::RememberLayout.value_text(config) == "on"@,
        !config.remember_layout ==> Setting::RememberLayout.value_text(config) == "off"@,
        config.indent_width == 1 ==> Setting::IndentWidth.value_text(config) == "1 space"@,
        config.scroll_lines == 1 ==> Setting::ScrollLines.value_text(config) == "1 row"@,
        config.indent_width != 1 ==> Setting::IndentWidth.value_text(config)
            == crate::text::decimal(config.indent_width as int) + " spaces"@,
        config.scroll_lines != 1 ==> Setting::ScrollLines.value_text(config)
            == crate::text::decimal(config.scroll_lines as int) + " rows"@,
        config.momentum_delay_ms == 0 ==> Setting::MomentumDelayMs.value_text(config) == "off"@,
        config.momentum_delay_ms > 0 ==> Setting::MomentumDelayMs.value_text(config)
            == crate::text::decimal(config.momentum_delay_ms as int) + " ms"@,
{
    reveal_strlit("1 space");
    reveal_strlit("1 row");
    reveal_strlit("1 ");
    reveal_strlit("space");
    reveal_strlit("row");
    reveal_strlit(" ");
    reveal_strlit("s");
    reveal_strlit(" spaces");
    reveal_strlit(" rows");
    assert("1 "@ + "space"@ =~= "1 space"@);
    assert("1 "@ + "row"@ =~= "1 row"@);
    let width = crate::text::decimal(config.indent_width as int);
    let step = crate::text::decimal(config.scroll_lines as int);
    assert(width + " "@ + "space"@ + "s"@ =~= width + " spaces"@);
    assert(step + " "@ + "row"@ + "s"@ =~= step + " rows"@);
}

} // verus!

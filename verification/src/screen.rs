//! What the reader sees and where: panes, focus, scroll positions, overlays and
//! the drags that change them.
use crate::editor::Selection;
use crate::input::{Position, Rect};
use vstd::prelude::*;

verus! {

#[derive(Debug, Clone, Copy, PartialEq, Eq, Structural)]
pub enum Pane {
    Files,
    Old,
    New,
}

/// A question in the footer, so the diff the answer depends on stays visible.
#[derive(Debug, Clone, Copy, PartialEq, Eq, Structural)]
pub enum Prompt {
    Quit,
    Reload,
}

impl Prompt {
    pub open spec fn words(self) -> Seq<char> {
        match self {
            Prompt::Quit => "Unsaved changes. Quit anyway? (y/n)"@,
            Prompt::Reload => "Unsaved changes. Discard and reload? (y/n)"@,
        }
    }

    pub fn text(self) -> (text: &'static str)
        ensures
            text@ == self.words(),
    {
        match self {
            Prompt::Quit => "Unsaved changes. Quit anyway? (y/n)",
            Prompt::Reload => "Unsaved changes. Discard and reload? (y/n)",
        }
    }
}

/// A pane narrower than this is unreadable, so a drag stops there.
pub const MIN_PANE: u16 = 8;

/// Columns one `←`/`→` or one sideways trackpad notch moves.
pub const HSCROLL_STEP: isize = 4;

/// Everything about the view that is a plain value.
#[derive(Debug, Clone, Copy)]
pub struct Screen {
    pub scroll: usize,
    pub hscroll: usize,
    pub focus: Pane,
    pub quit: bool,
    /// When the notice in the footer clears itself, in nanoseconds. Unset, it
    /// stays until the next key.
    pub notice_until: Option<u64>,
    pub prompt: Option<Prompt>,
    /// The selected file was rewritten by another process and its buffer has
    /// unsaved edits, so it is flagged instead of reloaded.
    pub stale: bool,
    /// When the selected file was written last and how long it is.
    pub disk_stamp: Option<(u64, u64)>,
    /// The diff pane a mouse selection is being dragged in, from press to release.
    /// Kept apart from `focus`, which a key or the wheel can move mid-drag.
    pub selecting: Option<Pane>,
    /// A mouse selection on the Before side, `(anchor, head)` in the order it was
    /// made. That side has no editor, so this is the whole of its state.
    pub old_selection: Option<Selection>,
    /// Where the pointer was on the last drag that reached past the edge of the
    /// pane being selected in, so the view keeps scrolling toward it while the
    /// button is held still.
    pub edge_drag: Option<Position>,
    /// Rects from the last render, kept so mouse clicks can be mapped back.
    pub panes: [Rect; 3],
    /// The area the three panes share, so a divider drag can be bounded.
    pub body: Rect,
    pub viewport_height: usize,
    /// Relative pane widths, in cells at the time they were last set.
    pub weights: [u16; 3],
    pub files_hidden: bool,
    /// The divider being dragged: 0 between Files and Old, 1 between Old and New.
    pub drag: Option<usize>,
    /// The selected row of the settings panel, when it is open.
    pub settings: Option<usize>,
    /// When the buffer last changed, in nanoseconds.
    pub typed_at: Option<u64>,
    /// The key list is open.
    pub help: bool,
    /// First row of the key list on screen, for terminals too short for it.
    pub help_scroll: usize,
    /// Where the footer drew its buttons, so clicking one works.
    pub buttons: [Rect; 2],
    /// Display columns of the longest line on either side.
    pub longest: usize,
    /// Display columns of the longest line on the Before side.
    pub longest_old: usize,
    /// The first file of the list on screen.
    pub list_offset: usize,
}

pub open spec fn at_least(a: int, b: int) -> int {
    if a >= b {
        a
    } else {
        b
    }
}

pub open spec fn at_most(a: int, b: int) -> int {
    if a <= b {
        a
    } else {
        b
    }
}

/// A scroll position moved by a number of rows or columns, kept between the start
/// and the furthest there is.
pub open spec fn stepped(from: int, delta: int, furthest: int) -> int {
    at_most(at_least(from + delta, 0), furthest)
}

pub open spec fn pane_after(pane: Pane) -> Pane {
    match pane {
        Pane::Files => Pane::Old,
        Pane::Old => Pane::New,
        Pane::New => Pane::Files,
    }
}

pub fn next_pane(pane: Pane) -> (next: Pane)
    ensures
        next == pane_after(pane),
{
    match pane {
        Pane::Files => Pane::Old,
        Pane::Old => Pane::New,
        Pane::New => Pane::Files,
    }
}

/// A scroll position moved by a number of rows or columns.
pub fn step(from: usize, delta: i128, furthest: usize) -> (to: usize)
    requires
        -0x1_0000_0000_0000_0000 <= delta <= 0x1_0000_0000_0000_0000,
    ensures
        to == stepped(from as int, delta as int, furthest as int),
{
    let next: i128 = from as i128 + delta;
    if next < 0 {
        0
    } else if next > furthest as i128 {
        furthest
    } else {
        next as usize
    }
}

pub open spec fn widths_of(panes: Seq<Rect>) -> int {
    panes[0].width + panes[1].width + panes[2].width
}

/// The weights of the panes that are drawn.
pub open spec fn drawn_weights(weights: Seq<u16>, panes: Seq<Rect>) -> int {
    (if panes[0].width > 0 {
        weights[0] as int
    } else {
        0
    }) + (if panes[1].width > 0 {
        weights[1] as int
    } else {
        0
    }) + (if panes[2].width > 0 {
        weights[2] as int
    } else {
        0
    })
}

/// A weight restated in cells: the width of a pane that is drawn, and for one that
/// is not its weight scaled by the same factor as the others, as far as a weight goes.
pub open spec fn restated(weight: u16, pane: Rect, cells: int, before: int) -> int {
    if pane.width > 0 {
        pane.width as int
    } else if before == 0 {
        weight as int
    } else {
        at_most(at_least(weight as int * cells / before, 1), 65535)
    }
}

fn restate(weight: u16, pane: Rect, cells: u32, before: u32) -> (next: u16)
    requires
        cells <= 196605,
    ensures
        next == restated(weight, pane, cells as int, before as int),
{
    if pane.width > 0 {
        pane.width
    } else if before == 0 {
        weight
    } else {
        proof {
            assert(0 <= weight as int * cells as int <= 65535 * 196605) by (nonlinear_arith)
                requires
                    0 <= weight <= 65535,
                    0 <= cells <= 196605,
            ;
        }
        let scaled: u64 = weight as u64 * cells as u64 / before as u64;
        if scaled < 1 {
            1
        } else if scaled <= 65535 {
            scaled as u16
        } else {
            65535
        }
    }
}

/// Where a divider goes: to the column, as far as both panes beside it stay
/// readable.
pub open spec fn divided(left: Rect, total: int, x: int) -> int {
    at_most(at_least(at_least(x - left.x, 0), MIN_PANE as int), total - MIN_PANE)
}

/// The weights once a divider was dragged to a column: width is taken from the pane
/// on the other side, so the pair keeps the room it had.
pub open spec fn shared(panes: Seq<Rect>, weights: Seq<u16>, index: int, x: int) -> Seq<u16> {
    let left = panes[index];
    let total = left.width + panes[index + 1].width;
    if total < MIN_PANE * 2 {
        weights
    } else {
        let width = divided(left, total, x);
        let cells = widths_of(panes);
        let before = drawn_weights(weights, panes);
        let near = at_most(width, 65535) as u16;
        let far = at_most(total - width, 65535) as u16;
        if index == 0 {
            seq![near, far, restated(weights[2], panes[2], cells, before) as u16]
        } else {
            seq![restated(weights[0], panes[0], cells, before) as u16, near, far]
        }
    }
}

/// The weight of a pane, if it is drawn.
fn drawn(weight: u16, pane: Rect) -> (part: u32)
    ensures
        part == (if pane.width > 0 {
            weight as int
        } else {
            0
        }),
{
    if pane.width > 0 {
        weight as u32
    } else {
        0
    }
}

/// Where a divider goes and what is left beside it.
fn divide(left: Rect, total: u32, x: u16) -> (halves: (u16, u16))
    requires
        16 <= total <= 131070,
    ensures
        halves.0 == at_most(divided(left, total as int, x as int), 65535),
        halves.1 == at_most(total - divided(left, total as int, x as int), 65535),
{
    let wanted: u32 = if x >= left.x {
        (x - left.x) as u32
    } else {
        0
    };
    let width: u32 = if wanted < 8 {
        8
    } else if wanted > total - 8 {
        total - 8
    } else {
        wanted
    };
    let rest: u32 = total - width;
    let near: u16 = if width <= 65535 {
        width as u16
    } else {
        65535
    };
    let far: u16 = if rest <= 65535 {
        rest as u16
    } else {
        65535
    };
    (near, far)
}

fn moved(panes: [Rect; 3], weights: [u16; 3], index: usize, x: u16) -> (next: [u16; 3])
    requires
        index < 2,
    ensures
        next@ == shared(panes@, weights@, index as int, x as int),
{
    let left = if index == 0 {
        panes[0]
    } else {
        panes[1]
    };
    let right = if index == 0 {
        panes[1]
    } else {
        panes[2]
    };
    let total: u32 = left.width as u32 + right.width as u32;
    if total < 16 {
        return weights;
    }
    let (near, far) = divide(left, total, x);
    let cells: u32 = panes[0].width as u32 + panes[1].width as u32 + panes[2].width as u32;
    let before: u32 = drawn(weights[0], panes[0]) + drawn(weights[1], panes[1]) + drawn(
        weights[2],
        panes[2],
    );
    let next: [u16; 3] = if index == 0 {
        [near, far, restate(weights[2], panes[2], cells, before)]
    } else {
        [restate(weights[0], panes[0], cells, before), near, far]
    };
    proof {
        assert(next@ =~= shared(panes@, weights@, index as int, x as int));
    }
    next
}

impl Screen {
    /// The screen at the start, before anything was drawn.
    pub open spec fn starting() -> Screen {
        let none = Rect { x: 0, y: 0, width: 0, height: 0 };
        Screen {
            scroll: 0,
            hscroll: 0,
            focus: Pane::Files,
            quit: false,
            notice_until: None,
            prompt: None,
            stale: false,
            disk_stamp: None,
            selecting: None,
            old_selection: None,
            edge_drag: None,
            panes: [none, none, none],
            body: none,
            viewport_height: 1,
            weights: [26u16, 37, 37],
            files_hidden: false,
            drag: None,
            settings: None,
            typed_at: None,
            help: false,
            help_scroll: 0,
            buttons: [none, none],
            longest: 0,
            longest_old: 0,
            list_offset: 0,
        }
    }

    pub fn start() -> (screen: Screen)
        ensures
            screen == Self::starting(),
    {
        Screen {
            scroll: 0,
            hscroll: 0,
            focus: Pane::Files,
            quit: false,
            notice_until: None,
            prompt: None,
            stale: false,
            disk_stamp: None,
            selecting: None,
            old_selection: None,
            edge_drag: None,
            panes: [Rect::zero(), Rect::zero(), Rect::zero()],
            body: Rect::zero(),
            viewport_height: 1,
            weights: [26, 37, 37],
            files_hidden: false,
            drag: None,
            settings: None,
            typed_at: None,
            help: false,
            help_scroll: 0,
            buttons: [Rect::zero(), Rect::zero()],
            longest: 0,
            longest_old: 0,
            list_offset: 0,
        }
    }

    /// The pane focus falls back to when leaving the editor: the file list unless
    /// it is hidden.
    pub open spec fn home(self) -> Pane {
        if self.files_hidden {
            Pane::Old
        } else {
            Pane::Files
        }
    }

    pub fn home_pane(&self) -> (pane: Pane)
        ensures
            pane == self.home(),
    {
        if self.files_hidden {
            Pane::Old
        } else {
            Pane::Files
        }
    }

    /// Focus on the next pane there is.
    pub open spec fn cycled(self) -> Screen {
        let next = pane_after(self.focus);
        Screen {
            focus: if next == Pane::Files && self.files_hidden {
                Pane::Old
            } else {
                next
            },
            ..self
        }
    }

    pub fn cycle_pane(&mut self)
        ensures
            *final(self) == old(self).cycled(),
    {
        let next = next_pane(self.focus);
        self.focus = if next == Pane::Files && self.files_hidden {
            Pane::Old
        } else {
            next
        };
    }

    /// The file list hidden or shown. Bringing it back is a step towards picking a
    /// file, so focus follows it; hiding it only has to move focus off a pane that
    /// is no longer drawn.
    pub open spec fn toggled(self) -> Screen {
        Screen {
            files_hidden: !self.files_hidden,
            focus: if self.files_hidden {
                Pane::Files
            } else if self.focus == Pane::Files {
                Pane::New
            } else {
                self.focus
            },
            ..self
        }
    }

    pub fn toggle_files(&mut self)
        ensures
            *final(self) == old(self).toggled(),
    {
        self.files_hidden = !self.files_hidden;
        if !self.files_hidden {
            self.focus = Pane::Files;
        } else if self.focus == Pane::Files {
            self.focus = Pane::New;
        }
    }

    /// The area a pane was drawn in.
    pub open spec fn area_of(self, pane: Pane) -> Rect {
        match pane {
            Pane::Files => self.panes@[0],
            Pane::Old => self.panes@[1],
            Pane::New => self.panes@[2],
        }
    }

    pub fn rect(&self, pane: Pane) -> (rect: Rect)
        ensures
            rect == self.area_of(pane),
    {
        match pane {
            Pane::Files => self.panes[0],
            Pane::Old => self.panes[1],
            Pane::New => self.panes[2],
        }
    }

    /// The weights once a divider was dragged to a column.
    pub open spec fn dragged(self, index: int, x: int) -> Seq<u16> {
        shared(self.panes@, self.weights@, index, x)
    }

    /// Move a divider to a column, taking width from the pane on the other side so
    /// the pair keeps the room it had. Every drawn weight is restated in cells, or
    /// the untouched pane keeps a weight in the old units and the ratio shifts
    /// under it; a hidden pane, which has no width to read, is scaled by the same
    /// factor or it comes back a different size.
    pub fn drag_divider(&mut self, index: usize, x: u16)
        requires
            index < 2,
        ensures
            final(self).weights@ == old(self).dragged(index as int, x as int),
            *final(self) == (Screen { weights: final(self).weights, ..*old(self) }),
    {
        let ghost wanted = self.dragged(index as int, x as int);
        let weights = moved(self.panes, self.weights, index, x);
        self.weights = weights;
        proof {
            assert(self.weights@ =~= wanted);
        }
    }

    /// Both borders that meet at a divider are part of it, so the grab area is two
    /// cells wide rather than one.
    pub open spec fn grabs(self, index: int, at: Position) -> bool {
        let edge = self.panes@[index + 1].x;
        self.panes@[index].width > 0 && (at.x == edge || at.x + 1 == edge)
    }

    pub open spec fn divider(self, at: Position) -> Option<usize> {
        if !self.body.holds(at) {
            None
        } else if self.grabs(0, at) {
            Some(0usize)
        } else if self.grabs(1, at) {
            Some(1usize)
        } else {
            None
        }
    }

    /// The divider under a cell, if any.
    pub fn divider_at(&self, at: Position) -> (index: Option<usize>)
        ensures
            index == self.divider(at),
    {
        if !self.body.contains(at) {
            return None;
        }
        let x: u32 = at.x as u32;
        let first: u32 = self.panes[1].x as u32;
        if self.panes[0].width > 0 && (x == first || x + 1 == first) {
            return Some(0);
        }
        let second: u32 = self.panes[2].x as u32;
        if self.panes[1].width > 0 && (x == second || x + 1 == second) {
            return Some(1);
        }
        None
    }

    pub open spec fn pane_under(self, at: Position) -> Option<Pane> {
        if self.panes@[0].holds(at) {
            Some(Pane::Files)
        } else if self.panes@[1].holds(at) {
            Some(Pane::Old)
        } else if self.panes@[2].holds(at) {
            Some(Pane::New)
        } else {
            None
        }
    }

    /// The pane under a cell, if any.
    pub fn pane_at(&self, at: Position) -> (pane: Option<Pane>)
        ensures
            pane == self.pane_under(at),
    {
        if self.panes[0].contains(at) {
            Some(Pane::Files)
        } else if self.panes[1].contains(at) {
            Some(Pane::Old)
        } else if self.panes[2].contains(at) {
            Some(Pane::New)
        } else {
            None
        }
    }

    pub open spec fn button_under(self, at: Position) -> Option<usize> {
        if self.buttons@[0].holds(at) {
            Some(0usize)
        } else if self.buttons@[1].holds(at) {
            Some(1usize)
        } else {
            None
        }
    }

    /// The footer button under a cell, if any.
    pub fn button_at(&self, at: Position) -> (index: Option<usize>)
        ensures
            index == self.button_under(at),
    {
        if self.buttons[0].contains(at) {
            Some(0)
        } else if self.buttons[1].contains(at) {
            Some(1)
        } else {
            None
        }
    }

    /// Focus follows the pointer, unless it is over the file list, which has
    /// nothing to scroll sideways and no reason to take focus from a diff gesture.
    pub open spec fn following(self, over: Option<Pane>) -> Screen {
        match over {
            Some(pane) => if pane != Pane::Files {
                Screen { focus: pane, ..self }
            } else {
                self
            },
            None => self,
        }
    }

    pub fn focus_diff(&mut self, over: Option<Pane>)
        ensures
            *final(self) == old(self).following(over),
    {
        if let Some(pane) = over {
            if pane != Pane::Files {
                self.focus = pane;
            }
        }
    }

    /// A click on a footer button: each opens its panel and closes the other, or
    /// closes its own.
    pub open spec fn pressed(self, index: int) -> Screen {
        if index == 0 {
            Screen {
                help: false,
                settings: if self.settings is None {
                    Some(0usize)
                } else {
                    None
                },
                ..self
            }
        } else {
            Screen { settings: None, help: !self.help, ..self }
        }
    }

    pub fn press_button(&mut self, index: usize)
        ensures
            *final(self) == old(self).pressed(index as int),
    {
        if index == 0 {
            self.help = false;
            self.settings = if self.settings.is_none() {
                Some(0)
            } else {
                None
            };
        } else {
            self.settings = None;
            self.help = !self.help;
        }
    }

    /// A drag is being held past a pane edge and the view can still move.
    pub open spec fn past_edge(self) -> bool {
        self.selecting is Some && self.edge_drag is Some
    }

    pub fn dragging_past_edge(&self) -> (held: bool)
        ensures
            held == self.past_edge(),
    {
        self.selecting.is_some() && self.edge_drag.is_some()
    }
}

/// A place before another in the text.
fn comes_before(a: (usize, usize), b: (usize, usize)) -> (found: bool)
    ensures
        found == crate::area::earlier((a.0 as int, a.1 as int), (b.0 as int, b.1 as int)),
{
    a.0 < b.0 || (a.0 == b.0 && a.1 < b.1)
}

/// A selection sorted, or none when it covers nothing.
pub open spec fn covering(selection: Option<Selection>) -> Option<Selection> {
    match selection {
        Some((a, b)) => if a == b {
            None
        } else if crate::area::earlier((b.0 as int, b.1 as int), (a.0 as int, a.1 as int)) {
            Some((b, a))
        } else {
            Some((a, b))
        },
        None => None,
    }
}

/// A selection sorted, or none when it covers nothing.
pub fn sorted_selection(selection: Option<Selection>) -> (sorted: Option<Selection>)
    ensures
        sorted == covering(selection),
{
    match selection {
        Some((a, b)) => if a.0 == b.0 && a.1 == b.1 {
            None
        } else if comes_before(b, a) {
            Some((b, a))
        } else {
            Some((a, b))
        },
        None => None,
    }
}

// ---- Laws ----------------------------------------------------------------

/// A divider drag keeps the room of the two panes beside it, and leaves neither
/// narrower than is readable.
pub proof fn a_drag_keeps_the_pairs_room(screen: Screen, index: int, x: int)
    requires
        0 <= index < 2,
        screen.panes@[index].width + screen.panes@[index + 1].width >= MIN_PANE * 2,
        screen.panes@[index].width + screen.panes@[index + 1].width <= u16::MAX,
    ensures
        ({
            let weights = screen.dragged(index, x);
            &&& weights[index] + weights[index + 1] == screen.panes@[index].width
                + screen.panes@[index + 1].width
            &&& weights[index] >= MIN_PANE
            &&& weights[index + 1] >= MIN_PANE
        }),
{
}

/// Going round the panes comes back after all that are shown, whatever pane it
/// starts from: three, or two while the file list is hidden.
pub proof fn cycling_comes_back(screen: Screen)
    ensures
        !screen.files_hidden ==> screen.cycled().cycled().cycled() == screen,
        screen.files_hidden && screen.focus != Pane::Files ==> screen.cycled().cycled() == screen,
        screen.files_hidden ==> screen.cycled().focus != Pane::Files,
{
}

/// Hiding the file list never leaves focus on a pane that is not drawn.
pub proof fn focus_is_always_on_a_pane_that_is_drawn(screen: Screen)
    ensures
        screen.toggled().files_hidden ==> screen.toggled().focus != Pane::Files,
        !screen.toggled().files_hidden ==> screen.toggled().focus == Pane::Files,
        screen.files_hidden ==> screen.home() != Pane::Files,
{
}

/// A divider goes to the column it is dragged to, where that leaves eight columns on
/// either side of it, and else to the eighth column from the side it is dragged to. A
/// pane that is drawn and not beside it keeps its width.
pub proof fn a_divider_goes_to_the_pointer(screen: Screen, index: int, x: int)
    requires
        0 <= index < 2,
        screen.panes@[index].width + screen.panes@[index + 1].width >= 16,
        screen.panes@[index].width + screen.panes@[index + 1].width <= u16::MAX,
    ensures
        ({
            let left = screen.panes@[index];
            let total = left.width + screen.panes@[index + 1].width;
            let weights = screen.dragged(index, x);
            let third = if index == 0 {
                2int
            } else {
                0int
            };
            &&& left.x + 8 <= x <= left.x + total - 8 ==> weights[index] == x - left.x
            &&& x < left.x + 8 ==> weights[index] == 8
            &&& x > left.x + total - 8 ==> weights[index + 1] == 8
            &&& weights[index] + weights[index + 1] == total
            &&& screen.panes@[third].width > 0 ==> weights[third] == screen.panes@[third].width
        }),
{
}

/// A pane that is not drawn keeps its share of the room beside the panes that are: its
/// weight changes by the factor that their weights change by, rounded down to a whole
/// number that is at least one.
pub proof fn a_hidden_pane_keeps_its_share(screen: Screen, x: int)
    requires
        screen.panes@[0].width == 0,
        16 <= screen.panes@[1].width + screen.panes@[2].width <= u16::MAX,
        screen.panes@[1].width > 0,
        screen.panes@[2].width > 0,
        screen.weights@[1] + screen.weights@[2] > 0,
        screen.weights@[0] * (screen.panes@[1].width + screen.panes@[2].width) <= u16::MAX * (
        screen.weights@[1] + screen.weights@[2]),
    ensures
        ({
            let before = screen.weights@[1] + screen.weights@[2];
            let weights = screen.dragged(1, x);
            let after = weights[1] + weights[2];
            let exact = screen.weights@[0] * after;
            &&& weights[0] >= 1
            &&& weights[0] > 1 ==> weights[0] * before <= exact
            &&& exact < (weights[0] + 1) * before
        }),
{
    let cells = screen.panes@[1].width + screen.panes@[2].width;
    let before = screen.weights@[1] + screen.weights@[2];
    let exact = screen.weights@[0] * cells;
    let q = exact / before;
    assert(q * before <= exact < (q + 1) * before && 0 <= q <= 65535) by (nonlinear_arith)
        requires
            before > 0,
            0 <= exact <= 65535 * before,
            q == exact / before,
    ;
    assert(widths_of(screen.panes@) == cells);
    assert(drawn_weights(screen.weights@, screen.panes@) == before);
    let weights = screen.dragged(1, x);
    assert(weights[1] + weights[2] == cells);
    assert(weights[0] == (if q >= 1 {
        q
    } else {
        1
    }));
    if q < 1 {
        assert(exact < 2 * before);
    }
}

/// The pane under the pointer is one whose area the pointer is in, and where there is none
/// it is in no area.
pub proof fn the_pane_under_the_pointer_holds_it(screen: Screen, at: Position)
    requires
        forall|i: int| 0 <= i < 3 ==> (#[trigger] screen.panes@[i]).x + screen.panes@[i].width
            <= u16::MAX && screen.panes@[i].y + screen.panes@[i].height <= u16::MAX,
    ensures
        screen.pane_under(at) is Some ==> {
            let area = screen.area_of(screen.pane_under(at)->0);
            area.x <= at.x < area.x + area.width && area.y <= at.y < area.y + area.height
        },
        screen.pane_under(at) is None ==> forall|i: int|
            0 <= i < 3 ==> {
                let area = #[trigger] screen.panes@[i];
                !(area.x <= at.x < area.x + area.width && area.y <= at.y < area.y + area.height)
            },
{
    assert(screen.panes@[0].x + screen.panes@[0].width <= u16::MAX);
    assert(screen.panes@[1].x + screen.panes@[1].width <= u16::MAX);
    assert(screen.panes@[2].x + screen.panes@[2].width <= u16::MAX);
}

/// A divider is grabbed on the two columns that meet at it, if the pane before it is
/// drawn, and nowhere else.
pub proof fn a_divider_is_grabbed_at_its_columns(screen: Screen, at: Position, index: int)
    requires
        0 <= index < 2,
        screen.body.holds(at),
    ensures
        screen.divider(at) == Some(index as usize) ==> screen.panes@[index].width > 0 && (at.x
            == screen.panes@[index + 1].x || at.x == screen.panes@[index + 1].x - 1),
        screen.panes@[index].width > 0 && (at.x == screen.panes@[index + 1].x || at.x
            == screen.panes@[index + 1].x - 1) ==> screen.divider(at) is Some,
{
}

/// A selection runs from its earlier end to its later one, whichever was first, and covers
/// nothing where they are the same.
pub proof fn a_selection_runs_forward(a: (usize, usize), b: (usize, usize))
    ensures
        covering(Some((a, b))) == covering(Some((b, a))),
        covering(Some((a, b))) is None <==> a == b,
        covering(Some((a, b))) is Some ==> {
            let (from, to) = covering(Some((a, b)))->0;
            &&& from.0 < to.0 || (from.0 == to.0 && from.1 < to.1)
            &&& (from == a && to == b) || (from == b && to == a)
        },
{
}

/// A view that is scrolled goes as far as it is told, and stops at both ends.
pub proof fn scrolling_goes_as_far_as_told(from: int, delta: int, furthest: int)
    requires
        0 <= furthest,
    ensures
        0 <= stepped(from, delta, furthest) <= furthest,
        0 <= from + delta <= furthest ==> stepped(from, delta, furthest) == from + delta,
        from + delta < 0 ==> stepped(from, delta, furthest) == 0,
        from + delta > furthest ==> stepped(from, delta, furthest) == furthest,
{
}

/// The button of a panel opens it, closes the other, and closes it again.
pub proof fn a_button_opens_and_closes(screen: Screen)
    ensures
        screen.settings is None ==> screen.pressed(0).settings == Some(0usize),
        screen.settings is Some ==> screen.pressed(0).settings is None,
        !screen.pressed(0).help,
        screen.pressed(1).help == !screen.help,
        screen.pressed(1).settings is None,
        screen.pressed(0).focus == screen.focus && screen.pressed(1).focus == screen.focus,
{
}

/// Focus goes from the file list to the Before side, to the Current side and round again.
pub proof fn focus_goes_from_left_to_right(screen: Screen)
    ensures
        screen.focus == Pane::Files ==> screen.cycled().focus == Pane::Old,
        screen.focus == Pane::Old ==> screen.cycled().focus == Pane::New,
        screen.focus == Pane::New ==> screen.cycled().focus == screen.home(),
        screen.home() == Pane::Files <==> !screen.files_hidden,
        screen.toggled().toggled().files_hidden == screen.files_hidden,
        screen.toggled().files_hidden != screen.files_hidden,
{
}

} // verus!

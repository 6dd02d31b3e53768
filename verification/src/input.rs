//! Keys, the mouse, and cells of the terminal.
use vstd::prelude::*;

verus! {

/// A key of the keyboard. The keys that have no part in the program are all one.
#[derive(Debug, Clone, Copy, PartialEq, Eq, Structural)]
pub enum Key {
    Char(char),
    Enter,
    Esc,
    Backspace,
    Delete,
    Tab,
    BackTab,
    Up,
    Down,
    Left,
    Right,
    Home,
    End,
    PageUp,
    PageDown,
    Other,
}

/// A key with the modifiers that were held.
#[derive(Debug, Clone, Copy, PartialEq, Eq, Structural)]
pub struct KeyPress {
    pub code: Key,
    pub ctrl: bool,
    pub alt: bool,
    pub shift: bool,
}

/// One cell of the terminal.
#[derive(Debug, Clone, Copy, PartialEq, Eq, Structural)]
pub struct Position {
    pub x: u16,
    pub y: u16,
}

/// An area of the terminal.
#[derive(Debug, Clone, Copy, PartialEq, Eq, Structural)]
pub struct Rect {
    pub x: u16,
    pub y: u16,
    pub width: u16,
    pub height: u16,
}

impl Rect {
    /// The column after the last, as far as there are columns.
    pub open spec fn right_edge(self) -> int {
        if self.x + self.width <= u16::MAX {
            self.x + self.width
        } else {
            u16::MAX as int
        }
    }

    /// The row after the last, as far as there are rows.
    pub open spec fn bottom_edge(self) -> int {
        if self.y + self.height <= u16::MAX {
            self.y + self.height
        } else {
            u16::MAX as int
        }
    }

    pub open spec fn holds(self, at: Position) -> bool {
        self.x <= at.x < self.right_edge() && self.y <= at.y < self.bottom_edge()
    }

    /// The column after the last.
    pub fn right(self) -> (edge: u16)
        ensures
            edge == self.right_edge(),
    {
        self.x.saturating_add(self.width)
    }

    /// The row after the last.
    pub fn bottom(self) -> (edge: u16)
        ensures
            edge == self.bottom_edge(),
    {
        self.y.saturating_add(self.height)
    }

    /// Whether a cell is in the area.
    pub fn contains(self, at: Position) -> (inside: bool)
        ensures
            inside == self.holds(at),
    {
        at.x >= self.x && at.x < self.right() && at.y >= self.y && at.y < self.bottom()
    }

    /// No area at all.
    pub fn zero() -> (rect: Rect)
        ensures
            rect == (Rect { x: 0, y: 0, width: 0, height: 0 }),
    {
        Rect { x: 0, y: 0, width: 0, height: 0 }
    }
}

/// A button of the mouse.
#[derive(Debug, Clone, Copy, PartialEq, Eq, Structural)]
pub enum Button {
    Left,
    Right,
    Middle,
}

/// What the mouse did.
#[derive(Debug, Clone, Copy, PartialEq, Eq, Structural)]
pub enum MouseKind {
    Down(Button),
    Up(Button),
    Drag(Button),
    Moved,
    ScrollUp,
    ScrollDown,
    ScrollLeft,
    ScrollRight,
}

/// What the mouse did, where, and with what held.
#[derive(Debug, Clone, Copy, PartialEq, Eq, Structural)]
pub struct Mouse {
    pub kind: MouseKind,
    pub at: Position,
    pub ctrl: bool,
    pub alt: bool,
    pub shift: bool,
}

} // verus!

//! Where panes stand, and their kinds.

use vstd::prelude::*;

verus! {

/// The place of a pane: its window, and its column and row in it.
#[derive(Clone, Debug, PartialEq, Eq, Hash, Structural)]
pub struct PaneLocation {
    pub window: u16,
    pub x: u16,
    pub y: u16,
}

impl Default for PaneLocation {
    /// The first pane of the first window.
    fn default() -> (l: PaneLocation)
        ensures
            l == (PaneLocation { window: 1, x: 0, y: 0 }),
    {
        PaneLocation { window: 1, x: 0, y: 0 }
    }
}

impl PaneLocation {
    /// The place in window `window`, column `x`, row `y`.
    pub fn new(window: u16, x: u16, y: u16) -> (l: PaneLocation)
        ensures
            l == (PaneLocation { window, x, y }),
    {
        PaneLocation { window, x, y }
    }

    /// This place moved `x` columns right.
    pub fn plus_x(self, x: u16) -> (l: PaneLocation)
        requires
            self.x + x <= u16::MAX,
        ensures
            l == (PaneLocation { x: (self.x + x) as u16, ..self }),
    {
        PaneLocation { x: self.x + x, ..self }
    }

    /// This place moved `y` rows down.
    pub fn plus_y(self, y: u16) -> (l: PaneLocation)
        requires
            self.y + y <= u16::MAX,
        ensures
            l == (PaneLocation { y: (self.y + y) as u16, ..self }),
    {
        PaneLocation { y: self.y + y, ..self }
    }

    /// This place moved `window` windows on.
    pub fn plus_window(self, window: u16) -> (l: PaneLocation)
        requires
            self.window + window <= u16::MAX,
        ensures
            l == (PaneLocation { window: (self.window + window) as u16, ..self }),
    {
        PaneLocation { window: self.window + window, ..self }
    }

    /// This place in column `x`.
    pub fn x(self, x: u16) -> (l: PaneLocation)
        ensures
            l == (PaneLocation { x, ..self }),
    {
        PaneLocation { x, ..self }
    }

    /// This place in row `y`.
    pub fn y(self, y: u16) -> (l: PaneLocation)
        ensures
            l == (PaneLocation { y, ..self }),
    {
        PaneLocation { y, ..self }
    }

    /// This place in window `window`.
    pub fn window(self, window: u16) -> (l: PaneLocation)
        ensures
            l == (PaneLocation { window, ..self }),
    {
        PaneLocation { window, ..self }
    }

    /// Whether this place is in the window of `location`.
    pub fn in_window_of(&self, location: &PaneLocation) -> (b: bool)
        ensures
            b == (self.window == location.window),
    {
        self.window == location.window
    }

    /// Whether this place is in the window and column of `location`.
    pub fn x_in_window_of(&self, location: &PaneLocation) -> (b: bool)
        ensures
            b == (self.window == location.window && self.x == location.x),
    {
        self.window == location.window && self.x == location.x
    }

    /// Whether this place is in the window and row of `location`.
    pub fn y_in_window_of(&self, location: &PaneLocation) -> (b: bool)
        ensures
            b == (self.window == location.window && self.y == location.y),
    {
        self.window == location.window && self.y == location.y
    }
}

/// How a place is compared with another: by window alone, or by window
/// and column, or by window and row.
#[derive(Debug, Clone, Copy, PartialEq, Eq, Structural)]
pub enum Along {
    Window,
    Column,
    Row,
}

/// Whether the place `l` lies with `location` as `along` compares them.
pub open spec fn lies_along(l: PaneLocation, location: PaneLocation, along: Along) -> bool {
    match along {
        Along::Window => l.window == location.window,
        Along::Column => l.window == location.window && l.x == location.x,
        Along::Row => l.window == location.window && l.y == location.y,
    }
}

/// The entries of `entries` whose place lies with `location` as `along`
/// compares them, in their order.
pub fn panes_along<'a, T: Copy>(
    entries: &Vec<(&'a PaneLocation, T)>,
    location: &PaneLocation,
    along: Along,
) -> (out: Vec<(&'a PaneLocation, T)>)
    ensures
        out@ == entries@.filter(|e: (&'a PaneLocation, T)| lies_along(*e.0, *location, along)),
{
    let ghost pred = |e: (&'a PaneLocation, T)| lies_along(*e.0, *location, along);
    let mut out: Vec<(&'a PaneLocation, T)> = Vec::new();
    let mut i: usize = 0;
    proof {
        reveal(Seq::filter);
        assert(entries@.take(0) =~= Seq::<(&'a PaneLocation, T)>::empty());
    }
    while i < entries.len()
        invariant
            i <= entries@.len(),
            pred == (|e: (&'a PaneLocation, T)| lies_along(*e.0, *location, along)),
            out@ == entries@.take(i as int).filter(pred),
        decreases entries@.len() - i,
    {
        let e = entries[i];
        let keep = match along {
            Along::Window => e.0.in_window_of(location),
            Along::Column => e.0.x_in_window_of(location),
            Along::Row => e.0.y_in_window_of(location),
        };
        proof {
            reveal(Seq::filter);
            assert(entries@.take(i + 1).drop_last() =~= entries@.take(i as int));
            assert(entries@.take(i + 1).last() == e);
        }
        if keep {
            out.push(e);
        }
        i += 1;
    }
    assert(entries@.take(entries@.len() as int) =~= entries@);
    out
}

/// The entry at `idx` of `content` as a cursor over it yields it: the entry
/// where `idx` is short of the length, nothing where it is past it.
pub fn entry_at<T: Copy>(content: &Vec<T>, idx: usize) -> (r: Option<T>)
    requires
        idx != content@.len(),
    ensures
        idx < content@.len() ==> r == Some(content@[idx as int]),
        idx > content@.len() ==> r is None,
{
    if content.len() >= idx {
        Some(content[idx])
    } else {
        None
    }
}

/// The kind of a pane.
#[derive(Debug, Clone, Copy, PartialEq, Eq, Structural)]
pub enum PaneType {
    Normal,
    /// shows the shell's own debug messages
    Debug,
}

/// The input mode of a pane.
#[derive(Debug, Clone, Copy, PartialEq, Eq, Structural)]
pub enum PaneMode {
    Normal,
}

} // verus!

//! Rectangles of terminal cells, and the split of an area into columns.

use vstd::prelude::*;

verus! {

/// A rectangle of terminal cells: the cell `(x, y)` is its top left one.
#[derive(Clone, Copy, Debug, PartialEq, Eq, Structural)]
pub struct Rect {
    pub x: u16,
    pub y: u16,
    pub width: u16,
    pub height: u16,
}

impl Default for Rect {
    fn default() -> (rect: Rect)
        ensures
            rect == (Rect { x: 0, y: 0, width: 0, height: 0 }),
    {
        Rect { x: 0, y: 0, width: 0, height: 0 }
    }
}

impl Rect {
    /// The column just right of the rectangle.
    pub open spec fn right_edge(self) -> int {
        self.x + self.width
    }

    /// The row just below the rectangle.
    pub open spec fn bottom_edge(self) -> int {
        self.y + self.height
    }

    /// Both far edges are coordinates: the rectangle lies on the grid that
    /// `u16` spans.
    pub open spec fn on_grid(self) -> bool {
        self.right_edge() <= u16::MAX && self.bottom_edge() <= u16::MAX
    }

    /// The two rectangles share a stretch of columns and a stretch of rows,
    /// be it an empty one.
    pub open spec fn meets(self, other: Rect) -> bool {
        &&& self.x <= other.right_edge()
        &&& other.x <= self.right_edge()
        &&& self.y <= other.bottom_edge()
        &&& other.y <= self.bottom_edge()
    }

    /// The leftmost column.
    pub fn left(self) -> (x: u16)
        ensures
            x == self.x,
    {
        self.x
    }

    /// The column just right of the rectangle, or the last column of the
    /// grid where the rectangle reaches beyond it.
    pub fn right(self) -> (x: u16)
        ensures
            x == if self.right_edge() > u16::MAX {
                u16::MAX as int
            } else {
                self.right_edge()
            },
    {
        if self.width > u16::MAX - self.x {
            u16::MAX
        } else {
            self.x + self.width
        }
    }

    /// The cells that both rectangles hold.
    pub fn intersection(self, other: Rect) -> (common: Rect)
        requires
            self.on_grid(),
            other.on_grid(),
            self.meets(other),
        ensures
            common.x == if self.x >= other.x {
                self.x
            } else {
                other.x
            },
            common.y == if self.y >= other.y {
                self.y
            } else {
                other.y
            },
            common.right_edge() == if self.right_edge() <= other.right_edge() {
                self.right_edge()
            } else {
                other.right_edge()
            },
            common.bottom_edge() == if self.bottom_edge() <= other.bottom_edge() {
                self.bottom_edge()
            } else {
                other.bottom_edge()
            },
    {
        let x1: u16 = if self.x >= other.x {
            self.x
        } else {
            other.x
        };
        let y1: u16 = if self.y >= other.y {
            self.y
        } else {
            other.y
        };
        let x2: u16 = if self.x + self.width <= other.x + other.width {
            self.x + self.width
        } else {
            other.x + other.width
        };
        let y2: u16 = if self.y + self.height <= other.y + other.height {
            self.y + self.height
        } else {
            other.y + other.height
        };
        Rect { x: x1, y: y1, width: x2 - x1, height: y2 - y1 }
    }
}

/// How wide a column is asked to be.
#[derive(Clone, Copy, Debug, PartialEq, Eq)]
pub enum Span {
    /// As wide as this, if the room allows.
    Length(u16),
    /// No narrower than this, and as wide as the room that is left.
    Min(u16),
}

/// Splits `area` into columns, left to right, one for each span.
///
/// The columns come from `tui::layout::Layout::split`, called for a
/// horizontal layout without margins. It settles them with a constraint
/// solver; nothing is claimed of them here, and whoever calls this has to
/// look at what came back. The area has to lie on the grid: for one that
/// reaches beyond it the solver finds no answer, and the call does not
/// return.
#[verifier::external_body]
pub(crate) fn split_columns(area: Rect, spans: &Vec<Span>) -> (columns: Vec<Rect>)
    requires
        area.on_grid(),
{
    let constraints: Vec<tui::layout::Constraint> = spans
        .iter()
        .map(|span| match span {
            Span::Length(cells) => tui::layout::Constraint::Length(*cells),
            Span::Min(cells) => tui::layout::Constraint::Min(*cells),
        })
        .collect();
    let area = tui::layout::Rect { x: area.x, y: area.y, width: area.width, height: area.height };
    tui::layout::Layout::default()
        .direction(tui::layout::Direction::Horizontal)
        .constraints(constraints)
        .split(area)
        .into_iter()
        .map(|r| Rect { x: r.x, y: r.y, width: r.width, height: r.height })
        .collect()
}

} // verus!

//! Cell coordinates on the terminal grid.
use vstd::prelude::*;

verus! {

/// The extent of a block of terminal cells.
#[derive(Clone, Copy, Debug, PartialEq, Eq, Structural)]
pub struct Size {
    pub width: u16,
    pub height: u16,
}

/// A rectangle of terminal cells whose right and bottom edges are `u16` coordinates.
#[derive(Clone, Copy, Debug, PartialEq, Eq, Structural)]
pub struct Rect {
    pub(crate) x: u16,
    pub(crate) y: u16,
    pub(crate) width: u16,
    pub(crate) height: u16,
}

/// What a [`Rect`] covers, as numbers.
pub ghost struct Area {
    pub x: nat,
    pub y: nat,
    pub width: nat,
    pub height: nat,
}

impl Area {
    /// Whether the cell in column `x` of row `y` belongs to the area.
    pub open spec fn covers(self, x: int, y: int) -> bool {
        &&& self.x <= x < self.x + self.width
        &&& self.y <= y < self.y + self.height
    }

    /// The extent without the position.
    pub open spec fn size(self) -> Size {
        Size { width: self.width as u16, height: self.height as u16 }
    }

    /// Whether the area has any cells.
    pub open spec fn has_cells(self) -> bool {
        self.width > 0 && self.height > 0
    }

    /// Whether no edge lies beyond the last `u16` coordinate.
    pub open spec fn inside_grid(self) -> bool {
        &&& self.x + self.width <= u16::MAX
        &&& self.y + self.height <= u16::MAX
    }
}

impl View for Rect {
    type V = Area;

    closed spec fn view(&self) -> Area {
        Area {
            x: self.x as nat,
            y: self.y as nat,
            width: self.width as nat,
            height: self.height as nat,
        }
    }
}

/// `width` cut to what still fits to the right of `x`.
pub open spec fn clamped(x: u16, width: u16) -> nat {
    if x + width <= u16::MAX {
        width as nat
    } else {
        (u16::MAX - x) as nat
    }
}

impl Rect {
    /// What holds of every rectangle.
    #[verifier::type_invariant]
    pub open spec fn valid(self) -> bool {
        self@.inside_grid()
    }

    /// A rectangle with its top-left cell at (`x`, `y`); a width or height that would leave the
    /// grid is cut at its edge.
    pub fn new(x: u16, y: u16, width: u16, height: u16) -> (area: Rect)
        ensures
            area@ == (Area {
                x: x as nat,
                y: y as nat,
                width: clamped(x, width),
                height: clamped(y, height),
            }),
            area@.width == if width <= u16::MAX - x {
                width as int
            } else {
                u16::MAX - x
            },
            area@.height == if height <= u16::MAX - y {
                height as int
            } else {
                u16::MAX - y
            },
    {
        let room_right: u16 = u16::MAX - x;
        let room_below: u16 = u16::MAX - y;
        Rect {
            x,
            y,
            width: if width <= room_right {
                width
            } else {
                room_right
            },
            height: if height <= room_below {
                height
            } else {
                room_below
            },
        }
    }

    pub fn width(&self) -> (width: u16)
        ensures
            width == self@.width,
            self@.inside_grid(),
    {
        proof {
            use_type_invariant(self);
        }
        self.width
    }

    pub fn height(&self) -> (height: u16)
        ensures
            height == self@.height,
            self@.inside_grid(),
    {
        proof {
            use_type_invariant(self);
        }
        self.height
    }

    /// The first column.
    pub fn left(&self) -> (x: u16)
        ensures
            x == self@.x,
            self@.inside_grid(),
    {
        proof {
            use_type_invariant(self);
        }
        self.x
    }

    /// The first row.
    pub fn top(&self) -> (y: u16)
        ensures
            y == self@.y,
            self@.inside_grid(),
    {
        proof {
            use_type_invariant(self);
        }
        self.y
    }

    /// The column after the last one.
    pub fn right(&self) -> (x: u16)
        ensures
            x == self@.x + self@.width,
            self@.inside_grid(),
    {
        proof {
            use_type_invariant(self);
        }
        self.x + self.width
    }

    /// The row after the last one.
    pub fn bottom(&self) -> (y: u16)
        ensures
            y == self@.y + self@.height,
            self@.inside_grid(),
    {
        proof {
            use_type_invariant(self);
        }
        self.y + self.height
    }

    /// The extent without the position.
    pub fn size(&self) -> (size: Size)
        ensures
            size == self@.size(),
    {
        Size { width: self.width, height: self.height }
    }
}

} // verus!

//! The outline of a box drawn in a grid of characters: which cell gets
//! which line-drawing character.

use vstd::prelude::*;

verus! {

/// The part of a box's outline that a cell shows.
#[derive(Debug, Clone, Copy, PartialEq, Eq, Structural)]
pub enum BoxSide {
    NWCorner,
    Horz,
    NECorner,
    Vert,
    SWCorner,
    SECorner,
}

/// Where a coordinate lies along a side of length `size`: 0 at the start,
/// 2 at the end, 1 anywhere else.
pub open spec fn place_along(delta: usize, size: usize) -> int {
    if delta == 0 {
        0
    } else if delta == size - 1 {
        2
    } else {
        1
    }
}

/// Whether the cell at `(dx, dy)` lies on the outline of a box of the given
/// size, as far as `from_delta_in_box` can name its part: it is at the
/// start or the end of the box in at least one direction.
pub open spec fn on_outline(dx: usize, dy: usize, width: usize, height: usize) -> bool {
    place_along(dx, width) != 1 || place_along(dy, height) != 1
}

/// The part of the outline that the cell at `(dx, dy)` shows.
pub open spec fn side_at(dx: usize, dy: usize, width: usize, height: usize) -> BoxSide {
    let kx = place_along(dx, width);
    let ky = place_along(dy, height);
    if kx == 1 {
        BoxSide::Horz
    } else if ky == 1 {
        BoxSide::Vert
    } else if kx == 0 && ky == 0 {
        BoxSide::NWCorner
    } else if kx == 2 && ky == 0 {
        BoxSide::NECorner
    } else if kx == 0 {
        BoxSide::SWCorner
    } else {
        BoxSide::SECorner
    }
}

/// The cells of row `y` that belong to the outline: the whole row at the
/// top and at the bottom, the two ends of the row in between.
pub open spec fn outline_row(width: usize, height: usize, y: int) -> Seq<(usize, usize)> {
    if y == 0 || y == height - 1 {
        Seq::new(width as nat, |x: int| (x as usize, y as usize))
    } else {
        seq![(0usize, y as usize), ((width - 1) as usize, y as usize)]
    }
}

/// The cells of the outline in the rows above row `rows`, row by row.
pub open spec fn outline(width: usize, height: usize, rows: int) -> Seq<(usize, usize)>
    decreases rows,
{
    if rows <= 0 {
        Seq::empty()
    } else {
        outline(width, height, rows - 1) + outline_row(width, height, rows - 1)
    }
}

impl BoxSide {
    /// The character that draws this part, in double lines if `thick`.
    pub open spec fn spec_box_drawing_char(self, thick: bool) -> char {
        if thick {
            match self {
                BoxSide::NWCorner => '╔',
                BoxSide::Horz => '═',
                BoxSide::NECorner => '╗',
                BoxSide::Vert => '║',
                BoxSide::SWCorner => '╚',
                BoxSide::SECorner => '╝',
            }
        } else {
            match self {
                BoxSide::NWCorner => '┌',
                BoxSide::Horz => '─',
                BoxSide::NECorner => '┐',
                BoxSide::Vert => '│',
                BoxSide::SWCorner => '└',
                BoxSide::SECorner => '┘',
            }
        }
    }

    /// The part of the outline of a box of `width` by `height` cells that
    /// the cell `(dx, dy)`, counted from the box's corner, shows.
    pub fn from_delta_in_box(dx: usize, dy: usize, width: usize, height: usize) -> (r: Self)
        requires
            width > 0,
            height > 0,
            on_outline(dx, dy, width, height),
        ensures
            r == side_at(dx, dy, width, height),
    {
        let kx: u8 = if dx == 0 {
            0
        } else if dx == width - 1 {
            2
        } else {
            1
        };
        let ky: u8 = if dy == 0 {
            0
        } else if dy == height - 1 {
            2
        } else {
            1
        };
        if kx == 1 {
            Self::Horz
        } else if ky == 1 {
            Self::Vert
        } else if kx == 0 && ky == 0 {
            Self::NWCorner
        } else if kx == 2 && ky == 0 {
            Self::NECorner
        } else if kx == 0 {
            Self::SWCorner
        } else {
            Self::SECorner
        }
    }

    pub fn box_drawing_char(&self, thick: bool) -> (c: char)
        ensures
            c == self.spec_box_drawing_char(thick),
    {
        match (thick, self) {
            (true, BoxSide::NWCorner) => '╔',
            (true, BoxSide::Horz) => '═',
            (true, BoxSide::NECorner) => '╗',
            (true, BoxSide::Vert) => '║',
            (true, BoxSide::SWCorner) => '╚',
            (true, BoxSide::SECorner) => '╝',
            (false, BoxSide::NWCorner) => '┌',
            (false, BoxSide::Horz) => '─',
            (false, BoxSide::NECorner) => '┐',
            (false, BoxSide::Vert) => '│',
            (false, BoxSide::SWCorner) => '└',
            (false, BoxSide::SECorner) => '┘',
        }
    }

    /// The cells that make up the outline of a box of `width` by `height`
    /// cells, row by row and counted from the box's corner. Each of them
    /// lies on the outline, so `from_delta_in_box` names its part. A box
    /// without width has no cells, and must not be higher than two rows.
    pub fn box_edges(width: usize, height: usize) -> (cells: Vec<(usize, usize)>)
        requires
            width > 0 || height <= 2,
        ensures
            cells@ == outline(width, height, height as int),
            forall|k: int|
                0 <= k < cells@.len() ==> on_outline(
                    (#[trigger] cells@[k]).0,
                    cells@[k].1,
                    width,
                    height,
                ),
    {
        let mut cells: Vec<(usize, usize)> = Vec::new();
        let mut y: usize = 0;
        while y < height
            invariant
                y <= height,
                width > 0 || height <= 2,
                cells@ == outline(width, height, y as int),
                forall|k: int|
                    0 <= k < cells@.len() ==> on_outline(
                        (#[trigger] cells@[k]).0,
                        cells@[k].1,
                        width,
                        height,
                    ),
            decreases height - y,
        {
            let ghost above = cells@;
            if y == 0 || y == height - 1 {
                let mut x: usize = 0;
                while x < width
                    invariant
                        x <= width,
                        y < height,
                        y == 0 || y == height - 1,
                        cells@ == above + outline_row(width, height, y as int).take(x as int),
                        forall|k: int|
                            0 <= k < cells@.len() ==> on_outline(
                                (#[trigger] cells@[k]).0,
                                cells@[k].1,
                                width,
                                height,
                            ),
                    decreases width - x,
                {
                    cells.push((x, y));
                    x += 1;
                }
            } else {
                cells.push((0, y));
                cells.push((width - 1, y));
            }
            y += 1;
        }
        cells
    }
}

} // verus!

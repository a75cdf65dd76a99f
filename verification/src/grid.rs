//! The occupancy grid: an ordered sequence of rows of cell codes. A space
//! marks traversable ground; any other code marks a wall. The grid is
//! validated as rectangular when it is built and is immutable afterwards.

use vstd::prelude::*;

use crate::units::MAX_GRID_SIDE;

verus! {

/// The cell code of traversable ground.
pub const EMPTY_CELL: char = ' ';

/// A rectangular occupancy map. Row `j`, column `i` is the cell whose world
/// footprint is `[i*block, (i+1)*block) x [j*block, (j+1)*block)`.
pub struct Grid {
    rows: Vec<Vec<char>>,
}

impl Grid {
    /// The cell codes, outer sequence indexed by row.
    pub closed spec fn cells(self) -> Seq<Seq<char>> {
        self.rows@.map(|j: int, row: Vec<char>| row@)
    }

    /// Number of rows.
    pub open spec fn spec_height(self) -> int {
        self.cells().len() as int
    }

    /// Number of columns.
    pub open spec fn spec_width(self) -> int {
        self.cells()[0].len() as int
    }

    /// Well-formed: nonempty, bounded, and rectangular.
    pub open spec fn wf(self) -> bool {
        &&& 1 <= self.spec_height() <= MAX_GRID_SIDE
        &&& 1 <= self.spec_width() <= MAX_GRID_SIDE
        &&& forall|j: int|
            0 <= j < self.spec_height() ==> (#[trigger] self.cells()[j]).len()
                == self.spec_width()
    }

    /// The code of the cell at column `i`, row `j`.
    pub open spec fn cell_at(self, i: int, j: int) -> char {
        self.cells()[j][i]
    }

    /// The cell at column `i`, row `j` exists and is traversable.
    pub open spec fn is_empty_at(self, i: int, j: int) -> bool {
        &&& 0 <= i < self.spec_width()
        &&& 0 <= j < self.spec_height()
        &&& self.cell_at(i, j) == EMPTY_CELL
    }

    /// Build a grid from rows of cell codes. Returns `None` exactly when
    /// the rows do not form a nonempty rectangle of bounded size: a
    /// non-rectangular map is rejected here, never discovered later through
    /// an out-of-range lookup.
    pub fn from_rows(rows: Vec<Vec<char>>) -> (grid: Option<Grid>)
        ensures
            match grid {
                Some(g) => {
                    &&& g.wf()
                    &&& g.cells() =~= rows@.map(|j: int, row: Vec<char>| row@)
                    &&& 1 <= rows@.len() <= MAX_GRID_SIDE
                    &&& 1 <= rows@[0]@.len() <= MAX_GRID_SIDE
                    &&& forall|j: int|
                        0 <= j < rows@.len() ==> (#[trigger] rows@[j])@.len() == rows@[0]@.len()
                },
                None => {
                    ||| rows@.len() == 0
                    ||| rows@.len() > MAX_GRID_SIDE
                    ||| rows@[0]@.len() == 0
                    ||| rows@[0]@.len() > MAX_GRID_SIDE
                    ||| exists|j: int|
                        0 <= j < rows@.len() && (#[trigger] rows@[j])@.len() != rows@[0]@.len()
                },
            },
    {
        if rows.len() == 0 || rows.len() > MAX_GRID_SIDE {
            return None;
        }
        let width = rows[0].len();
        if width == 0 || width > MAX_GRID_SIDE {
            return None;
        }
        let mut j: usize = 0;
        while j < rows.len()
            invariant
                j <= rows@.len(),
                width == rows@[0]@.len(),
                forall|m: int| 0 <= m < j ==> (#[trigger] rows@[m])@.len() == width,
            decreases rows@.len() - j,
        {
            if rows[j].len() != width {
                return None;
            }
            j = j + 1;
        }
        let grid = Grid { rows };
        Some(grid)
    }

    /// Number of columns.
    pub fn width(&self) -> (w: usize)
        requires
            self.wf(),
        ensures
            w == self.spec_width(),
    {
        self.rows[0].len()
    }

    /// Number of rows.
    pub fn height(&self) -> (h: usize)
        ensures
            h == self.spec_height(),
    {
        self.rows.len()
    }

    /// The code of the cell at column `i`, row `j`.
    pub fn cell(&self, i: usize, j: usize) -> (c: char)
        requires
            self.wf(),
            i < self.spec_width(),
            j < self.spec_height(),
        ensures
            c == self.cell_at(i as int, j as int),
    {
        proof {
            assert(self.cells()[j as int] == self.rows@[j as int]@);
        }
        self.rows[j][i]
    }
}

} // verus!

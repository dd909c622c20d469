//! Coordinates on the hexagonal board.
//!
//! The board has 9 rows of widths 5, 6, 7, 8, 9, 8, 7, 6, 5 — 61 cells in
//! all.  A cell is identified either by a linear index in `[0, 61)` or by a
//! `(column, row)` pair; `HexIndex` keeps both in sync.  Each cell has up to
//! six neighbours, one per `Direction`; the index arithmetic differs above
//! and below the middle row because the row widths change direction there.

use vstd::prelude::*;

verus! {

/// Width of each of the nine board rows.
pub open spec fn row_width(y: int) -> int {
    if y == 0 { 5 } else if y == 1 { 6 } else if y == 2 { 7 } else if y == 3 { 8 }
    else if y == 4 { 9 } else if y == 5 { 8 } else if y == 6 { 7 } else if y == 7 { 6 }
    else if y == 8 { 5 } else { 0 }
}

/// Linear index of the first cell of each row.
pub open spec fn row_start(y: int) -> int {
    if y == 0 { 0 } else if y == 1 { 5 } else if y == 2 { 11 } else if y == 3 { 18 }
    else if y == 4 { 26 } else if y == 5 { 35 } else if y == 6 { 43 } else if y == 7 { 50 }
    else if y == 8 { 56 } else { 0 }
}

/// Row of the cell with linear index `i`.
pub open spec fn spec_idx_to_y(i: int) -> int {
    if i < 5 { 0 } else if i < 11 { 1 } else if i < 18 { 2 } else if i < 26 { 3 }
    else if i < 35 { 4 } else if i < 43 { 5 } else if i < 50 { 6 } else if i < 56 { 7 }
    else { 8 }
}

/// Column of the cell with linear index `i`.
pub open spec fn spec_idx_to_x(i: int) -> int {
    i - row_start(spec_idx_to_y(i))
}

/// Row of a linear index (total: indices at or past the last row report row 8).
pub fn idx_to_y(idx: usize) -> (r: usize)
    ensures
        r as int == spec_idx_to_y(idx as int),
{
    if idx < 5 { 0 } else if idx < 11 { 1 } else if idx < 18 { 2 } else if idx < 26 { 3 }
    else if idx < 35 { 4 } else if idx < 43 { 5 } else if idx < 50 { 6 } else if idx < 56 { 7 }
    else { 8 }
}

/// Column of a linear index within its row.
pub fn idx_to_x(idx: usize) -> (r: usize)
    ensures
        r as int == spec_idx_to_x(idx as int),
{
    if idx < 5 { idx } else if idx < 11 { idx - 5 } else if idx < 18 { idx - 11 }
    else if idx < 26 { idx - 18 } else if idx < 35 { idx - 26 } else if idx < 43 { idx - 35 }
    else if idx < 50 { idx - 43 } else if idx < 56 { idx - 50 } else { idx - 56 }
}

/// Width of row `y`.
pub fn line_lenght(y: usize) -> (r: usize)
    requires
        y < 9,
    ensures
        r as int == row_width(y as int),
{
    match y {
        0 => 5,
        1 => 6,
        2 => 7,
        3 => 8,
        4 => 9,
        5 => 8,
        6 => 7,
        7 => 6,
        _ => 5,
    }
}

/// A cell that failed to construct: the index or coordinate pair was outside
/// the board.
#[derive(Clone, Copy, PartialEq, Eq, Structural, Debug)]
pub struct InvalidCell;

/// One of the 61 board cells, carrying its column, row and linear index.
#[derive(Clone, Copy, PartialEq, Eq, Structural, Debug)]
pub struct HexIndex {
    x: usize,
    y: usize,
    index: usize,
}

impl HexIndex {
    /// Column of the cell.
    pub closed spec fn spec_x(self) -> int {
        self.x as int
    }

    /// Row of the cell.
    pub closed spec fn spec_y(self) -> int {
        self.y as int
    }

    /// Linear index of the cell.
    pub closed spec fn spec_index(self) -> int {
        self.index as int
    }

    /// The cell is on the board and its linear index agrees with its
    /// coordinates.
    pub open spec fn wf(self) -> bool {
        &&& 0 <= self.spec_y() < 9
        &&& 0 <= self.spec_x() < row_width(self.spec_y())
        &&& self.spec_index() == row_start(self.spec_y()) + self.spec_x()
        &&& 0 <= self.spec_index() < 61
    }

    /// Linear index of the cell.
    pub fn get_index(&self) -> (r: usize)
        ensures
            r as int == self.spec_index(),
    {
        self.index
    }

    /// Column of the cell.
    pub fn get_x(&self) -> (r: usize)
        ensures
            r as int == self.spec_x(),
    {
        self.x
    }

    /// Row of the cell.
    pub fn get_y(&self) -> (r: usize)
        ensures
            r as int == self.spec_y(),
    {
        self.y
    }

    /// Column and row of the cell.
    pub fn get_coords(&self) -> (r: (usize, usize))
        ensures
            r.0 as int == self.spec_x(),
            r.1 as int == self.spec_y(),
    {
        (self.x, self.y)
    }

    /// Cell for a linear index; fails exactly when the index is outside the
    /// board.
    pub fn from_index(index: usize) -> (r: Result<HexIndex, InvalidCell>)
        ensures
            r is Ok <==> index < 61,
            r matches Ok(c) ==> c.wf() && c.spec_index() == index as int,
    {
        if index > 60 {
            return Err(InvalidCell);
        }
        let x = idx_to_x(index);
        let y = idx_to_y(index);
        proof {
            lemma_idx_coords_valid(index as int);
        }
        Ok(HexIndex { x, y, index })
    }

    /// Cell for a `(column, row)` pair; fails exactly when the pair is
    /// outside the board.
    pub fn from_coords(x: usize, y: usize) -> (r: Result<HexIndex, InvalidCell>)
        ensures
            r is Ok <==> y < 9 && (x as int) < row_width(y as int),
            r matches Ok(c) ==> c.wf() && c.spec_x() == x as int && c.spec_y() == y as int,
    {
        let start: usize = match y {
            0 => 0,
            1 => 5,
            2 => 11,
            3 => 18,
            4 => 26,
            5 => 35,
            6 => 43,
            7 => 50,
            8 => 56,
            _ => { return Err(InvalidCell); },
        };
        if x >= line_lenght(y) {
            return Err(InvalidCell);
        }
        Ok(HexIndex { x, y, index: start + x })
    }
}

impl HexIndex {
    /// A cell exists to the right.
    pub fn right_bloc_present(&self) -> (r: bool)
        requires
            self.wf(),
        ensures
            r == (snbr(self.spec_index(), Direction::Right) is Some),
    {
        proof { lemma_coords_roundtrip(self.spec_x(), self.spec_y()); }
        self.x < line_lenght(self.y) - 1
    }

    /// A cell exists to the left.
    pub fn left_bloc_present(&self) -> (r: bool)
        requires
            self.wf(),
        ensures
            r == (snbr(self.spec_index(), Direction::Left) is Some),
    {
        proof { lemma_coords_roundtrip(self.spec_x(), self.spec_y()); }
        self.x != 0
    }

    /// A cell exists to the top left.
    pub fn top_left_bloc_present(&self) -> (r: bool)
        requires
            self.wf(),
        ensures
            r == (snbr(self.spec_index(), Direction::TopLeft) is Some),
    {
        proof { lemma_coords_roundtrip(self.spec_x(), self.spec_y()); }
        self.y != 0 && (self.x != 0 || self.y > 4)
    }

    /// A cell exists to the top right.
    pub fn top_right_bloc_present(&self) -> (r: bool)
        requires
            self.wf(),
        ensures
            r == (snbr(self.spec_index(), Direction::TopRight) is Some),
    {
        proof { lemma_coords_roundtrip(self.spec_x(), self.spec_y()); }
        self.y != 0 && (self.x < line_lenght(self.y) - 1 || self.y > 4)
    }

    /// A cell exists to the bottom left.
    pub fn bottom_left_bloc_present(&self) -> (r: bool)
        requires
            self.wf(),
        ensures
            r == (snbr(self.spec_index(), Direction::BottomLeft) is Some),
    {
        proof { lemma_coords_roundtrip(self.spec_x(), self.spec_y()); }
        self.y != 8 && (self.x != 0 || self.y < 4)
    }

    /// A cell exists to the bottom right.
    pub fn bottom_right_bloc_present(&self) -> (r: bool)
        requires
            self.wf(),
        ensures
            r == (snbr(self.spec_index(), Direction::BottomRight) is Some),
    {
        proof { lemma_coords_roundtrip(self.spec_x(), self.spec_y()); }
        self.y != 8 && (self.x < line_lenght(self.y) - 1 || self.y < 4)
    }

    /// Which of the six neighbours exist, in the order top right, right,
    /// bottom right, bottom left, left, top left.
    pub fn neighbors_present(&self) -> (r: (bool, bool, bool, bool, bool, bool))
        requires
            self.wf(),
        ensures
            r.0 == (snbr(self.spec_index(), Direction::TopRight) is Some),
            r.1 == (snbr(self.spec_index(), Direction::Right) is Some),
            r.2 == (snbr(self.spec_index(), Direction::BottomRight) is Some),
            r.3 == (snbr(self.spec_index(), Direction::BottomLeft) is Some),
            r.4 == (snbr(self.spec_index(), Direction::Left) is Some),
            r.5 == (snbr(self.spec_index(), Direction::TopLeft) is Some),
    {
        (
            self.top_right_bloc_present(),
            self.right_bloc_present(),
            self.bottom_right_bloc_present(),
            self.bottom_left_bloc_present(),
            self.left_bloc_present(),
            self.top_left_bloc_present(),
        )
    }

    /// The neighbour to the right, when it exists.
    pub fn get_right_neighbour(&self) -> (r: Option<HexIndex>)
        requires
            self.wf(),
        ensures
            r == nbr_cell(*self, Direction::Right),
            r matches Some(n) ==> n.wf() && snbr(self.spec_index(), Direction::Right) == Some(
                n.spec_index(),
            ),
    {
        if self.right_bloc_present() {
            let n = HexIndex { x: self.x + 1, y: self.y, index: self.index + 1 };
            proof {
                lemma_coords_roundtrip(self.spec_x(), self.spec_y());
                lemma_cell_at_self(n);
            }
            Some(n)
        } else {
            None
        }
    }

    /// The neighbour to the left, when it exists.
    pub fn get_left_neighbour(&self) -> (r: Option<HexIndex>)
        requires
            self.wf(),
        ensures
            r == nbr_cell(*self, Direction::Left),
            r matches Some(n) ==> n.wf() && snbr(self.spec_index(), Direction::Left) == Some(
                n.spec_index(),
            ),
    {
        if self.left_bloc_present() {
            let n = HexIndex { x: self.x - 1, y: self.y, index: self.index - 1 };
            proof {
                lemma_coords_roundtrip(self.spec_x(), self.spec_y());
                lemma_cell_at_self(n);
            }
            Some(n)
        } else {
            None
        }
    }

    /// The neighbour to the top right, when it exists.
    pub fn get_top_right_neighbour(&self) -> (r: Option<HexIndex>)
        requires
            self.wf(),
        ensures
            r == nbr_cell(*self, Direction::TopRight),
            r matches Some(n) ==> n.wf() && snbr(self.spec_index(), Direction::TopRight) == Some(
                n.spec_index(),
            ),
    {
        if self.top_right_bloc_present() {
            let n = if self.y <= 4 {
                HexIndex {
                    x: self.x,
                    y: self.y - 1,
                    index: self.index - (line_lenght(self.y) - 1),
                }
            } else {
                HexIndex {
                    x: self.x + 1,
                    y: self.y - 1,
                    index: self.index - line_lenght(self.y),
                }
            };
            proof {
                lemma_coords_roundtrip(self.spec_x(), self.spec_y());
                assert(n.wf());
                lemma_cell_at_self(n);
            }
            Some(n)
        } else {
            None
        }
    }

    /// The neighbour to the top left, when it exists.
    pub fn get_top_left_neighbour(&self) -> (r: Option<HexIndex>)
        requires
            self.wf(),
        ensures
            r == nbr_cell(*self, Direction::TopLeft),
            r matches Some(n) ==> n.wf() && snbr(self.spec_index(), Direction::TopLeft) == Some(
                n.spec_index(),
            ),
    {
        if self.top_left_bloc_present() {
            let n = if self.y <= 4 {
                HexIndex {
                    x: self.x - 1,
                    y: self.y - 1,
                    index: self.index - line_lenght(self.y),
                }
            } else {
                HexIndex {
                    x: self.x,
                    y: self.y - 1,
                    index: self.index - line_lenght(self.y) - 1,
                }
            };
            proof {
                lemma_coords_roundtrip(self.spec_x(), self.spec_y());
                assert(n.wf());
                lemma_cell_at_self(n);
            }
            Some(n)
        } else {
            None
        }
    }

    /// The neighbour to the bottom right, when it exists.
    pub fn get_bottom_right_neighbour(&self) -> (r: Option<HexIndex>)
        requires
            self.wf(),
        ensures
            r == nbr_cell(*self, Direction::BottomRight),
            r matches Some(n) ==> n.wf() && snbr(self.spec_index(), Direction::BottomRight) == Some(
                n.spec_index(),
            ),
    {
        if self.bottom_right_bloc_present() {
            let n = if self.y < 4 {
                HexIndex {
                    x: self.x + 1,
                    y: self.y + 1,
                    index: self.index + line_lenght(self.y) + 1,
                }
            } else {
                HexIndex {
                    x: self.x,
                    y: self.y + 1,
                    index: self.index + line_lenght(self.y),
                }
            };
            proof {
                lemma_coords_roundtrip(self.spec_x(), self.spec_y());
                assert(n.wf());
                lemma_cell_at_self(n);
            }
            Some(n)
        } else {
            None
        }
    }

    /// The neighbour to the bottom left, when it exists.
    pub fn get_bottom_left_neighbour(&self) -> (r: Option<HexIndex>)
        requires
            self.wf(),
        ensures
            r == nbr_cell(*self, Direction::BottomLeft),
            r matches Some(n) ==> n.wf() && snbr(self.spec_index(), Direction::BottomLeft) == Some(
                n.spec_index(),
            ),
    {
        if self.bottom_left_bloc_present() {
            let n = if self.y < 4 {
                HexIndex {
                    x: self.x,
                    y: self.y + 1,
                    index: self.index + line_lenght(self.y),
                }
            } else {
                HexIndex {
                    x: self.x - 1,
                    y: self.y + 1,
                    index: self.index + line_lenght(self.y) - 1,
                }
            };
            proof {
                lemma_coords_roundtrip(self.spec_x(), self.spec_y());
                assert(n.wf());
                lemma_cell_at_self(n);
            }
            Some(n)
        } else {
            None
        }
    }

    /// The neighbour in direction `direction`, when it exists.
    pub fn get_neighbour(&self, direction: Direction) -> (r: Option<HexIndex>)
        requires
            self.wf(),
        ensures
            r == nbr_cell(*self, direction),
            r matches Some(n) ==> n.wf() && snbr(self.spec_index(), direction)
                == Some(n.spec_index()),
    {
        let r = match direction {
            Direction::TopLeft => self.get_top_left_neighbour(),
            Direction::TopRight => self.get_top_right_neighbour(),
            Direction::Right => self.get_right_neighbour(),
            Direction::BottomRight => self.get_bottom_right_neighbour(),
            Direction::BottomLeft => self.get_bottom_left_neighbour(),
            Direction::Left => self.get_left_neighbour(),
        };
        proof {
            if snbr(self.spec_index(), direction) is Some {
                lemma_snbr_valid(self.spec_index(), direction);
                lemma_cell_at(snbr(self.spec_index(), direction)->Some_0);
            }
        }
        r
    }
}

/// Horizontal offset (in tiles of 128 canvas units) of row `y`.
pub open spec fn spec_canvas_offset(y: int) -> int {
    if y == 0 || y == 8 { 4 } else if y == 1 || y == 7 { 3 } else if y == 2 || y == 6 { 2 }
    else if y == 3 || y == 5 { 1 } else { 0 }
}

/// Canvas-space position of a cell.
pub open spec fn spec_canvas_coords(c: HexIndex) -> (int, int) {
    (c.spec_x() * 253 + spec_canvas_offset(c.spec_y()) * 128, c.spec_y() * 193)
}

/// Coordinates of the cell under a canvas-space point, `None` when the point
/// falls outside the board.
pub open spec fn spec_cell_from_canvas(cx: int, cy: int) -> Option<(int, int)> {
    let cy2 = cy - 160;
    if cy2 <= -193 {
        None
    } else {
        let y = if cy2 < 0 { 0int } else { cy2 / 193 };
        let off = if y == 0 || y == 8 { 506int } else if y == 1 || y == 7 { 380int }
            else if y == 2 || y == 6 { 253int } else if y == 3 || y == 5 { 127int } else { 0int };
        let cx2 = cx - off;
        if cx2 <= -253 {
            None
        } else {
            let x = if cx2 < 0 { 0int } else { cx2 / 253 };
            if y < 9 && x < row_width(y) { Some((x, y)) } else { None }
        }
    }
}

impl HexIndex {
    /// Canvas-space position of the cell.
    pub fn get_canvas_coords(&self) -> (r: (usize, usize))
        requires
            self.wf(),
        ensures
            r.0 as int == spec_canvas_coords(*self).0,
            r.1 as int == spec_canvas_coords(*self).1,
    {
        let canvas_coords = (self.x * 253, self.y * 193);
        let offset: usize = match self.y {
            0 | 8 => 4,
            1 | 7 => 3,
            2 | 6 => 2,
            3 | 5 => 1,
            _ => 0,
        } * 128;
        (canvas_coords.0 + offset, canvas_coords.1)
    }

    /// Cell under a canvas-space point, `None` when the point falls outside
    /// the board.
    pub fn from_canvas_coords(coords: (isize, isize)) -> (r: Option<HexIndex>)
        requires
            -1000000 <= coords.0 <= 1000000,
            -1000000 <= coords.1 <= 1000000,
        ensures
            r is Some <==> spec_cell_from_canvas(coords.0 as int, coords.1 as int) is Some,
            r matches Some(c) ==> c.wf()
                && spec_cell_from_canvas(coords.0 as int, coords.1 as int)
                    == Some((c.spec_x(), c.spec_y())),
    {
        let cy2 = coords.1 - 160;
        if cy2 <= -193 {
            return None;
        }
        let y: usize = if cy2 < 0 { 0 } else { (cy2 as usize) / 193 };
        let off: usize = match y {
            0 | 8 => 506,
            1 | 7 => 380,
            2 | 6 => 253,
            3 | 5 => 127,
            _ => 0,
        };
        let cx2 = coords.0 - (off as isize);
        if cx2 <= -253 {
            return None;
        }
        let x: usize = if cx2 < 0 { 0 } else { (cx2 as usize) / 253 };
        match HexIndex::from_coords(x, y) {
            Ok(c) => Some(c),
            Err(_) => None,
        }
    }
}

/// Axial column of a cell: constant along vertical lines of the hexagonal
/// grid, so that every direction moves by a fixed `(axial, row)` delta.
pub open spec fn axial(i: int) -> int {
    let x = spec_idx_to_x(i);
    let y = spec_idx_to_y(i);
    if y <= 4 { 2 * x + (4 - y) } else { 2 * x + (y - 4) }
}

/// Change of `axial` for one step in direction `d`.
pub open spec fn dir_du(d: Direction) -> int {
    match d {
        Direction::Right => 2,
        Direction::Left => -2,
        Direction::TopRight => 1,
        Direction::TopLeft => -1,
        Direction::BottomRight => 1,
        Direction::BottomLeft => -1,
    }
}

/// Change of the row for one step in direction `d`.
pub open spec fn dir_dy(d: Direction) -> int {
    match d {
        Direction::Right => 0,
        Direction::Left => 0,
        Direction::TopRight => -1,
        Direction::TopLeft => -1,
        Direction::BottomRight => 1,
        Direction::BottomLeft => 1,
    }
}

/// Steps left before a straight walk in direction `d` runs off the board.
pub open spec fn ray_fuel(i: int, d: Direction) -> int {
    match d {
        Direction::Right => row_width(spec_idx_to_y(i)) - spec_idx_to_x(i),
        Direction::Left => spec_idx_to_x(i) + 1,
        Direction::TopRight => spec_idx_to_y(i) + 1,
        Direction::TopLeft => spec_idx_to_y(i) + 1,
        Direction::BottomRight => 9 - spec_idx_to_y(i),
        Direction::BottomLeft => 9 - spec_idx_to_y(i),
    }
}

/// The cell `n` straight-line steps from `i` in direction `d`, ignoring
/// occupancy; `None` when the walk leaves the board first.
pub open spec fn line_n(i: int, d: Direction, n: int) -> Option<int>
    decreases n,
{
    if n <= 0 {
        Some(i)
    } else {
        match snbr(i, d) {
            None => None,
            Some(j) => line_n(j, d, n - 1),
        }
    }
}

/// One neighbour step moves the axial coordinates by the direction's delta
/// and strictly burns ray fuel.
pub proof fn lemma_snbr_delta(i: int, d: Direction)
    ensures
        snbr(i, d) matches Some(j) ==> {
            &&& 0 <= j < 61
            &&& axial(j) == axial(i) + dir_du(d)
            &&& spec_idx_to_y(j) == spec_idx_to_y(i) + dir_dy(d)
            &&& 0 <= ray_fuel(j, d) < ray_fuel(i, d)
        },
{
    if snbr(i, d) is Some {
        lemma_idx_coords_valid(i);
        let x = spec_idx_to_x(i);
        let y = spec_idx_to_y(i);
        match d {
            Direction::Right => { lemma_coords_roundtrip(x + 1, y); },
            Direction::Left => { lemma_coords_roundtrip(x - 1, y); },
            Direction::TopRight => {
                if y <= 4 { lemma_coords_roundtrip(x, y - 1); }
                else { lemma_coords_roundtrip(x + 1, y - 1); }
            },
            Direction::TopLeft => {
                if y <= 4 { lemma_coords_roundtrip(x - 1, y - 1); }
                else { lemma_coords_roundtrip(x, y - 1); }
            },
            Direction::BottomLeft => {
                if y < 4 { lemma_coords_roundtrip(x, y + 1); }
                else { lemma_coords_roundtrip(x - 1, y + 1); }
            },
            Direction::BottomRight => {
                if y < 4 { lemma_coords_roundtrip(x + 1, y + 1); }
                else { lemma_coords_roundtrip(x, y + 1); }
            },
        }
    }
}

/// After `n` straight-line steps the axial coordinates have moved by `n`
/// times the direction's delta.
pub proof fn lemma_line_coords(i: int, d: Direction, n: int)
    requires
        n >= 0,
    ensures
        line_n(i, d, n) matches Some(j) ==> {
            &&& axial(j) == axial(i) + n * dir_du(d)
            &&& spec_idx_to_y(j) == spec_idx_to_y(i) + n * dir_dy(d)
        },
    decreases n,
{
    if n > 0 && line_n(i, d, n) is Some {
        let m = snbr(i, d)->Some_0;
        lemma_snbr_delta(i, d);
        lemma_line_coords(m, d, n - 1);
        let j = line_n(i, d, n)->Some_0;
        assert(axial(j) == axial(m) + (n - 1) * dir_du(d));
        assert(axial(m) == axial(i) + dir_du(d));
        assert((n - 1) * dir_du(d) + dir_du(d) == n * dir_du(d)) by (nonlinear_arith);
        assert((n - 1) * dir_dy(d) + dir_dy(d) == n * dir_dy(d)) by (nonlinear_arith);
    }
}

/// A straight walk that starts on the board stays on the board.
pub proof fn lemma_line_valid(i: int, d: Direction, n: int)
    requires
        0 <= i < 61,
        n >= 0,
    ensures
        line_n(i, d, n) matches Some(j) ==> 0 <= j < 61,
    decreases n,
{
    if n > 0 {
        match snbr(i, d) {
            None => {},
            Some(j) => {
                lemma_snbr_delta(i, d);
                lemma_line_valid(j, d, n - 1);
            },
        }
    }
}

/// A straight walk of `a + b` steps is a walk of `a` steps followed by one
/// of `b` steps.
pub proof fn lemma_line_split(i: int, d: Direction, a: int, b: int)
    requires
        a >= 0,
        b >= 0,
    ensures
        line_n(i, d, a) matches Some(m) ==> line_n(i, d, a + b) == line_n(m, d, b),
        line_n(i, d, a) is None ==> line_n(i, d, a + b) is None,
    decreases a,
{
    if a > 0 {
        match snbr(i, d) {
            None => {},
            Some(j) => { lemma_line_split(j, d, a - 1, b); },
        }
    }
}

/// Two directions out of the same cell never reach the same neighbour.
pub proof fn lemma_snbr_unique_direction(i: int, d1: Direction, d2: Direction, j: int)
    requires
        snbr(i, d1) == Some(j),
        snbr(i, d2) == Some(j),
    ensures
        d1 == d2,
{
    assert(line_n(j, d1, 0) == Some(j));
    assert(line_n(i, d1, 1) == Some(j));
    assert(line_n(j, d2, 0) == Some(j));
    assert(line_n(i, d2, 1) == Some(j));
    lemma_line_unique_direction(i, d1, d2, 1, 1, j);
}

/// Distinct numbers of steps down one line reach distinct cells.
pub proof fn lemma_line_injective(i: int, d: Direction, n1: int, n2: int)
    requires
        0 <= n1 < n2,
        line_n(i, d, n1) is Some,
        line_n(i, d, n2) is Some,
    ensures
        line_n(i, d, n1)->Some_0 != line_n(i, d, n2)->Some_0,
{
    lemma_line_coords(i, d, n1);
    lemma_line_coords(i, d, n2);
    let j1 = line_n(i, d, n1)->Some_0;
    let j2 = line_n(i, d, n2)->Some_0;
    assert(dir_du(d) != 0 || dir_dy(d) != 0);
    if j1 == j2 {
        assert(false) by (nonlinear_arith)
            requires
                n1 < n2,
                axial(j1) == axial(i) + n1 * dir_du(d),
                axial(j2) == axial(i) + n2 * dir_du(d),
                spec_idx_to_y(j1) == spec_idx_to_y(i) + n1 * dir_dy(d),
                spec_idx_to_y(j2) == spec_idx_to_y(i) + n2 * dir_dy(d),
                axial(j1) == axial(j2),
                spec_idx_to_y(j1) == spec_idx_to_y(j2),
                dir_du(d) != 0 || dir_dy(d) != 0,
        ;
    }
}

/// A cell strictly down one straight line from `i` is not down any other:
/// the six lines through a cell only meet there.
pub proof fn lemma_line_unique_direction(
    i: int,
    d1: Direction,
    d2: Direction,
    n1: int,
    n2: int,
    j: int,
)
    requires
        n1 > 0,
        n2 > 0,
        line_n(i, d1, n1) == Some(j),
        line_n(i, d2, n2) == Some(j),
    ensures
        d1 == d2,
{
    lemma_line_coords(i, d1, n1);
    lemma_line_coords(i, d2, n2);
    assert(n1 * dir_du(d1) == n2 * dir_du(d2));
    assert(n1 * dir_dy(d1) == n2 * dir_dy(d2));
    assert(d1 == d2) by (nonlinear_arith)
        requires
            n1 > 0,
            n2 > 0,
            n1 * dir_du(d1) == n2 * dir_du(d2),
            n1 * dir_dy(d1) == n2 * dir_dy(d2),
    ;
}

/// A linear index inside the board has on-board coordinates.
pub proof fn lemma_idx_coords_valid(i: int)
    requires
        0 <= i < 61,
    ensures
        0 <= spec_idx_to_y(i) < 9,
        0 <= spec_idx_to_x(i) < row_width(spec_idx_to_y(i)),
        i == row_start(spec_idx_to_y(i)) + spec_idx_to_x(i),
{
}

/// Coordinates and linear index determine each other.
pub proof fn lemma_coords_roundtrip(x: int, y: int)
    requires
        0 <= y < 9,
        0 <= x < row_width(y),
    ensures
        spec_idx_to_y(row_start(y) + x) == y,
        spec_idx_to_x(row_start(y) + x) == x,
        0 <= row_start(y) + x < 61,
{
}

/// One of the six neighbour directions of a cell.
#[derive(Clone, Copy, PartialEq, Eq, Structural, Debug)]
pub enum Direction {
    TopLeft,
    TopRight,
    Right,
    BottomRight,
    BottomLeft,
    Left,
}

impl Direction {
    /// The direction pointing the opposite way.
    pub open spec fn spec_opposite(self) -> Direction {
        match self {
            Direction::TopLeft => Direction::BottomRight,
            Direction::TopRight => Direction::BottomLeft,
            Direction::Right => Direction::Left,
            Direction::BottomRight => Direction::TopLeft,
            Direction::BottomLeft => Direction::TopRight,
            Direction::Left => Direction::Right,
        }
    }

    /// The direction pointing the opposite way.
    pub fn opposite(self) -> (r: Direction)
        ensures
            r == self.spec_opposite(),
    {
        match self {
            Direction::TopLeft => Direction::BottomRight,
            Direction::TopRight => Direction::BottomLeft,
            Direction::Right => Direction::Left,
            Direction::BottomRight => Direction::TopLeft,
            Direction::BottomLeft => Direction::TopRight,
            Direction::Left => Direction::Right,
        }
    }

    /// The six directions, in the fixed enumeration order used throughout.
    pub fn all() -> (r: [Direction; 6])
        ensures
            r@ =~= seq![
                Direction::TopRight,
                Direction::Right,
                Direction::BottomRight,
                Direction::BottomLeft,
                Direction::Left,
                Direction::TopLeft,
            ],
    {
        [
            Direction::TopRight,
            Direction::Right,
            Direction::BottomRight,
            Direction::BottomLeft,
            Direction::Left,
            Direction::TopLeft,
        ]
    }
}

/// Linear index of the neighbour of cell `i` in direction `d`, `None` at a
/// board edge (or for an off-board `i`).
pub open spec fn snbr(i: int, d: Direction) -> Option<int> {
    if 0 <= i < 61 {
        let x = spec_idx_to_x(i);
        let y = spec_idx_to_y(i);
        match d {
            Direction::Right => if x < row_width(y) - 1 { Some(i + 1) } else { None },
            Direction::Left => if x != 0 { Some(i - 1) } else { None },
            Direction::TopRight => if y != 0 && (x < row_width(y) - 1 || y > 4) {
                if y <= 4 { Some(i - (row_width(y) - 1)) } else { Some(i - row_width(y)) }
            } else { None },
            Direction::TopLeft => if y != 0 && (x != 0 || y > 4) {
                if y <= 4 { Some(i - row_width(y)) } else { Some(i - row_width(y) - 1) }
            } else { None },
            Direction::BottomLeft => if y != 8 && (x != 0 || y < 4) {
                if y < 4 { Some(i + row_width(y)) } else { Some(i + row_width(y) - 1) }
            } else { None },
            Direction::BottomRight => if y != 8 && (x < row_width(y) - 1 || y < 4) {
                if y < 4 { Some(i + row_width(y) + 1) } else { Some(i + row_width(y)) }
            } else { None },
        }
    } else {
        None
    }
}

/// The well-formed cell with linear index `i` (meaningful for `0 <= i < 61`;
/// see `lemma_cell_at`).
pub open spec fn cell_at(i: int) -> HexIndex {
    choose|h: HexIndex| h.wf() && h.spec_index() == i
}

/// The neighbour of `c` in direction `d`, as a cell value.
pub open spec fn nbr_cell(c: HexIndex, d: Direction) -> Option<HexIndex> {
    match snbr(c.spec_index(), d) {
        None => None,
        Some(j) => Some(cell_at(j)),
    }
}

/// Two cells are adjacent when one is a neighbour of the other.
#[verifier::opaque]
pub open spec fn adjacent(i: int, j: int) -> bool {
    exists|d: Direction| snbr(i, d) == Some(j)
}

/// A neighbour in any direction is adjacent.
pub proof fn lemma_adjacent_intro(i: int, d: Direction, j: int)
    requires
        snbr(i, d) == Some(j),
    ensures
        adjacent(i, j),
{
    reveal(adjacent);
}

/// Every linear index inside the board names a well-formed cell.
pub proof fn lemma_cell_at(i: int)
    requires
        0 <= i < 61,
    ensures
        cell_at(i).wf(),
        cell_at(i).spec_index() == i,
{
    lemma_idx_coords_valid(i);
    let h = HexIndex {
        x: spec_idx_to_x(i) as usize,
        y: spec_idx_to_y(i) as usize,
        index: i as usize,
    };
    assert(h.wf() && h.spec_index() == i);
    assert(exists|c: HexIndex| c.wf() && c.spec_index() == i);
}

/// `cell_at` inverts `spec_index` on well-formed cells.
pub proof fn lemma_cell_at_self(c: HexIndex)
    requires
        c.wf(),
    ensures
        cell_at(c.spec_index()) == c,
{
    lemma_cell_at(c.spec_index());
    lemma_index_injective(cell_at(c.spec_index()), c);
}

/// A neighbour index is itself inside the board, with the coordinates the
/// direction dictates.
pub proof fn lemma_snbr_valid(i: int, d: Direction)
    ensures
        snbr(i, d) matches Some(j) ==> 0 <= j < 61 && j != i,
{
    if snbr(i, d) is Some {
        let j = snbr(i, d)->Some_0;
        lemma_idx_coords_valid(i);
        let x = spec_idx_to_x(i);
        let y = spec_idx_to_y(i);
        match d {
            Direction::Right => { lemma_coords_roundtrip(x + 1, y); },
            Direction::Left => { lemma_coords_roundtrip(x - 1, y); },
            Direction::TopRight => {
                if y <= 4 { lemma_coords_roundtrip(x, y - 1); }
                else { lemma_coords_roundtrip(x + 1, y - 1); }
            },
            Direction::TopLeft => {
                if y <= 4 { lemma_coords_roundtrip(x - 1, y - 1); }
                else { lemma_coords_roundtrip(x, y - 1); }
            },
            Direction::BottomLeft => {
                if y < 4 { lemma_coords_roundtrip(x, y + 1); }
                else { lemma_coords_roundtrip(x - 1, y + 1); }
            },
            Direction::BottomRight => {
                if y < 4 { lemma_coords_roundtrip(x + 1, y + 1); }
                else { lemma_coords_roundtrip(x, y + 1); }
            },
        }
    }
}

/// Adjacency symmetry: when `n` is the neighbour of `c` in direction `d`,
/// `c` is the neighbour of `n` in the opposite direction.
pub proof fn lemma_neighbour_symmetry(i: int, d: Direction)
    ensures
        snbr(i, d) matches Some(j) ==> snbr(j, d.spec_opposite()) == Some(i),
{
    if snbr(i, d) is Some {
        let j = snbr(i, d)->Some_0;
        lemma_snbr_valid(i, d);
        lemma_idx_coords_valid(i);
        let x = spec_idx_to_x(i);
        let y = spec_idx_to_y(i);
        match d {
            Direction::Right => { lemma_coords_roundtrip(x + 1, y); },
            Direction::Left => { lemma_coords_roundtrip(x - 1, y); },
            Direction::TopRight => {
                if y <= 4 { lemma_coords_roundtrip(x, y - 1); }
                else { lemma_coords_roundtrip(x + 1, y - 1); }
            },
            Direction::TopLeft => {
                if y <= 4 { lemma_coords_roundtrip(x - 1, y - 1); }
                else { lemma_coords_roundtrip(x, y - 1); }
            },
            Direction::BottomLeft => {
                if y < 4 { lemma_coords_roundtrip(x, y + 1); }
                else { lemma_coords_roundtrip(x - 1, y + 1); }
            },
            Direction::BottomRight => {
                if y < 4 { lemma_coords_roundtrip(x + 1, y + 1); }
                else { lemma_coords_roundtrip(x, y + 1); }
            },
        }
    }
}

/// Two well-formed cells with the same linear index are the same cell.
pub proof fn lemma_index_injective(a: HexIndex, b: HexIndex)
    requires
        a.wf(),
        b.wf(),
        a.spec_index() == b.spec_index(),
    ensures
        a == b,
{
    lemma_coords_roundtrip(a.spec_x(), a.spec_y());
    lemma_coords_roundtrip(b.spec_x(), b.spec_y());
}

} // verus!

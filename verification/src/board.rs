//! The board's immutable terrain: one tile per cell, fixed at creation.

use vstd::prelude::*;
use crate::idx::HexIndex;

verus! {

/// Terrain of one cell; the payload is a cosmetic variant identifier.
#[derive(Clone, Copy, PartialEq, Eq, Structural, Debug)]
pub enum Tile {
    GrassyPlain(u8),
    Forest(u8),
    Plain(u8),
}

impl Tile {
    /// The cosmetic variant identifier is one of the four of each terrain
    /// kind.
    pub open spec fn wf(self) -> bool {
        match self {
            Tile::GrassyPlain(n) => n < 4,
            Tile::Forest(n) => n < 4,
            Tile::Plain(n) => n < 4,
        }
    }

    /// Index of the tile's texture in the presentation layer's table.
    pub fn get_texture_idx(self) -> (r: u8)
        requires
            self.wf(),
        ensures
            r == match self {
                Tile::GrassyPlain(n) => n as int,
                Tile::Forest(n) => 4 + n,
                Tile::Plain(n) => 8 + n,
            },
    {
        match self {
            Tile::GrassyPlain(number) => number,
            Tile::Forest(number) => 4 + number,
            Tile::Plain(number) => 8 + number,
        }
    }
}

/// The 61 terrain tiles, assigned by the caller at board creation and never
/// mutated by gameplay.
pub struct Board {
    tiles: Vec<Tile>,
}

impl Board {
    /// One tile per cell.
    pub closed spec fn spec_tiles(self) -> Seq<Tile> {
        self.tiles@
    }

    /// The board holds exactly one well-formed tile per cell.
    pub open spec fn wf(self) -> bool {
        &&& self.spec_tiles().len() == 61
        &&& forall|i: int| 0 <= i < 61 ==> self.spec_tiles()[i].wf()
    }

    /// A board from a caller-provided tile table, one tile per cell.
    pub fn new(tiles: Vec<Tile>) -> (r: Board)
        requires
            tiles@.len() == 61,
            forall|i: int| 0 <= i < 61 ==> tiles@[i].wf(),
        ensures
            r.wf(),
            r.spec_tiles() == tiles@,
    {
        Board { tiles }
    }

    /// Terrain of the given cell.
    pub fn get_tile(&self, index: &HexIndex) -> (r: Tile)
        requires
            self.wf(),
            index.wf(),
        ensures
            r == self.spec_tiles()[index.spec_index()],
    {
        self.tiles[index.get_index()]
    }
}

} // verus!

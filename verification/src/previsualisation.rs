//! Staged, non-committed previews of a selected unit's possible moves and
//! actions.

use vstd::prelude::*;
use crate::idx::{Direction, HexIndex};
use crate::life::Life;

verus! {

/// One atomic effect produced by resolving an attack.
#[derive(Clone, Copy, PartialEq, Eq, Structural, Debug)]
pub enum PrevisualisationItem {
    /// The unit at the cell gets this life value (with a staged loss to
    /// commit).
    LifeChange(Life),
    /// The unit at the cell is pushed one cell in the direction, unless the
    /// push is cancelled by an occupied destination.
    PushArrow(Direction, bool),
    /// Ranged-hit marker: the shot from the cell lands on the given cell.
    /// Display-only; no board mutation.
    LongDistanceShoot(HexIndex),
}

/// What is previewed while a unit is selected: a candidate route, or an
/// armed attack with its legal targets and the consequences for the hovered
/// target.
pub enum Previsualisation {
    Movement(Option<Vec<HexIndex>>),
    Action(bool, Vec<HexIndex>, Vec<(HexIndex, PrevisualisationItem)>),
}

impl Previsualisation {
    /// A movement preview with a concrete route is displayed.
    pub fn is_movement_some(&self) -> (r: bool)
        ensures
            r == (self matches Previsualisation::Movement(o) && o is Some),
    {
        match self {
            Previsualisation::Movement(r) => r.is_some(),
            _ => false,
        }
    }
}

} // verus!

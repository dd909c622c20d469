use hex_tactics::board::{Board, Tile};
use hex_tactics::idx::HexIndex;
use hex_tactics::pathfinder::{compute_travel_time, find_route};
use hex_tactics::units::{Unit, UnitType, Units};

fn empty_board() -> Board {
    let mut tiles: Vec<Tile> = Vec::new();
    for _ in 0..61 {
        tiles.push(Tile::GrassyPlain(0));
    }
    Board::new(tiles)
}

fn cell(i: usize) -> HexIndex {
    HexIndex::from_index(i).unwrap()
}

#[test]
fn travel() {
    //println!("{:?}", find_route(5.into(), 10.into()));
}

/// Reachability bound: every costed cell is within the budget, the start
/// costs zero, and nothing else costs zero.
#[test]
fn costs_stay_within_budget() {
    let board = empty_board();
    let mut units = Units::new();
    units.set(&cell(30), Some(Unit::new(UnitType::Scout)));
    let tt = compute_travel_time(&units, &board, cell(30), 3);
    assert_eq!(tt.len(), 61);
    assert_eq!(tt[30], Some(0));
    for i in 0..61 {
        if let Some(k) = tt[i] {
            assert!(k <= 3);
            assert!(i == 30 || k > 0);
        }
    }
    // a cell four hops away is out of reach: (8, 4) is at distance 4
    assert_eq!(tt[34], None);
    // a cell three hops away is reached at exactly its hop distance
    assert_eq!(tt[33], Some(3));
    assert_eq!(tt[31], Some(1));
}

/// Occupied cells are never reachable, and block passage entirely.
#[test]
fn occupied_cells_are_not_reachable() {
    let board = empty_board();
    let mut units = Units::new();
    // mover in the top-left corner; two of its three neighbours blocked
    units.set(&cell(0), Some(Unit::new(UnitType::Scout)));
    units.set(&cell(1), Some(Unit::new(UnitType::Barbarian)));
    units.set(&cell(5), Some(Unit::new(UnitType::Barbarian)));
    let tt = compute_travel_time(&units, &board, cell(0), 5);
    assert_eq!(tt[0], Some(0));
    // the blockers themselves are unreachable
    assert_eq!(tt[1], None);
    assert_eq!(tt[5], None);
    // the remaining bottom-right neighbour stays open
    assert_eq!(tt[6], Some(1));
    // with every way out blocked nothing else is reachable
    let mut units2 = Units::new();
    units2.set(&cell(0), Some(Unit::new(UnitType::Scout)));
    units2.set(&cell(1), Some(Unit::new(UnitType::Barbarian)));
    units2.set(&cell(5), Some(Unit::new(UnitType::Barbarian)));
    units2.set(&cell(6), Some(Unit::new(UnitType::Barbarian)));
    let tt2 = compute_travel_time(&units2, &board, cell(0), 5);
    for i in 1..61 {
        assert_eq!(tt2[i], None);
    }
}

/// A reconstructed route runs from next to the start up to the
/// destination, one adjacency per step, and exists exactly for costed
/// destinations.
#[test]
fn route_reconstruction() {
    let board = empty_board();
    let mut units = Units::new();
    units.set(&cell(30), Some(Unit::new(UnitType::Scout)));
    let tt = compute_travel_time(&units, &board, cell(30), 3);

    let route = find_route(&tt, cell(30), cell(33)).unwrap();
    assert_eq!(route.len(), 3);
    assert_eq!(route[0], cell(31));
    assert_eq!(route[1], cell(32));
    assert_eq!(route[2], cell(33));

    // destination without a cost: no route
    assert!(find_route(&tt, cell(30), cell(34)).is_none());
    // destination == start: the empty route
    let trivial = find_route(&tt, cell(30), cell(30)).unwrap();
    assert_eq!(trivial.len(), 0);
}

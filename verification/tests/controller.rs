use hex_tactics::board::{Board, Tile};
use hex_tactics::idx::HexIndex;
use hex_tactics::previsualisation::Previsualisation;
use hex_tactics::units::{Unit, UnitType, Units};

fn empty_board() -> Board {
    let mut tiles: Vec<Tile> = Vec::new();
    for _ in 0..61 {
        tiles.push(Tile::Forest(1));
    }
    Board::new(tiles)
}

fn cell(i: usize) -> HexIndex {
    HexIndex::from_index(i).unwrap()
}

/// Scenario A: a unit at cell 3 with 4 moves; selecting it and committing
/// a move to cell 7, two hops away, succeeds and leaves 2 moves.
#[test]
fn select_and_move_two_hops() {
    let mut board = empty_board();
    let mut units = Units::new();
    units.set(&cell(3), Some(Unit::new(UnitType::Archer)));
    assert_eq!(units.get(&cell(3)).as_ref().unwrap().get_remaining_moves(), 4);

    // click the unit, hover the destination, click the destination
    units.handle_mouse_click(&mut board, cell(3));
    units.handle_mouse_move(&board, cell(7));
    units.handle_mouse_click(&mut board, cell(7));

    assert!(units.get(&cell(3)).is_none());
    let moved = units.get(&cell(7)).as_ref().unwrap();
    assert_eq!(moved.get_remaining_moves(), 2);
}

/// Moving onto an occupied destination is silently rejected.
#[test]
fn move_onto_occupied_cell_is_rejected() {
    let mut board = empty_board();
    let mut units = Units::new();
    units.set(&cell(26), Some(Unit::new(UnitType::ArmoredBarbarian)));
    units.set(&cell(30), Some(Unit::new(UnitType::Scout)));

    // the scout has 5 moves but cell 26 is occupied: moving onto it fails
    units.handle_mouse_click(&mut board, cell(30));
    units.handle_mouse_move(&board, cell(26));
    units.handle_mouse_click(&mut board, cell(26));
    assert!(units.get(&cell(30)).is_some());
    assert!(units.get(&cell(26)).as_ref().unwrap().unit_type.is_barbarian());
}

/// Scenario B, end to end through the controller: select, arm the stick
/// knock, hover the defender, commit; the defender ends up one cell away
/// with one point less and the attacker's action is spent.
#[test]
fn commit_stick_knock_through_controller() {
    let mut board = empty_board();
    let mut units = Units::new();
    units.set(&cell(30), Some(Unit::new(UnitType::Scout)));
    units.set(&cell(31), Some(Unit::new(UnitType::Barbarian)));

    units.handle_mouse_click(&mut board, cell(30));
    assert!(units.action_selection(false, &board));
    units.handle_mouse_move(&board, cell(31));
    units.handle_mouse_click(&mut board, cell(31));

    assert!(units.get(&cell(31)).is_none());
    let pushed = units.get(&cell(32)).as_ref().unwrap();
    assert_eq!(pushed.life.get_current(), 2);
    let attacker = units.get(&cell(30)).as_ref().unwrap();
    assert!(!attacker.action_remaining);
}

/// Scenario C through the controller: the cell behind the defender is
/// occupied, so the defender keeps its cell, takes the raised damage, and
/// the blocker takes one collateral point.
#[test]
fn commit_cancelled_knock_through_controller() {
    let mut board = empty_board();
    let mut units = Units::new();
    units.set(&cell(30), Some(Unit::new(UnitType::Scout)));
    units.set(&cell(31), Some(Unit::new(UnitType::Barbarian)));
    units.set(&cell(32), Some(Unit::new(UnitType::BarbarianLordOfDeath)));

    units.handle_mouse_click(&mut board, cell(30));
    assert!(units.action_selection(false, &board));
    units.handle_mouse_move(&board, cell(31));
    units.handle_mouse_click(&mut board, cell(31));

    let defender = units.get(&cell(31)).as_ref().unwrap();
    assert_eq!(defender.life.get_current(), 1);
    let blocker = units.get(&cell(32)).as_ref().unwrap();
    assert_eq!(blocker.life.get_current(), 7);
}

/// Arming an attack with the action already spent is rejected.
#[test]
fn arming_twice_is_rejected() {
    let mut board = empty_board();
    let mut units = Units::new();
    units.set(&cell(30), Some(Unit::new(UnitType::Scout)));
    units.set(&cell(31), Some(Unit::new(UnitType::Barbarian)));

    units.handle_mouse_click(&mut board, cell(30));
    assert!(units.action_selection(false, &board));
    units.handle_mouse_move(&board, cell(31));
    units.handle_mouse_click(&mut board, cell(31));

    // the action is spent; selecting the unit again and re-arming fails
    units.handle_mouse_click(&mut board, cell(30));
    assert!(!units.action_selection(false, &board));
}

/// Clicking an empty cell with nothing selected changes nothing.
#[test]
fn click_on_empty_board_is_noop() {
    let mut board = empty_board();
    let mut units = Units::new();
    units.handle_mouse_click(&mut board, cell(17));
    for i in 0..61 {
        assert!(units.get(&cell(i)).is_none());
    }
}

/// The turn rotation refreshes movement and actions, and the scripted
/// hostile behaviour resolves one turn after it was planned: a stick
/// knock toward the fixed direction (up and to the right).
#[test]
fn next_turn_refreshes_and_drives_hostiles() {
    let mut board = empty_board();
    let mut units = Units::new();
    // hostile unit at (0, 5); its fixed attack direction points at (1, 4)
    units.set(&cell(35), Some(Unit::new(UnitType::Barbarian)));
    units.set(&cell(27), Some(Unit::new(UnitType::Archer)));

    // spend the archer's movement
    units.handle_mouse_click(&mut board, cell(27));
    units.handle_mouse_move(&board, cell(28));
    units.handle_mouse_click(&mut board, cell(28));
    assert_eq!(units.get(&cell(28)).as_ref().unwrap().get_remaining_moves(), 3);

    // first turn change: moves refresh, the hostile plans its knock
    assert!(units.next_turn(&mut board));
    assert_eq!(units.get(&cell(28)).as_ref().unwrap().get_remaining_moves(), 4);
    assert_eq!(units.get(&cell(28)).as_ref().unwrap().life.get_current(), 2);

    // move the archer into the hostile's line of fire at (1, 4)
    units.handle_mouse_click(&mut board, cell(28));
    units.handle_mouse_move(&board, cell(27));
    units.handle_mouse_click(&mut board, cell(27));

    // second turn change: the staged knock was computed against the
    // previous position, so it still resolves on the empty cell 27 only
    // after the re-staging that followed the move; the hit lands now
    assert!(units.next_turn(&mut board));
    // the archer was knocked from (1, 4) toward (1, 3): one damage and a push
    assert!(units.get(&cell(27)).is_none());
    let knocked = units.get(&cell(19)).as_ref().unwrap();
    assert_eq!(knocked.life.get_current(), 1);
}

/// The preview queries mirror the selection state: the reachable set and
/// a default movement preview after selecting, the armed attack's targets
/// after arming.
#[test]
fn previews_follow_the_selection() {
    let mut board = empty_board();
    let mut units = Units::new();
    units.set(&cell(30), Some(Unit::new(UnitType::Scout)));
    units.set(&cell(31), Some(Unit::new(UnitType::Barbarian)));

    assert!(units.current_previsualisation().is_none());
    assert!(units.reachable_set().is_none());

    units.handle_mouse_click(&mut board, cell(30));
    let tt = units.reachable_set().unwrap();
    assert_eq!(tt[30], Some(0));
    // the neighbour is occupied and blocks passage: unreachable
    assert_eq!(tt[31], None);
    // the cell behind it is reached around the blocker in three hops
    assert_eq!(tt[32], Some(3));
    match units.current_previsualisation().unwrap() {
        Previsualisation::Movement(None) => {},
        _ => panic!("expected an empty movement preview"),
    }
    assert!(units.potential_targets_preview().is_none());

    assert!(units.action_selection(false, &board));
    let targets = units.potential_targets_preview().unwrap();
    assert!(targets.contains(&cell(31)));
    assert!(!targets.contains(&cell(30)));
}

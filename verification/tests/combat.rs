use hex_tactics::actions::Attack;
use hex_tactics::board::{Board, Tile};
use hex_tactics::idx::{Direction, HexIndex};
use hex_tactics::life::Life;
use hex_tactics::previsualisation::PrevisualisationItem;
use hex_tactics::units::{Unit, UnitType};

fn empty_board() -> Board {
    let mut tiles: Vec<Tile> = Vec::new();
    for _ in 0..61 {
        tiles.push(Tile::Plain(0));
    }
    Board::new(tiles)
}

fn empty_grid() -> Vec<Option<Unit>> {
    let mut grid: Vec<Option<Unit>> = Vec::new();
    for _ in 0..61 {
        grid.push(None);
    }
    grid
}

fn cell(i: usize) -> HexIndex {
    HexIndex::from_index(i).unwrap()
}

/// Heal floor: a unit below a third of its maximum is raised to that
/// third; one at or above it gains exactly one point, capped at the
/// maximum.
#[test]
fn heal_floor() {
    // 8 max life; the floor is 8 / 3 = 2
    let full = Life::new(&UnitType::BarbarianLordOfDeath);
    assert_eq!(full.get_max(), 8);

    let mut hurt = full.previsualise_loss(7);
    hurt.lose_life();
    assert_eq!(hurt.get_current(), 1);

    // below the floor: healing jumps to the floor
    let mut healed = hurt.previsualise_loss(-1);
    healed.lose_life();
    assert_eq!(healed.get_current(), 2);

    // at the floor: healing restores exactly one point
    let mut healed_again = healed.previsualise_loss(-1);
    healed_again.lose_life();
    assert_eq!(healed_again.get_current(), 3);

    // at the maximum: healing never exceeds it
    let mut capped = full.previsualise_loss(-1);
    capped.lose_life();
    assert_eq!(capped.get_current(), 8);
}

#[test]
fn lose_life_commits_and_clears() {
    let full = Life::new(&UnitType::Knight);
    let mut l = full.previsualise_loss(3);
    assert_eq!(l.get_current(), 4);
    assert_eq!(l.loss, 3);
    l.lose_life();
    assert_eq!(l.get_current(), 1);
    assert_eq!(l.loss, 0);
    assert!(!l.is_dead());
    let mut lethal = l.previsualise_loss(2);
    lethal.lose_life();
    assert!(lethal.is_dead());
}

/// Scenario B: attacker knocks a defender with an empty cell behind it;
/// one point of damage and an uncancelled push, and after the commit the
/// defender stands one cell away with one point less.
#[test]
fn stick_knock_pushes_into_empty_cell() {
    let board = empty_board();
    let mut grid = empty_grid();
    grid[30] = Some(Unit::new(UnitType::Scout));
    grid[31] = Some(Unit::new(UnitType::Barbarian));

    let cons = Attack::StickKnock.get_consequences(&board, &grid, &cell(30), &cell(31));
    assert_eq!(cons.len(), 2);
    assert_eq!(cons[0].0, cell(31));
    match cons[0].1 {
        PrevisualisationItem::LifeChange(l) => {
            assert_eq!(l.loss, 1);
            assert_eq!(l.get_current(), 3);
        },
        _ => panic!("expected a life change"),
    }
    assert_eq!(cons[1], (cell(31), PrevisualisationItem::PushArrow(Direction::Right, false)));

    let mut board = board;
    Attack::apply(cons, &mut board, &mut grid);
    assert!(grid[31].is_none());
    let moved = grid[32].as_ref().unwrap();
    assert_eq!(moved.life.get_current(), 2);
}

/// Scenario C (push cancellation): with a third unit behind the defender,
/// the damage rises, the blocker takes one collateral point, the push is
/// cancelled, and nobody moves.
#[test]
fn stick_knock_cancelled_by_blocker() {
    let board = empty_board();
    let mut grid = empty_grid();
    grid[30] = Some(Unit::new(UnitType::Scout));
    grid[31] = Some(Unit::new(UnitType::Barbarian));
    grid[32] = Some(Unit::new(UnitType::ArmoredBarbarian));

    let cons = Attack::StickKnock.get_consequences(&board, &grid, &cell(30), &cell(31));
    assert_eq!(cons.len(), 3);
    assert_eq!(cons[0].0, cell(31));
    match cons[0].1 {
        PrevisualisationItem::LifeChange(l) => assert_eq!(l.loss, 2),
        _ => panic!("expected a life change"),
    }
    assert_eq!(cons[1].0, cell(32));
    match cons[1].1 {
        PrevisualisationItem::LifeChange(l) => assert_eq!(l.loss, 1),
        _ => panic!("expected a life change"),
    }
    assert_eq!(cons[2], (cell(31), PrevisualisationItem::PushArrow(Direction::Right, true)));

    let mut board = board;
    Attack::apply(cons, &mut board, &mut grid);
    let defender = grid[31].as_ref().unwrap();
    assert_eq!(defender.life.get_current(), 1);
    let blocker = grid[32].as_ref().unwrap();
    assert_eq!(blocker.life.get_current(), 3);
    assert!(grid[30].is_some());
}

/// The offensive sword fight pulls toward the attacker; the attacker's
/// own cell blocks the pull, so the target takes the raised damage and
/// the attacker one point of collateral damage.
#[test]
fn offensive_sword_fight_hits_attacker_too() {
    let board = empty_board();
    let mut grid = empty_grid();
    grid[30] = Some(Unit::new(UnitType::Knight));
    grid[31] = Some(Unit::new(UnitType::Barbarian));

    let cons = Attack::OffensiveSwordFight.get_consequences(&board, &grid, &cell(30), &cell(31));
    assert_eq!(cons.len(), 3);
    match cons[0].1 {
        PrevisualisationItem::LifeChange(l) => assert_eq!(l.loss, 3),
        _ => panic!("expected a life change"),
    }
    assert_eq!(cons[1].0, cell(30));
    match cons[1].1 {
        PrevisualisationItem::LifeChange(l) => assert_eq!(l.loss, 1),
        _ => panic!("expected a life change"),
    }
    assert_eq!(cons[2], (cell(31), PrevisualisationItem::PushArrow(Direction::Left, true)));
}

/// Volley obstruction: the ray passes over empty cells, stops at the
/// first occupied cell, and resolves against it even when a farther cell
/// was clicked; a second unit farther down the line only ever takes the
/// collateral damage of the obstruction rule.
#[test]
fn volley_strikes_first_obstacle() {
    let board = empty_board();
    let mut grid = empty_grid();
    grid[30] = Some(Unit::new(UnitType::Archer));
    grid[33] = Some(Unit::new(UnitType::Barbarian));
    grid[34] = Some(Unit::new(UnitType::BarbarianVariant));

    let targets = Attack::VolleyOfArrows.get_potential_targets(&board, &grid, &cell(30));
    assert!(targets.contains(&cell(31)));
    assert!(targets.contains(&cell(32)));
    assert!(targets.contains(&cell(33)));
    assert!(!targets.contains(&cell(34)));

    // clicking a mid-ray cell resolves against the first occupied cell
    let cons = Attack::VolleyOfArrows.get_consequences(&board, &grid, &cell(30), &cell(31));
    assert_eq!(cons.len(), 4);
    assert_eq!(cons[0].0, cell(33));
    match cons[0].1 {
        PrevisualisationItem::LifeChange(l) => assert_eq!(l.loss, 3),
        _ => panic!("expected a life change"),
    }
    assert_eq!(cons[1].0, cell(34));
    match cons[1].1 {
        PrevisualisationItem::LifeChange(l) => assert_eq!(l.loss, 1),
        _ => panic!("expected a life change"),
    }
    assert_eq!(cons[2], (cell(33), PrevisualisationItem::PushArrow(Direction::Right, true)));
    assert_eq!(cons[3], (cell(30), PrevisualisationItem::LongDistanceShoot(cell(33))));
}

/// An unobstructed volley: two points of damage and an uncancelled push.
#[test]
fn volley_unobstructed() {
    let board = empty_board();
    let mut grid = empty_grid();
    grid[30] = Some(Unit::new(UnitType::Archer));
    grid[33] = Some(Unit::new(UnitType::Barbarian));

    let cons = Attack::VolleyOfArrows.get_consequences(&board, &grid, &cell(30), &cell(33));
    assert_eq!(cons.len(), 3);
    match cons[0].1 {
        PrevisualisationItem::LifeChange(l) => assert_eq!(l.loss, 2),
        _ => panic!("expected a life change"),
    }
    assert_eq!(cons[1], (cell(33), PrevisualisationItem::PushArrow(Direction::Right, false)));
    assert_eq!(cons[2], (cell(30), PrevisualisationItem::LongDistanceShoot(cell(33))));
}

/// Healing targets the neighbours and the caster's own cell.
#[test]
fn heal_targets_and_consequence() {
    let board = empty_board();
    let mut grid = empty_grid();
    grid[30] = Some(Unit::new(UnitType::Archer));

    let targets = Attack::Heal.get_potential_targets(&board, &grid, &cell(30));
    assert_eq!(targets.len(), 7);
    assert!(targets.contains(&cell(30)));
    assert!(targets.contains(&cell(31)));
    assert!(targets.contains(&cell(29)));

    let cons = Attack::Heal.get_consequences(&board, &grid, &cell(30), &cell(30));
    assert_eq!(cons.len(), 1);
    match cons[0].1 {
        PrevisualisationItem::LifeChange(l) => assert_eq!(l.loss, -1),
        _ => panic!("expected a life change"),
    }
}

/// A melee attack aimed at a cell that is not a neighbour yields nothing.
#[test]
fn melee_rejects_non_neighbour() {
    let board = empty_board();
    let mut grid = empty_grid();
    grid[30] = Some(Unit::new(UnitType::Scout));
    grid[33] = Some(Unit::new(UnitType::Barbarian));
    let cons = Attack::StickKnock.get_consequences(&board, &grid, &cell(30), &cell(33));
    assert!(cons.is_empty());
}

/// A lethal life change empties the slot on commit.
#[test]
fn apply_removes_dead_units() {
    let board = empty_board();
    let mut grid = empty_grid();
    grid[30] = Some(Unit::new(UnitType::Knight));
    grid[31] = Some(Unit::new(UnitType::BarbarianVariant));
    grid[32] = Some(Unit::new(UnitType::Barbarian));

    // 3 damage against 2 life: the defender dies instead of being pushed
    let cons = Attack::DefensiveSwordFight.get_consequences(&board, &grid, &cell(30), &cell(31));
    let mut board = board;
    Attack::apply(cons, &mut board, &mut grid);
    assert!(grid[31].is_none());
    assert_eq!(grid[32].as_ref().unwrap().life.get_current(), 2);
}

#[test]
fn unit_tables() {
    assert_eq!(UnitType::Archer.moves_per_turn(), 4);
    assert_eq!(UnitType::Knight.moves_per_turn(), 3);
    assert_eq!(UnitType::Scout.moves_per_turn(), 5);
    assert_eq!(UnitType::Barbarian.moves_per_turn(), 3);
    assert_eq!(UnitType::BarbarianVariant.moves_per_turn(), 4);
    assert_eq!(UnitType::ArmoredBarbarian.moves_per_turn(), 2);
    assert_eq!(UnitType::BarbarianLordOfDeath.moves_per_turn(), 2);

    assert_eq!(Life::new(&UnitType::Archer).get_max(), 2);
    assert_eq!(Life::new(&UnitType::Knight).get_max(), 4);
    assert_eq!(Life::new(&UnitType::Scout).get_max(), 3);
    assert_eq!(Life::new(&UnitType::BarbarianLordOfDeath).get_max(), 8);

    assert!(!UnitType::Archer.is_barbarian());
    assert!(UnitType::BarbarianLordOfDeath.is_barbarian());
    assert_eq!(UnitType::Scout.get_texture_idx(), 2);

    let archer = Unit::new(UnitType::Archer);
    assert_eq!(archer.attacks, (Attack::VolleyOfArrows, Attack::Heal));
    assert_eq!(archer.get_remaining_moves(), 4);
    assert!(archer.action_remaining);

    assert!(Attack::VolleyOfArrows._can_be_used_by_unit(&UnitType::Archer));
    assert!(!Attack::VolleyOfArrows._can_be_used_by_unit(&UnitType::Knight));
    assert!(Attack::OffensiveSwordFight._can_be_used_by_unit(&UnitType::Knight));
    assert!(Attack::Heal._can_be_used_by_unit(&UnitType::Scout));

    assert_eq!(Tile::Forest(2).get_texture_idx(), 6);
    assert_eq!(Tile::GrassyPlain(1).get_texture_idx(), 1);
    assert_eq!(Tile::Plain(3).get_texture_idx(), 11);
}

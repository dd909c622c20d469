//! Unit types, units, and the interactive turn controller.

use vstd::prelude::*;
use crate::actions::{
    consequences_wf, lemma_spec_consequences_wf, spec_apply, spec_consequences, Attack,
};
use crate::board::Board;
use crate::idx::{lemma_index_injective, nbr_cell, Direction, HexIndex};
use crate::life::Life;
use crate::pathfinder::{compute_travel_time, cost_map_ok, find_route, route_map_ok, route_ok};
use crate::previsualisation::{Previsualisation, PrevisualisationItem};

verus! {

/// Kind of a unit, fixing its life, movement and attacks.  The four
/// barbarian kinds are hostile, script-driven units.
#[derive(Clone, Copy, PartialEq, Eq, Structural, Debug)]
pub enum UnitType {
    Archer,
    Knight,
    Scout,
    Barbarian,
    BarbarianVariant,
    ArmoredBarbarian,
    BarbarianLordOfDeath,
}

impl UnitType {
    /// Maximum life points of the unit type.
    pub open spec fn spec_max_life(self) -> int {
        match self {
            UnitType::Archer => 2,
            UnitType::Knight => 4,
            UnitType::Scout => 3,
            UnitType::Barbarian => 3,
            UnitType::BarbarianVariant => 2,
            UnitType::ArmoredBarbarian => 4,
            UnitType::BarbarianLordOfDeath => 8,
        }
    }

    /// Movement budget of the unit type at the start of a turn.
    pub open spec fn spec_moves_per_turn(self) -> int {
        match self {
            UnitType::Archer => 4,
            UnitType::Knight => 3,
            UnitType::Scout => 5,
            UnitType::Barbarian => 3,
            UnitType::BarbarianVariant => 4,
            UnitType::ArmoredBarbarian => 2,
            UnitType::BarbarianLordOfDeath => 2,
        }
    }

    /// The unit type is one of the hostile, script-driven kinds.
    pub open spec fn spec_is_barbarian(self) -> bool {
        match self {
            UnitType::Archer | UnitType::Knight | UnitType::Scout => false,
            _ => true,
        }
    }

    /// The two attacks of the unit type, in slot order.
    pub open spec fn spec_attacks(self) -> (Attack, Attack) {
        match self {
            UnitType::Archer => (Attack::VolleyOfArrows, Attack::Heal),
            UnitType::Scout => (Attack::StickKnock, Attack::Heal),
            UnitType::Knight => (Attack::OffensiveSwordFight, Attack::DefensiveSwordFight),
            UnitType::Barbarian => (Attack::StickKnock, Attack::Heal),
            UnitType::BarbarianVariant => (Attack::StickKnock, Attack::Heal),
            UnitType::ArmoredBarbarian => (Attack::StickKnock, Attack::Heal),
            UnitType::BarbarianLordOfDeath => (Attack::StickKnock, Attack::Heal),
        }
    }

    /// Index of the unit type's texture in the presentation layer's table.
    pub fn get_texture_idx(&self) -> (r: usize)
        ensures
            r == match *self {
                UnitType::Archer => 0usize,
                UnitType::Knight => 1usize,
                UnitType::Scout => 2usize,
                UnitType::Barbarian => 3usize,
                UnitType::BarbarianVariant => 4usize,
                UnitType::ArmoredBarbarian => 5usize,
                UnitType::BarbarianLordOfDeath => 6usize,
            },
    {
        match self {
            UnitType::Archer => 0,
            UnitType::Knight => 1,
            UnitType::Scout => 2,
            UnitType::Barbarian => 3,
            UnitType::BarbarianVariant => 4,
            UnitType::ArmoredBarbarian => 5,
            UnitType::BarbarianLordOfDeath => 6,
        }
    }

    /// Movement budget of the unit type at the start of a turn.
    pub fn moves_per_turn(&self) -> (r: usize)
        ensures
            r as int == self.spec_moves_per_turn(),
    {
        match self {
            UnitType::Archer => 4,
            UnitType::Knight => 3,
            UnitType::Scout => 5,
            UnitType::Barbarian => 3,
            UnitType::BarbarianVariant => 4,
            UnitType::ArmoredBarbarian => 2,
            UnitType::BarbarianLordOfDeath => 2,
        }
    }

    /// The unit type is one of the hostile, script-driven kinds.
    pub fn is_barbarian(&self) -> (r: bool)
        ensures
            r == self.spec_is_barbarian(),
    {
        match self {
            UnitType::Archer | UnitType::Knight | UnitType::Scout => false,
            UnitType::Barbarian
            | UnitType::BarbarianVariant
            | UnitType::ArmoredBarbarian
            | UnitType::BarbarianLordOfDeath => true,
        }
    }
}

/// A 61-slot unit table with every placed unit's life well formed.
pub open spec fn grid_wf(u: Seq<Option<Unit>>) -> bool {
    &&& u.len() == 61
    &&& forall|i: int| 0 <= i < 61 && u[i] is Some ==> (#[trigger] u[i])->Some_0.life.wf()
}

/// A unit placed on the board, owned exclusively by its cell's slot.
pub struct Unit {
    pub unit_type: UnitType,
    pub remaining_moves: usize,
    pub attacks: (Attack, Attack),
    pub life: Life,
    pub action_remaining: bool,
    /// The attack and direction chain a hostile unit will perform at the
    /// next turn, planned a turn ahead so it can be previewed.
    pub barbarian_next_action: Option<(Attack, Vec<Direction>)>,
}

impl Unit {
    /// A fresh unit of the given type: full life, full movement, action
    /// available, no planned hostile action.
    pub fn new(unit_type: UnitType) -> (r: Unit)
        ensures
            r.unit_type == unit_type,
            r.remaining_moves as int == unit_type.spec_moves_per_turn(),
            r.life.wf(),
            r.life.spec_max() == unit_type.spec_max_life(),
            r.life.spec_current() == r.life.spec_max(),
            r.life.spec_loss() == 0,
            r.action_remaining,
            r.attacks == unit_type.spec_attacks(),
            r.barbarian_next_action is None,
    {
        Unit {
            remaining_moves: unit_type.moves_per_turn(),
            life: Life::new(&unit_type),
            action_remaining: true,
            attacks: match unit_type {
                UnitType::Archer => (Attack::VolleyOfArrows, Attack::Heal),
                UnitType::Scout => (Attack::StickKnock, Attack::Heal),
                UnitType::Knight => (Attack::OffensiveSwordFight, Attack::DefensiveSwordFight),
                UnitType::Barbarian => (Attack::StickKnock, Attack::Heal),
                UnitType::BarbarianVariant => (Attack::StickKnock, Attack::Heal),
                UnitType::ArmoredBarbarian => (Attack::StickKnock, Attack::Heal),
                UnitType::BarbarianLordOfDeath => (Attack::StickKnock, Attack::Heal),
            },
            barbarian_next_action: None,
            unit_type,
        }
    }

    /// Movement budget left this turn.
    pub fn get_remaining_moves(&self) -> (r: usize)
        ensures
            r == self.remaining_moves,
    {
        self.remaining_moves
    }
}

/// The transient state while a unit is selected: where it stands, the cost
/// map of the cells it can still reach this turn, and the current preview.
pub struct SelectedUnit {
    pub position: HexIndex,
    pub reachable_tiles: Vec<Option<usize>>,
    pub previsualisation: Previsualisation,
}

impl SelectedUnit {
    /// The selection names a board cell, its cost map is route-coherent,
    /// and an armed action's targets and preview are well formed.
    pub open spec fn wf(self) -> bool {
        &&& self.position.wf()
        &&& self.reachable_tiles@.len() == 61
        &&& route_map_ok(self.reachable_tiles@, self.position.spec_index())
        &&& crate::pathfinder::from_cost_search(
            self.reachable_tiles@,
            self.position.spec_index(),
        )
        &&& match self.previsualisation {
            Previsualisation::Movement(_) => true,
            Previsualisation::Action(_, targets, cons) => {
                &&& forall|j: int| 0 <= j < targets@.len() ==> (#[trigger] targets@[j]).wf()
                &&& consequences_wf(cons@)
            },
        }
    }
}

/// The unit table and the interactive state around it: the single source of
/// truth for which unit occupies which cell, the current selection, and the
/// staged consequences of the hostile units' planned actions.
pub struct Units {
    units: Vec<Option<Unit>>,
    selected_unit: Option<SelectedUnit>,
    barbarian_actions: Vec<(HexIndex, PrevisualisationItem)>,
}

impl Units {
    /// The 61 unit slots.
    pub closed spec fn grid(self) -> Seq<Option<Unit>> {
        self.units@
    }

    /// The current selection.
    pub closed spec fn selection(self) -> Option<SelectedUnit> {
        self.selected_unit
    }

    /// The staged consequences of the hostile units' planned actions.
    pub closed spec fn staged_hostile(self) -> Seq<(HexIndex, PrevisualisationItem)> {
        self.barbarian_actions@
    }

    /// Every component is well formed.
    pub open spec fn wf(self) -> bool {
        &&& grid_wf(self.grid())
        &&& consequences_wf(self.staged_hostile())
        &&& (self.selection() matches Some(s) ==> s.wf())
    }

    /// An empty table: no units, no selection, no staged hostile actions.
    pub fn new() -> (r: Units)
        ensures
            r.wf(),
            r.grid().len() == 61,
            forall|i: int| 0 <= i < 61 ==> r.grid()[i] is None,
            r.selection() is None,
            r.staged_hostile() =~= Seq::<(HexIndex, PrevisualisationItem)>::empty(),
    {
        let mut units: Vec<Option<Unit>> = Vec::new();
        let mut z: usize = 0;
        while z < 61
            invariant
                units@.len() == z as int,
                z <= 61,
                forall|i: int| 0 <= i < z as int ==> units@[i] is None,
            decreases 61 - z,
        {
            units.push(None);
            z += 1;
        }
        Units { units, selected_unit: None, barbarian_actions: Vec::new() }
    }

    /// The unit slot of the given cell.
    pub fn get(&self, idx: &HexIndex) -> (r: &Option<Unit>)
        requires
            self.wf(),
            idx.wf(),
        ensures
            *r == self.grid()[idx.spec_index()],
    {
        &self.units[idx.get_index()]
    }

    /// The cost map of the currently selected unit, when one is selected:
    /// one optional hop count per cell.
    pub fn reachable_set(&self) -> (r: Option<&Vec<Option<usize>>>)
        ensures
            match self.selection() {
                Some(s) => r matches Some(tt) && *tt == s.reachable_tiles,
                None => r is None,
            },
    {
        match &self.selected_unit {
            Some(s) => Some(&s.reachable_tiles),
            None => None,
        }
    }

    /// The preview attached to the current selection, when one is
    /// selected: the candidate route, or the armed attack with its
    /// targets and consequences.
    pub fn current_previsualisation(&self) -> (r: Option<&Previsualisation>)
        ensures
            match self.selection() {
                Some(s) => r matches Some(p) && *p == s.previsualisation,
                None => r is None,
            },
    {
        match &self.selected_unit {
            Some(s) => Some(&s.previsualisation),
            None => None,
        }
    }

    /// The legal targets of the armed attack, when the selection is in
    /// action sub-mode.
    pub fn potential_targets_preview(&self) -> (r: Option<&Vec<HexIndex>>)
        ensures
            match self.selection() {
                Some(s) => match s.previsualisation {
                    Previsualisation::Action(_second, targets, _cons) => r matches Some(t) && *t
                        == targets,
                    _ => r is None,
                },
                None => r is None,
            },
    {
        match &self.selected_unit {
            Some(s) => match &s.previsualisation {
                Previsualisation::Action(_second, targets, _cons) => Some(targets),
                _ => None,
            },
            None => None,
        }
    }

    /// Put `unit` (or nothing) into the given cell's slot.
    pub fn set(&mut self, idx: &HexIndex, unit: Option<Unit>)
        requires
            old(self).wf(),
            idx.wf(),
            unit matches Some(x) ==> x.life.wf(),
        ensures
            final(self).wf(),
            final(self).grid() == old(self).grid().update(idx.spec_index(), unit),
            final(self).selection() == old(self).selection(),
            final(self).staged_hostile() == old(self).staged_hostile(),
    {
        self.units[idx.get_index()] = unit;
    }
}

/// The unit table after a commit of the current movement preview onto
/// `to`: the selected unit leaves its cell and enters `to` with the
/// route's cost deducted from its movement budget — provided a unit is
/// selected, it is not hostile, `to` was costed within the unit's budget,
/// and `to` is vacant (or the unit's own cell).  Anything else changes
/// nothing.
pub open spec fn spec_move_outcome(
    g: Seq<Option<Unit>>,
    sel: Option<SelectedUnit>,
    to: HexIndex,
) -> Seq<Option<Unit>> {
    match sel {
        None => g,
        Some(s) => match g[s.position.spec_index()] {
            Some(unit) => match s.reachable_tiles@[to.spec_index()] {
                Some(k) => {
                    if !unit.unit_type.spec_is_barbarian() && k <= unit.remaining_moves && (g[
                        to.spec_index()
                    ] is None || to == s.position) {
                        g.update(s.position.spec_index(), None).update(
                            to.spec_index(),
                            Some(Unit { remaining_moves: (unit.remaining_moves - k) as usize, ..unit }),
                        )
                    } else {
                        g
                    }
                },
                None => g,
            },
            None => g,
        },
    }
}

/// The unit table after a commit of an armed action onto `target`: the
/// previewed consequences are applied and the acting unit's action is
/// spent — provided the selection is in action sub-mode, `target` is among
/// the legal targets, and the acting unit exists and is not hostile.
/// Anything else changes nothing.
pub open spec fn spec_action_outcome(
    g: Seq<Option<Unit>>,
    s: SelectedUnit,
    target: HexIndex,
) -> Seq<Option<Unit>> {
    match s.previsualisation {
        Previsualisation::Action(_second, targets, cons) => {
            match g[s.position.spec_index()] {
                Some(unit) => {
                    if targets@.contains(target) && !unit.unit_type.spec_is_barbarian() {
                        let g2 = spec_apply(g, cons@);
                        match g2[s.position.spec_index()] {
                            Some(u2) => g2.update(
                                s.position.spec_index(),
                                Some(Unit { action_remaining: false, ..u2 }),
                            ),
                            None => g2,
                        }
                    } else {
                        g
                    }
                },
                None => g,
            }
        },
        _ => g,
    }
}

/// A unit table with every unit's movement and action refreshed for a new
/// turn.
pub open spec fn spec_refresh(g: Seq<Option<Unit>>) -> Seq<Option<Unit>> {
    Seq::new(
        g.len(),
        |i: int|
            match g[i] {
                None => None,
                Some(u) => Some(
                    Unit {
                        remaining_moves: u.unit_type.spec_moves_per_turn() as usize,
                        action_remaining: true,
                        ..u
                    },
                ),
            },
    )
}

/// `s2` is `s` with the scripted hostile plan written in: every hostile
/// unit now plans a stick knock toward the fixed direction (the opposite
/// of bottom left), every other slot is untouched.
pub open spec fn planned_slot(s: Option<Unit>, s2: Option<Unit>) -> bool {
    match s {
        None => s2 is None,
        Some(u) => {
            if u.unit_type.spec_is_barbarian() {
                s2 matches Some(u2) && u2.unit_type == u.unit_type && u2.remaining_moves
                    == u.remaining_moves && u2.attacks == u.attacks && u2.life == u.life
                    && u2.action_remaining == u.action_remaining && (
                u2.barbarian_next_action matches Some(pair) && pair.0 == Attack::StickKnock
                    && pair.1@ =~= seq![Direction::BottomLeft.spec_opposite()])
            } else {
                s2 == Some(u)
            }
        },
    }
}

/// The whole table, slot for slot, after the hostile plan is written in.
pub open spec fn planned(g: Seq<Option<Unit>>, g2: Seq<Option<Unit>>) -> bool {
    &&& g2.len() == g.len()
    &&& forall|i: int| 0 <= i < g.len() ==> planned_slot(g[i], #[trigger] g2[i])
}

/// The cell reached from `c` by following `dirs` in order, `None` when any
/// step leaves the board.
pub open spec fn spec_follow(c: HexIndex, dirs: Seq<Direction>) -> Option<HexIndex>
    decreases dirs.len(),
{
    if dirs.len() == 0 {
        Some(c)
    } else {
        match nbr_cell(c, dirs[0]) {
            Some(n) => spec_follow(n, dirs.drop_first()),
            None => None,
        }
    }
}

/// Following one more direction continues from the cell reached so far.
proof fn lemma_spec_follow_snoc(c: HexIndex, dirs: Seq<Direction>, d: Direction)
    ensures
        spec_follow(c, dirs.push(d)) == match spec_follow(c, dirs) {
            Some(t) => nbr_cell(t, d),
            None => None,
        },
    decreases dirs.len(),
{
    if dirs.len() == 0 {
        reveal_with_fuel(spec_follow, 2);
        assert(dirs.push(d).drop_first() =~= Seq::<Direction>::empty());
        assert(dirs.push(d)[0] == d);
    } else {
        assert(dirs.push(d).drop_first() =~= dirs.drop_first().push(d));
        assert(dirs.push(d)[0] == dirs[0]);
        match nbr_cell(c, dirs[0]) {
            Some(n) => {
                lemma_spec_follow_snoc(n, dirs.drop_first(), d);
            },
            None => {},
        }
    }
}

/// The consequences of the hostile unit planned at slot `i`, when there is
/// one and its direction chain stays on the board.
pub open spec fn spec_barb_step(g: Seq<Option<Unit>>, i: int) -> Seq<(
    HexIndex,
    PrevisualisationItem,
)> {
    match g[i] {
        Some(u) => match u.barbarian_next_action {
            Some(pair) => match spec_follow(crate::idx::cell_at(i), pair.1@) {
                Some(t) => spec_consequences(pair.0, g, crate::idx::cell_at(i), t),
                None => Seq::empty(),
            },
            None => Seq::empty(),
        },
        None => Seq::empty(),
    }
}

/// The staged consequences of every hostile unit's planned action among
/// the first `n` slots, in slot order.
pub open spec fn spec_barb_consequences(g: Seq<Option<Unit>>, n: int) -> Seq<(
    HexIndex,
    PrevisualisationItem,
)>
    decreases n,
{
    if n <= 0 {
        Seq::empty()
    } else {
        spec_barb_consequences(g, n - 1) + spec_barb_step(g, n - 1)
    }
}

/// `v` holds the cell `c`.
fn vec_contains_cell(v: &Vec<HexIndex>, c: &HexIndex) -> (r: bool)
    ensures
        r == v@.contains(*c),
{
    let mut k: usize = 0;
    while k < v.len()
        invariant
            k <= v@.len(),
            forall|j: int| 0 <= j < k ==> v@[j] != *c,
        decreases v@.len() - k,
    {
        if v[k] == *c {
            proof {
                assert(v@[k as int] == *c);
            }
            return true;
        }
        k += 1;
    }
    proof {
        if v@.contains(*c) {
            let j = choose|j: int| 0 <= j < v@.len() && v@[j] == *c;
        }
    }
    false
}

impl Units {
    /// Select the unit standing on `index`: compute the cost map of every
    /// cell it can reach with its remaining movement, and enter the default
    /// movement sub-mode with no route previewed yet.  Selecting an empty
    /// cell changes nothing.
    pub fn select_unit(&mut self, index: HexIndex, map: &Board)
        requires
            old(self).wf(),
            index.wf(),
        ensures
            final(self).wf(),
            final(self).grid() == old(self).grid(),
            final(self).staged_hostile() == old(self).staged_hostile(),
            old(self).grid()[index.spec_index()] is None ==> final(self).selection()
                == old(self).selection(),
            old(self).grid()[index.spec_index()] matches Some(unit)
                ==> (final(self).selection() matches Some(s) && s.position == index && (
            s.previsualisation matches Previsualisation::Movement(m) && m is None) && cost_map_ok(
                s.reachable_tiles@,
                old(self).grid(),
                index.spec_index(),
                unit.remaining_moves as int,
            ) && crate::pathfinder::cost_map_closed(
                s.reachable_tiles@,
                old(self).grid(),
                unit.remaining_moves as int,
            ) && crate::pathfinder::cost_map_complete(
                s.reachable_tiles@,
                old(self).grid(),
                index.spec_index(),
                unit.remaining_moves as int,
            ) && crate::pathfinder::cost_map_minimal(
                s.reachable_tiles@,
                old(self).grid(),
                index.spec_index(),
            )),
    {
        let moves: Option<usize> = match &self.units[index.get_index()] {
            Some(unit) => Some(unit.remaining_moves),
            None => None,
        };
        match moves {
            Some(remaining) => {
                let reachable_tiles = compute_travel_time(self, map, index, remaining);
                proof {
                    reveal(crate::pathfinder::from_cost_search);
                    assert(crate::pathfinder::from_cost_search(
                        reachable_tiles@,
                        index.spec_index(),
                    ));
                }
                self.selected_unit = Some(
                    SelectedUnit {
                        position: index,
                        reachable_tiles,
                        previsualisation: Previsualisation::Movement(None),
                    },
                );
            },
            None => {},
        }
    }

    /// Refresh the preview for the hovered cell `index`: in movement
    /// sub-mode, the candidate route there; in action sub-mode, the armed
    /// attack's consequences when `index` is a legal target, and an empty
    /// preview otherwise.  With no selection, nothing changes.
    pub fn handle_mouse_move(&mut self, map: &Board, index: HexIndex)
        requires
            old(self).wf(),
            index.wf(),
        ensures
            final(self).wf(),
            final(self).grid() == old(self).grid(),
            final(self).staged_hostile() == old(self).staged_hostile(),
            old(self).selection() is None ==> final(self).selection() is None,
            old(self).selection() matches Some(s) ==> (final(self).selection() matches Some(s2)
                && s2.position == s.position && s2.reachable_tiles@ == s.reachable_tiles@ && (
            match s.previsualisation {
                Previsualisation::Movement(_) => s2.previsualisation
                    matches Previsualisation::Movement(r) && (r is Some
                    <==> s.reachable_tiles@[index.spec_index()] is Some) && (r matches Some(route)
                    ==> route_ok(s.reachable_tiles@, s.position, index, route@)),
                Previsualisation::Action(second, targets, _) => s2.previsualisation
                    matches Previsualisation::Action(second2, targets2, cons2) && second2 == second
                    && targets2@ == targets@ && cons2@ == match old(self).grid()[
                    s.position.spec_index()
                ] {
                    Some(unit) => if targets@.contains(index) {
                        spec_consequences(
                            if second {
                                unit.attacks.1
                            } else {
                                unit.attacks.0
                            },
                            old(self).grid(),
                            s.position,
                            index,
                        )
                    } else {
                        Seq::<(HexIndex, PrevisualisationItem)>::empty()
                    },
                    None => Seq::<(HexIndex, PrevisualisationItem)>::empty(),
                },
            })),
    {
        let sel = self.selected_unit.take();
        match sel {
            None => {},
            Some(s) => {
                let SelectedUnit { position, reachable_tiles, previsualisation } = s;
                match previsualisation {
                    Previsualisation::Movement(_) => {
                        let route = find_route(&reachable_tiles, position, index);
                        self.selected_unit = Some(
                            SelectedUnit {
                                position,
                                reachable_tiles,
                                previsualisation: Previsualisation::Movement(route),
                            },
                        );
                    },
                    Previsualisation::Action(second, targets, _stale) => {
                        let hit = vec_contains_cell(&targets, &index);
                        let atk: Option<Attack> = match &self.units[position.get_index()] {
                            Some(unit) => Some(
                                if second {
                                    unit.attacks.1
                                } else {
                                    unit.attacks.0
                                },
                            ),
                            None => None,
                        };
                        let cons: Vec<(HexIndex, PrevisualisationItem)> = if hit {
                            match atk {
                                Some(a) => {
                                    let c = a.get_consequences(
                                        map,
                                        &self.units,
                                        &position,
                                        &index,
                                    );
                                    proof {
                                        lemma_spec_consequences_wf(
                                            a,
                                            self.units@,
                                            position,
                                            index,
                                        );
                                    }
                                    c
                                },
                                None => Vec::new(),
                            }
                        } else {
                            Vec::new()
                        };
                        self.selected_unit = Some(
                            SelectedUnit {
                                position,
                                reachable_tiles,
                                previsualisation: Previsualisation::Action(second, targets, cons),
                            },
                        );
                    },
                }
            },
        }
    }

    /// Commit the movement preview: relocate the selected unit to `to`,
    /// deducting the route cost from its movement budget (see
    /// `spec_move_outcome`; hostile units and illegal destinations are
    /// rejected), and drop the selection either way.
    pub fn move_selected_unit(&mut self, to: &HexIndex)
        requires
            old(self).wf(),
            to.wf(),
        ensures
            final(self).wf(),
            final(self).grid() == spec_move_outcome(old(self).grid(), old(self).selection(), *to),
            final(self).selection() is None,
            final(self).staged_hostile() == old(self).staged_hostile(),
    {
        let ghost g0 = self.grid();
        let sel = self.selected_unit.take();
        match sel {
            None => {},
            Some(s) => {
                let pos_idx = s.position.get_index();
                let cost_opt: Option<usize> = s.reachable_tiles[to.get_index()];
                let movable: bool = match &self.units[pos_idx] {
                    Some(unit) => !unit.unit_type.is_barbarian() && match cost_opt {
                        Some(k) => k <= unit.remaining_moves,
                        None => false,
                    },
                    None => false,
                };
                let vacant: bool = self.units[to.get_index()].is_none() || to.get_index()
                    == pos_idx;
                proof {
                    if to.spec_index() == s.position.spec_index() {
                        lemma_index_injective(*to, s.position);
                    }
                }
                if movable && vacant {
                    let unit_opt = self.units[pos_idx].take();
                    match unit_opt {
                        Some(mut unit) => {
                            let k = match cost_opt {
                                Some(k) => k,
                                None => 0,
                            };
                            unit.remaining_moves = unit.remaining_moves - k;
                            self.units[to.get_index()] = Some(unit);
                        },
                        None => {
                            proof {
                                assert(false);
                            }
                        },
                    }
                }
            },
        }
    }

    /// Commit the armed action onto `target` (see `spec_action_outcome`:
    /// targets outside the legal set, hostile actors and missing actors
    /// are rejected) and drop the selection.  Outside action sub-mode
    /// nothing changes, matching the state machine's silent rejection of
    /// illegal transitions.
    pub fn apply_action_of_selected_unit(&mut self, target: &HexIndex, map: &mut Board)
        requires
            old(self).wf(),
            target.wf(),
        ensures
            final(self).wf(),
            *final(map) == *old(map),
            final(self).staged_hostile() == old(self).staged_hostile(),
            final(self).grid().len() == 61,
            match old(self).selection() {
                Some(s) => if s.previsualisation matches Previsualisation::Action(_x, _y, _z) {
                    final(self).grid() == spec_action_outcome(old(self).grid(), s, *target)
                        && final(self).selection() is None
                } else {
                    final(self).grid() == old(self).grid() && final(self).selection() == old(
                        self,
                    ).selection()
                },
                None => final(self).grid() == old(self).grid() && final(self).selection() is None,
            },
    {
        let ghost g0 = self.grid();
        let sel = self.selected_unit.take();
        match sel {
            None => {},
            Some(s) => {
                let ghost s0 = s;
                let SelectedUnit { position, reachable_tiles, previsualisation } = s;
                match previsualisation {
                    Previsualisation::Action(_second, targets, consequences) => {
                        let hit = vec_contains_cell(&targets, target);
                        let legal: bool = hit && match &self.units[position.get_index()] {
                            Some(u) => !u.unit_type.is_barbarian(),
                            None => false,
                        };
                        if legal {
                            Attack::apply(consequences, map, &mut self.units);
                            proof {
                                crate::actions::lemma_spec_apply_grid_wf(
                                    g0,
                                    s0.previsualisation->Action_2@,
                                );
                            }
                            let mut slot = self.units[position.get_index()].take();
                            match &mut slot {
                                Some(u) => {
                                    u.action_remaining = false;
                                },
                                None => {},
                            }
                            self.units[position.get_index()] = slot;
                            proof {
                                let g2 = spec_apply(g0, s0.previsualisation->Action_2@);
                                if g2[position.spec_index()] is Some {
                                    assert(self.grid() =~= g2.update(
                                        position.spec_index(),
                                        Some(
                                            Unit {
                                                action_remaining: false,
                                                ..g2[position.spec_index()]->Some_0
                                            },
                                        ),
                                    ));
                                } else {
                                    assert(self.grid() =~= g2);
                                }
                            }
                        }
                    },
                    prev => {
                        self.selected_unit = Some(
                            SelectedUnit { position, reachable_tiles, previsualisation: prev },
                        );
                    },
                }
            },
        }
    }

    /// Arm one of the selected unit's two attacks: compute its legal
    /// targets and enter action sub-mode with an empty consequence
    /// preview.  Rejected (returning false, changing nothing) when no unit
    /// is selected or the unit's action is already spent.
    pub fn action_selection(&mut self, second: bool, map: &Board) -> (r: bool)
        requires
            old(self).wf(),
        ensures
            final(self).wf(),
            final(self).grid() == old(self).grid(),
            final(self).staged_hostile() == old(self).staged_hostile(),
            match old(self).selection() {
                Some(s) => match old(self).grid()[s.position.spec_index()] {
                    Some(unit) => if unit.action_remaining {
                        r && (final(self).selection() matches Some(s2) && s2.position
                            == s.position && s2.reachable_tiles@ == s.reachable_tiles@ && (
                        s2.previsualisation matches Previsualisation::Action(sec2, targets, cons)
                            && sec2 == second && cons@ == Seq::<(
                            HexIndex,
                            PrevisualisationItem,
                        )>::empty() && (forall|j1: int, j2: int|
                            0 <= j1 < j2 < targets@.len() ==> targets@[j1] != targets@[j2])
                            && forall|c: HexIndex| #[trigger] targets@.contains(c)
                            <==> crate::actions::spec_is_target(
                                if second {
                                    unit.attacks.1
                                } else {
                                    unit.attacks.0
                                },
                                old(self).grid(),
                                s.position,
                                c,
                            )))
                    } else {
                        !r && final(self).selection() == old(self).selection()
                    },
                    None => !r && final(self).selection() == old(self).selection(),
                },
                None => !r && final(self).selection() == old(self).selection(),
            },
    {
        let can: bool = match &self.selected_unit {
            Some(s) => match &self.units[s.position.get_index()] {
                Some(u) => u.action_remaining,
                None => false,
            },
            None => false,
        };
        if !can {
            return false;
        }
        let sel = self.selected_unit.take();
        match sel {
            Some(s) => {
                let SelectedUnit { position, reachable_tiles, previsualisation: _old } = s;
                let atk: Attack = match &self.units[position.get_index()] {
                    Some(u) => if second {
                        u.attacks.1
                    } else {
                        u.attacks.0
                    },
                    None => {
                        proof {
                            assert(false);
                        }
                        Attack::Heal
                    },
                };
                let targets = atk.get_potential_targets(map, &self.units, &position);
                self.selected_unit = Some(
                    SelectedUnit {
                        position,
                        reachable_tiles,
                        previsualisation: Previsualisation::Action(second, targets, Vec::new()),
                    },
                );
                true
            },
            None => {
                proof {
                    assert(false);
                }
                false
            },
        }
    }

    /// Write the scripted hostile plan into every hostile unit: always a
    /// stick knock toward the fixed direction (the opposite of bottom
    /// left); the placeholder behaviour is intentionally trivial.
    pub fn make_ai_play(&mut self)
        requires
            old(self).wf(),
        ensures
            final(self).wf(),
            planned(old(self).grid(), final(self).grid()),
            final(self).selection() == old(self).selection(),
            final(self).staged_hostile() == old(self).staged_hostile(),
    {
        let ghost g0 = self.grid();
        let mut i: usize = 0;
        while i < 61
            invariant
                old(self).wf(),
                g0 == old(self).grid(),
                self.grid().len() == 61,
                grid_wf(self.grid()),
                self.selection() == old(self).selection(),
                self.staged_hostile() == old(self).staged_hostile(),
                i <= 61,
                forall|j: int| 0 <= j < i as int ==> planned_slot(g0[j], #[trigger] self.grid()[j]),
                forall|j: int| i as int <= j < 61 ==> self.grid()[j] == g0[j],
            decreases 61 - i,
    {
            let slot = self.units[i].take();
            match slot {
                Some(mut u) => {
                    if u.unit_type.is_barbarian() {
                        let mut chain: Vec<Direction> = Vec::new();
                        chain.push(Direction::BottomLeft.opposite());
                        u.barbarian_next_action = Some((Attack::StickKnock, chain));
                    }
                    self.units[i] = Some(u);
                },
                None => {
                    self.units[i] = None;
                },
            }
            proof {
                assert(self.grid()[i as int] is Some ==> self.grid()[i as int]->Some_0.life
                    == g0[i as int]->Some_0.life);
            }
            i += 1;
        }
    }

    /// Apply the staged consequences of the hostile units' planned actions
    /// to the board and clear the stage.
    pub fn apply_barbarian_actions(&mut self, map: &mut Board)
        requires
            old(self).wf(),
        ensures
            final(self).wf(),
            final(self).grid() == spec_apply(old(self).grid(), old(self).staged_hostile()),
            final(self).staged_hostile() == Seq::<(HexIndex, PrevisualisationItem)>::empty(),
            final(self).selection() == old(self).selection(),
            *final(map) == *old(map),
    {
        let ghost g0 = self.grid();
        let ghost staged0 = self.staged_hostile();
        let drained = self.barbarian_actions.split_off(0);
        proof {
            assert(drained@ =~= staged0);
            assert(self.barbarian_actions@ =~= Seq::<(HexIndex, PrevisualisationItem)>::empty());
        }
        Attack::apply(drained, map, &mut self.units);
        proof {
            crate::actions::lemma_spec_apply_grid_wf(g0, staged0);
        }
    }

    /// Recompute the staged consequences of every hostile unit's planned
    /// action against the current board, so the coming turn's effects can
    /// be previewed before they resolve.
    pub fn update_barbarian_actions(&mut self, map: &Board)
        requires
            old(self).wf(),
        ensures
            final(self).wf(),
            final(self).grid() == old(self).grid(),
            final(self).selection() == old(self).selection(),
            final(self).staged_hostile() == spec_barb_consequences(old(self).grid(), 61),
    {
        let ghost g0 = self.grid();
        let mut actions: Vec<(HexIndex, PrevisualisationItem)> = Vec::new();
        let mut i: usize = 0;
        while i < 61
            invariant
                old(self).wf(),
                *self == *old(self),
                g0 == self.grid(),
                i <= 61,
                actions@ == spec_barb_consequences(g0, i as int),
                consequences_wf(actions@),
            decreases 61 - i,
        {
            let ghost actions0 = actions@;
            match HexIndex::from_index(i) {
                Ok(position) => {
                    proof {
                        crate::idx::lemma_cell_at_self(position);
                    }
                    let mut step: Vec<(HexIndex, PrevisualisationItem)> = match &self.units[i] {
                        Some(unit) => match &unit.barbarian_next_action {
                            Some(pair) => {
                                let action: Attack = pair.0;
                                let directions: &Vec<Direction> = &pair.1;
                                let mut target_opt: Option<HexIndex> = Some(position);
                                let mut di: usize = 0;
                                while di < directions.len()
                                    invariant
                                        position.wf(),
                                        di <= directions@.len(),
                                        target_opt == spec_follow(
                                            position,
                                            directions@.take(di as int),
                                        ),
                                        target_opt matches Some(t) ==> t.wf(),
                                    decreases directions@.len() - di,
                                {
                                    let d = directions[di];
                                    match target_opt {
                                        Some(t) => {
                                            target_opt = t.get_neighbour(d);
                                        },
                                        None => {},
                                    }
                                    proof {
                                        lemma_spec_follow_snoc(
                                            position,
                                            directions@.take(di as int),
                                            directions@[di as int],
                                        );
                                        assert(directions@.take(di + 1) =~= directions@.take(
                                            di as int,
                                        ).push(directions@[di as int]));
                                    }
                                    di += 1;
                                }
                                proof {
                                    assert(directions@.take(directions@.len() as int)
                                        =~= directions@);
                                }
                                match target_opt {
                                    Some(t) => {
                                        let c = action.get_consequences(
                                            map,
                                            &self.units,
                                            &position,
                                            &t,
                                        );
                                        proof {
                                            lemma_spec_consequences_wf(
                                                action,
                                                self.units@,
                                                position,
                                                t,
                                            );
                                        }
                                        c
                                    },
                                    None => Vec::new(),
                                }
                            },
                            None => Vec::new(),
                        },
                        None => Vec::new(),
                    };
                    proof {
                        assert(step@ == spec_barb_step(g0, i as int));
                    }
                    actions.append(&mut step);
                },
                Err(_) => {
                    proof {
                        assert(false);
                    }
                },
            }
            proof {
                assert(actions@ == spec_barb_consequences(g0, i + 1));
                assert forall|k: int| 0 <= k < actions@.len() implies {
                    &&& (#[trigger] actions@[k]).0.wf()
                    &&& match actions@[k].1 {
                        PrevisualisationItem::LifeChange(l) => l.wf(),
                        PrevisualisationItem::PushArrow(_, _) => true,
                        PrevisualisationItem::LongDistanceShoot(c) => c.wf(),
                    }
                } by {
                    if k < actions0.len() {
                        assert(actions@[k] == actions0[k]);
                    }
                }
            }
            i += 1;
        }
        self.barbarian_actions = actions;
    }

    /// Start the next turn: refresh every unit's movement and action,
    /// resolve the hostile actions staged at the end of the previous turn,
    /// re-plan each hostile unit's scripted action, and stage its
    /// consequences for preview.
    pub fn next_turn(&mut self, map: &mut Board) -> (r: bool)
        requires
            old(self).wf(),
        ensures
            final(self).wf(),
            r,
            *final(map) == *old(map),
            final(self).selection() == old(self).selection(),
            planned(
                spec_apply(spec_refresh(old(self).grid()), old(self).staged_hostile()),
                final(self).grid(),
            ),
            final(self).staged_hostile() == spec_barb_consequences(final(self).grid(), 61),
    {
        let ghost g0 = self.grid();
        let mut i: usize = 0;
        while i < 61
            invariant
                old(self).wf(),
                g0 == old(self).grid(),
                self.grid().len() == 61,
                grid_wf(self.grid()),
                self.selection() == old(self).selection(),
                self.staged_hostile() == old(self).staged_hostile(),
                i <= 61,
                forall|j: int| 0 <= j < i as int ==> self.grid()[j] == spec_refresh(g0)[j],
                forall|j: int| i as int <= j < 61 ==> self.grid()[j] == g0[j],
            decreases 61 - i,
        {
            let slot = self.units[i].take();
            match slot {
                Some(mut u) => {
                    let m = u.unit_type.moves_per_turn();
                    u.remaining_moves = m;
                    u.action_remaining = true;
                    self.units[i] = Some(u);
                },
                None => {
                    self.units[i] = None;
                },
            }
            i += 1;
        }
        proof {
            assert(self.grid() =~= spec_refresh(g0));
        }
        self.apply_barbarian_actions(map);
        self.make_ai_play();
        self.update_barbarian_actions(map);
        true
    }

    /// Dispatch a click on the cell `index`: commit the previewed move
    /// when one is displayed and the destination is free (or the unit's
    /// own cell), commit the armed action in action sub-mode, select the
    /// occupant of an unselected cell — re-staging the hostile preview
    /// after either commit.
    pub fn handle_mouse_click(&mut self, map: &mut Board, index: HexIndex)
        requires
            old(self).wf(),
            index.wf(),
        ensures
            final(self).wf(),
            *final(map) == *old(map),
            match old(self).selection() {
                Some(s) => {
                    if (old(self).grid()[index.spec_index()] is None || index == s.position) && (
                    s.previsualisation matches Previsualisation::Movement(rt) && rt is Some) {
                        &&& final(self).grid() == spec_move_outcome(
                            old(self).grid(),
                            old(self).selection(),
                            index,
                        )
                        &&& final(self).selection() is None
                        &&& final(self).staged_hostile() == spec_barb_consequences(
                            final(self).grid(),
                            61,
                        )
                    } else if s.previsualisation matches Previsualisation::Action(_x, _y, _z) {
                        &&& final(self).grid() == spec_action_outcome(old(self).grid(), s, index)
                        &&& final(self).selection() is None
                        &&& final(self).staged_hostile() == spec_barb_consequences(
                            final(self).grid(),
                            61,
                        )
                    } else {
                        &&& final(self).grid() == old(self).grid()
                        &&& final(self).selection() == old(self).selection()
                        &&& final(self).staged_hostile() == old(self).staged_hostile()
                    }
                },
                None => {
                    &&& final(self).grid() == old(self).grid()
                    &&& final(self).staged_hostile() == old(self).staged_hostile()
                    &&& (old(self).grid()[index.spec_index()] is None ==> final(self).selection()
                        == old(self).selection())
                    &&& (old(self).grid()[index.spec_index()] matches Some(unit)
                        ==> (final(self).selection() matches Some(s2) && s2.position == index
                        && cost_map_ok(
                        s2.reachable_tiles@,
                        old(self).grid(),
                        index.spec_index(),
                        unit.remaining_moves as int,
                    ) && crate::pathfinder::cost_map_complete(
                        s2.reachable_tiles@,
                        old(self).grid(),
                        index.spec_index(),
                        unit.remaining_moves as int,
                    ) && crate::pathfinder::cost_map_minimal(
                        s2.reachable_tiles@,
                        old(self).grid(),
                        index.spec_index(),
                    )))
                },
            },
    {
        let has_sel = self.selected_unit.is_some();
        if has_sel {
            let clicked_occupied = self.units[index.get_index()].is_some();
            let (same_pos, movement_some, is_action): (bool, bool, bool) = match &self
                .selected_unit {
                Some(s) => (
                    s.position.get_index() == index.get_index(),
                    s.previsualisation.is_movement_some(),
                    match s.previsualisation {
                        Previsualisation::Action(_, _, _) => true,
                        _ => false,
                    },
                ),
                None => (false, false, false),
            };
            proof {
                let s = self.selection()->Some_0;
                if s.position.spec_index() == index.spec_index() {
                    lemma_index_injective(s.position, index);
                }
            }
            if (!clicked_occupied || same_pos) && movement_some {
                self.move_selected_unit(&index);
                self.update_barbarian_actions(map);
            } else if is_action {
                self.apply_action_of_selected_unit(&index, map);
                self.update_barbarian_actions(map);
            }
        } else {
            if self.units[index.get_index()].is_some() {
                self.select_unit(index, map);
            }
        }
    }
}

} // verus!

//! Attacks: their target sets, their previewed consequences, and the commit
//! step that applies a consequence list to the board.

use vstd::prelude::*;
use crate::board::Board;
use crate::idx::{
    cell_at, lemma_cell_at, lemma_cell_at_self, lemma_line_split, lemma_line_unique_direction,
    lemma_snbr_delta, line_n, nbr_cell, ray_fuel, snbr, Direction, HexIndex,
};
use crate::life::Life;
use crate::units::{Unit, UnitType};
use crate::previsualisation::PrevisualisationItem;

verus! {

broadcast use vstd::seq_lib::lemma_seq_contains_after_push;

/// The cell with linear index `i` is occupied by a unit.
pub open spec fn occ(u: Seq<Option<Unit>>, i: int) -> bool {
    0 <= i < u.len() && u[i] is Some
}

/// The cell `t` lies on the arrow ray from `c` in direction `d`: it is some
/// positive number of straight-line steps out, and every cell strictly
/// before it on the ray is empty (arrows pass over empty cells and are
/// stopped by the first occupied one, which still belongs to the ray).
pub open spec fn on_ray(u: Seq<Option<Unit>>, c: int, t: int, d: Direction) -> bool {
    exists|n: int|
        {
            &&& 1 <= n
            &&& #[trigger] line_n(c, d, n) == Some(t)
            &&& forall|m: int| 1 <= m < n ==> !occ(u, #[trigger] line_n(c, d, m)->Some_0)
        }
}

/// The ray from `c` in direction `d` stops after exactly `n` steps: all
/// cells strictly before the stop are empty, and the stop cell is occupied
/// or on the board edge.
pub open spec fn ray_stop(u: Seq<Option<Unit>>, c: int, d: Direction, n: int) -> bool {
    &&& 1 <= n
    &&& line_n(c, d, n) is Some
    &&& (forall|m: int| 1 <= m < n ==> !occ(u, #[trigger] line_n(c, d, m)->Some_0))
    &&& (occ(u, line_n(c, d, n)->Some_0) || snbr(line_n(c, d, n)->Some_0, d) is None)
}

/// Linear index of the cell the ray from `c` in direction `d` finally
/// strikes (meaningful when some `ray_stop` step exists).
pub open spec fn ray_stop_cell(u: Seq<Option<Unit>>, c: int, d: Direction) -> int {
    line_n(c, d, choose|n: int| ray_stop(u, c, d, n))->Some_0
}

/// At most one step count stops a given ray.
pub proof fn lemma_ray_stop_unique(u: Seq<Option<Unit>>, c: int, d: Direction, n1: int, n2: int)
    requires
        ray_stop(u, c, d, n1),
        ray_stop(u, c, d, n2),
    ensures
        n1 == n2,
{
    if n1 < n2 {
        lemma_ray_stop_later(u, c, d, n1, n2);
    } else if n2 < n1 {
        lemma_ray_stop_later(u, c, d, n2, n1);
    }
}

/// Helper for `lemma_ray_stop_unique`: once a ray stops, it does not stop
/// again later.
proof fn lemma_ray_stop_later(u: Seq<Option<Unit>>, c: int, d: Direction, n1: int, n2: int)
    requires
        ray_stop(u, c, d, n1),
        n1 < n2,
    ensures
        !ray_stop(u, c, d, n2),
{
    if ray_stop(u, c, d, n2) {
        let j1 = line_n(c, d, n1)->Some_0;
        if occ(u, j1) {
            assert(!occ(u, line_n(c, d, n1)->Some_0));
        } else {
            lemma_line_split(c, d, n1, n2 - n1);
            assert(line_n(j1, d, n2 - n1) is Some);
            assert(line_n(j1, d, 1) == snbr(j1, d));
            lemma_line_split(j1, d, 1, n2 - n1 - 1);
        }
    }
}

/// A non-empty ray stops somewhere.
pub proof fn lemma_ray_stop_exists(u: Seq<Option<Unit>>, c: int, d: Direction)
    requires
        snbr(c, d) is Some,
    ensures
        exists|n: int| ray_stop(u, c, d, n),
    decreases ray_fuel(c, d),
{
    let j = snbr(c, d)->Some_0;
    lemma_snbr_delta(c, d);
    assert(line_n(j, d, 0) == Some(j));
    assert(line_n(c, d, 1) == Some(j));
    if occ(u, j) || snbr(j, d) is None {
        assert(ray_stop(u, c, d, 1));
    } else {
        lemma_ray_stop_exists(u, j, d);
        let n = choose|n: int| ray_stop(u, j, d, n);
        assert forall|m: int| 1 <= m < n + 1 implies !occ(
            u,
            #[trigger] line_n(c, d, m)->Some_0,
        ) by {
            if m == 1 {
            } else {
                lemma_line_split(c, d, 1, m - 1);
            }
        }
        lemma_line_split(c, d, 1, n);
        assert(ray_stop(u, c, d, n + 1));
    }
}

/// A cell is on the ray in at most one direction.
pub proof fn lemma_ray_direction_unique(
    u: Seq<Option<Unit>>,
    c: int,
    t: int,
    d1: Direction,
    d2: Direction,
)
    requires
        on_ray(u, c, t, d1),
        on_ray(u, c, t, d2),
    ensures
        d1 == d2,
{
    let n1 = choose|n: int|
        {
            &&& 1 <= n
            &&& #[trigger] line_n(c, d1, n) == Some(t)
            &&& forall|m: int| 1 <= m < n ==> !occ(u, #[trigger] line_n(c, d1, m)->Some_0)
        };
    let n2 = choose|n: int|
        {
            &&& 1 <= n
            &&& #[trigger] line_n(c, d2, n) == Some(t)
            &&& forall|m: int| 1 <= m < n ==> !occ(u, #[trigger] line_n(c, d2, m)->Some_0)
        };
    lemma_line_unique_direction(c, d1, d2, n1, n2, t);
}

/// A cell on a ray guarantees the ray stops, on a board cell.
pub proof fn lemma_volley_hit(u: Seq<Option<Unit>>, origin: HexIndex, target: HexIndex, d: Direction)
    requires
        origin.wf(),
        on_ray(u, origin.spec_index(), target.spec_index(), d),
    ensures
        exists|n: int| ray_stop(u, origin.spec_index(), d, n),
        0 <= ray_stop_cell(u, origin.spec_index(), d) < 61,
{
    let o = origin.spec_index();
    let t = target.spec_index();
    let n = choose|n: int|
        {
            &&& 1 <= n
            &&& #[trigger] line_n(o, d, n) == Some(t)
            &&& forall|m: int| 1 <= m < n ==> !occ(u, #[trigger] line_n(o, d, m)->Some_0)
        };
    assert(snbr(o, d) is Some);
    lemma_ray_stop_exists(u, o, d);
    let ns = choose|n2: int| ray_stop(u, o, d, n2);
    crate::idx::lemma_line_valid(o, d, ns);
}

/// The consequences computed for any attack name well-formed cells and
/// well-formed staged life values whenever the board's units are well
/// formed.
pub proof fn lemma_spec_consequences_wf(
    a: Attack,
    u: Seq<Option<Unit>>,
    position: HexIndex,
    target: HexIndex,
)
    requires
        crate::units::grid_wf(u),
        position.wf(),
        target.wf(),
    ensures
        consequences_wf(spec_consequences(a, u, position, target)),
{
    match a {
        Attack::Heal => {
            if u[target.spec_index()] is Some {
                crate::life::lemma_spec_with_loss(u[target.spec_index()]->Some_0.life, -1);
            }
        },
        Attack::VolleyOfArrows => {
            let o = position.spec_index();
            let t = target.spec_index();
            if exists|d: Direction| on_ray(u, o, t, d) {
                let d = choose|d: Direction| on_ray(u, o, t, d);
                lemma_volley_hit(u, position, target, d);
                lemma_cell_at(ray_stop_cell(u, o, d));
                let ft = cell_at(ray_stop_cell(u, o, d));
                if u[ft.spec_index()] is Some {
                    crate::life::lemma_spec_with_loss(u[ft.spec_index()]->Some_0.life, 3);
                    crate::life::lemma_spec_with_loss(u[ft.spec_index()]->Some_0.life, 2);
                    match nbr_cell(ft, d) {
                        Some(behind) => {
                            crate::idx::lemma_snbr_valid(ft.spec_index(), d);
                            lemma_cell_at(snbr(ft.spec_index(), d)->Some_0);
                            if u[behind.spec_index()] is Some {
                                crate::life::lemma_spec_with_loss(
                                    u[behind.spec_index()]->Some_0.life,
                                    1,
                                );
                            }
                        },
                        None => {},
                    }
                }
            }
        },
        _ => {
            if exists|d: Direction| snbr(position.spec_index(), d) == Some(target.spec_index()) {
                let d = choose|d: Direction|
                    snbr(position.spec_index(), d) == Some(target.spec_index());
                let push = melee_push_direction(a, d);
                if u[target.spec_index()] is Some {
                    crate::life::lemma_spec_with_loss(
                        u[target.spec_index()]->Some_0.life,
                        melee_base_damage(a),
                    );
                    crate::life::lemma_spec_with_loss(
                        u[target.spec_index()]->Some_0.life,
                        melee_obstructed_damage(a),
                    );
                    match nbr_cell(target, push) {
                        Some(behind) => {
                            crate::idx::lemma_snbr_valid(target.spec_index(), push);
                            lemma_cell_at(snbr(target.spec_index(), push)->Some_0);
                            if u[behind.spec_index()] is Some {
                                crate::life::lemma_spec_with_loss(
                                    u[behind.spec_index()]->Some_0.life,
                                    1,
                                );
                            }
                        },
                        None => {},
                    }
                }
            }
        },
    }
}

/// Push cancellation, for every push-type melee attack: when the cell the
/// target would be displaced into is occupied, applying the attack's
/// consequences leaves every cell but the target's and the blocker's
/// untouched — in particular the target is never displaced — the target
/// takes the attack's raised damage, and the blocker takes exactly one
/// point of collateral damage (a unit whose life reaches zero is
/// removed).
pub proof fn lemma_push_cancellation(
    u: Seq<Option<Unit>>,
    position: HexIndex,
    target: HexIndex,
    d: Direction,
    behind: HexIndex,
    a: Attack,
)
    requires
        crate::units::grid_wf(u),
        position.wf(),
        target.wf(),
        behind.wf(),
        a == Attack::StickKnock || a == Attack::DefensiveSwordFight || a
            == Attack::OffensiveSwordFight,
        snbr(position.spec_index(), d) == Some(target.spec_index()),
        nbr_cell(target, melee_push_direction(a, d)) == Some(behind),
        u[target.spec_index()] is Some,
        u[behind.spec_index()] is Some,
    ensures
        ({
            let cons = spec_consequences(a, u, position, target);
            let u2 = spec_apply(u, cons);
            let tl = u[target.spec_index()]->Some_0.life;
            let bl = u[behind.spec_index()]->Some_0.life;
            let dmg = melee_obstructed_damage(a);
            &&& forall|j: int|
                0 <= j < 61 && j != target.spec_index() && j != behind.spec_index() ==> u2[j]
                    == u[j]
            &&& u2[target.spec_index()] == if tl.spec_current() <= dmg {
                None::<Unit>
            } else {
                Some(
                    Unit {
                        life: tl.spec_with_loss(dmg).spec_commit(),
                        ..u[target.spec_index()]->Some_0
                    },
                )
            }
            &&& u2[behind.spec_index()] == if bl.spec_current() <= 1 {
                None::<Unit>
            } else {
                Some(
                    Unit {
                        life: bl.spec_with_loss(1).spec_commit(),
                        ..u[behind.spec_index()]->Some_0
                    },
                )
            }
        }),
{
    let tl = u[target.spec_index()]->Some_0.life;
    let bl = u[behind.spec_index()]->Some_0.life;
    let dmg = melee_obstructed_damage(a);
    let push = melee_push_direction(a, d);
    let d2 = choose|d2: Direction| snbr(position.spec_index(), d2) == Some(target.spec_index());
    assert(line_n(target.spec_index(), d, 0) == Some(target.spec_index()));
    assert(line_n(position.spec_index(), d, 1) == Some(target.spec_index()));
    assert(line_n(target.spec_index(), d2, 0) == Some(target.spec_index()));
    assert(line_n(position.spec_index(), d2, 1) == Some(target.spec_index()));
    lemma_line_unique_direction(position.spec_index(), d, d2, 1, 1, target.spec_index());
    let cons = spec_consequences(a, u, position, target);
    assert(cons =~= seq![
        (target, PrevisualisationItem::LifeChange(tl.spec_with_loss(dmg))),
        (behind, PrevisualisationItem::LifeChange(bl.spec_with_loss(1))),
        (target, PrevisualisationItem::PushArrow(push, true)),
    ]);
    crate::idx::lemma_snbr_valid(target.spec_index(), push);
    lemma_cell_at(snbr(target.spec_index(), push)->Some_0);
    crate::life::lemma_spec_with_loss(tl, dmg);
    crate::life::lemma_spec_with_loss(bl, 1);
    crate::life::lemma_spec_commit(tl.spec_with_loss(dmg));
    crate::life::lemma_spec_commit(bl.spec_with_loss(1));
    reveal_with_fuel(spec_apply, 4);
    assert(cons.drop_first() =~= seq![
        (behind, PrevisualisationItem::LifeChange(bl.spec_with_loss(1))),
        (target, PrevisualisationItem::PushArrow(push, true)),
    ]);
    assert(cons.drop_first().drop_first() =~= seq![
        (target, PrevisualisationItem::PushArrow(push, true)),
    ]);
    assert(cons.drop_first().drop_first().drop_first() =~= Seq::<(
        HexIndex,
        PrevisualisationItem,
    )>::empty());
    let u1 = spec_apply_one(u, target, PrevisualisationItem::LifeChange(tl.spec_with_loss(dmg)));
    let um = spec_apply_one(u1, behind, PrevisualisationItem::LifeChange(bl.spec_with_loss(1)));
    let u3 = spec_apply_one(um, target, PrevisualisationItem::PushArrow(push, true));
    assert(behind.spec_index() != target.spec_index());
    assert(u1[behind.spec_index()] == u[behind.spec_index()]);
    assert(u3 == um);
    assert(spec_apply(u, cons) == u3);
    assert forall|j: int|
        0 <= j < 61 && j != target.spec_index() && j != behind.spec_index() implies spec_apply(
        u,
        cons,
    )[j] == u[j] by {
        assert(u1[j] == u[j]);
        assert(um[j] == u1[j]);
    }
}

/// Push displacement, for every push-type melee attack: when the cell the
/// target would be displaced into is vacant and the target survives the
/// base damage, applying the consequences moves it there with that damage
/// committed, empties its old cell, and touches nothing else.
pub proof fn lemma_push_displacement(
    u: Seq<Option<Unit>>,
    position: HexIndex,
    target: HexIndex,
    d: Direction,
    dest: HexIndex,
    a: Attack,
)
    requires
        crate::units::grid_wf(u),
        position.wf(),
        target.wf(),
        dest.wf(),
        a == Attack::StickKnock || a == Attack::DefensiveSwordFight || a
            == Attack::OffensiveSwordFight,
        snbr(position.spec_index(), d) == Some(target.spec_index()),
        nbr_cell(target, melee_push_direction(a, d)) == Some(dest),
        u[target.spec_index()] is Some,
        u[dest.spec_index()] is None,
        u[target.spec_index()]->Some_0.life.spec_current() > melee_base_damage(a),
    ensures
        ({
            let cons = spec_consequences(a, u, position, target);
            let u2 = spec_apply(u, cons);
            let tl = u[target.spec_index()]->Some_0.life;
            &&& forall|j: int|
                0 <= j < 61 && j != target.spec_index() && j != dest.spec_index() ==> u2[j] == u[
                    j
                ]
            &&& u2[target.spec_index()] is None
            &&& u2[dest.spec_index()] == Some(
                Unit {
                    life: tl.spec_with_loss(melee_base_damage(a)).spec_commit(),
                    ..u[target.spec_index()]->Some_0
                },
            )
        }),
{
    let tl = u[target.spec_index()]->Some_0.life;
    let dmg = melee_base_damage(a);
    let push = melee_push_direction(a, d);
    let d2 = choose|d2: Direction| snbr(position.spec_index(), d2) == Some(target.spec_index());
    assert(line_n(target.spec_index(), d, 0) == Some(target.spec_index()));
    assert(line_n(position.spec_index(), d, 1) == Some(target.spec_index()));
    assert(line_n(target.spec_index(), d2, 0) == Some(target.spec_index()));
    assert(line_n(position.spec_index(), d2, 1) == Some(target.spec_index()));
    lemma_line_unique_direction(position.spec_index(), d, d2, 1, 1, target.spec_index());
    let cons = spec_consequences(a, u, position, target);
    assert(cons =~= seq![
        (target, PrevisualisationItem::LifeChange(tl.spec_with_loss(dmg))),
        (target, PrevisualisationItem::PushArrow(push, false)),
    ]);
    crate::idx::lemma_snbr_valid(target.spec_index(), push);
    lemma_cell_at(snbr(target.spec_index(), push)->Some_0);
    crate::life::lemma_spec_with_loss(tl, dmg);
    crate::life::lemma_spec_commit(tl.spec_with_loss(dmg));
    reveal_with_fuel(spec_apply, 3);
    assert(cons.drop_first() =~= seq![(target, PrevisualisationItem::PushArrow(push, false))]);
    assert(cons.drop_first().drop_first() =~= Seq::<(HexIndex, PrevisualisationItem)>::empty());
    let u1 = spec_apply_one(u, target, PrevisualisationItem::LifeChange(tl.spec_with_loss(dmg)));
    let u2 = spec_apply_one(u1, target, PrevisualisationItem::PushArrow(push, false));
    assert(dest.spec_index() != target.spec_index());
    assert(u1[dest.spec_index()] == u[dest.spec_index()]);
    assert(spec_apply(u, cons) == u2);
    assert forall|j: int|
        0 <= j < 61 && j != target.spec_index() && j != dest.spec_index() implies spec_apply(
        u,
        cons,
    )[j] == u[j] by {
        assert(u1[j] == u[j]);
        assert(u2[j] == u1[j]);
    }
}

/// Heal floor at the board level: applying a heal to an occupied cell
/// commits a one-point gain with the restore-to-a-third floor — the unit
/// never loses life, gains exactly one point when at or above a third of
/// its maximum (capped there), and is lifted to that third from below —
/// and touches no other cell.
pub proof fn lemma_heal_apply(u: Seq<Option<Unit>>, origin: HexIndex, target: HexIndex)
    requires
        crate::units::grid_wf(u),
        origin.wf(),
        target.wf(),
        u[target.spec_index()] is Some,
        u[target.spec_index()]->Some_0.life.spec_max() >= 1,
    ensures
        ({
            let cons = spec_consequences(Attack::Heal, u, origin, target);
            let u2 = spec_apply(u, cons);
            let tl = u[target.spec_index()]->Some_0.life;
            let healed = tl.spec_with_loss(-1).spec_committed_current();
            &&& forall|j: int| 0 <= j < 61 && j != target.spec_index() ==> u2[j] == u[j]
            &&& u2[target.spec_index()] == Some(
                Unit { life: tl.spec_with_loss(-1).spec_commit(), ..u[target.spec_index()]->Some_0 },
            )
            &&& healed >= tl.spec_current()
            &&& tl.spec_current() >= tl.spec_max() / 3 ==> healed == if tl.spec_current() + 1
                <= tl.spec_max() {
                tl.spec_current() + 1
            } else {
                tl.spec_max()
            }
            &&& tl.spec_current() < tl.spec_max() / 3 ==> healed == tl.spec_max() / 3
        }),
{
    let tl = u[target.spec_index()]->Some_0.life;
    let cons = spec_consequences(Attack::Heal, u, origin, target);
    assert(cons =~= seq![(target, PrevisualisationItem::LifeChange(tl.spec_with_loss(-1)))]);
    crate::life::lemma_spec_with_loss(tl, -1);
    crate::life::lemma_spec_commit(tl.spec_with_loss(-1));
    crate::life::lemma_heal_floor(tl);
    reveal_with_fuel(spec_apply, 2);
    assert(cons.drop_first() =~= Seq::<(HexIndex, PrevisualisationItem)>::empty());
    let u1 = spec_apply_one(u, target, PrevisualisationItem::LifeChange(tl.spec_with_loss(-1)));
    assert(tl.spec_with_loss(-1).spec_committed_current() >= 1);
    assert(spec_apply(u, cons) == u1);
}

/// Volley obstruction: on a ray whose first occupied cell sits `n1` steps
/// out, that cell is the one the shot finally strikes; any cell farther
/// down the line — occupied or not — is not even a legal volley target in
/// that direction, so the shot only ever resolves against the first
/// obstacle.
pub proof fn lemma_volley_first_obstacle(
    u: Seq<Option<Unit>>,
    origin: HexIndex,
    d: Direction,
    n1: int,
    c1: int,
    n2: int,
    c2: int,
)
    requires
        origin.wf(),
        1 <= n1 < n2,
        line_n(origin.spec_index(), d, n1) == Some(c1),
        line_n(origin.spec_index(), d, n2) == Some(c2),
        occ(u, c1),
        forall|m: int|
            1 <= m < n1 ==> !occ(u, #[trigger] line_n(origin.spec_index(), d, m)->Some_0),
    ensures
        on_ray(u, origin.spec_index(), c1, d),
        ray_stop_cell(u, origin.spec_index(), d) == c1,
        !on_ray(u, origin.spec_index(), c2, d),
{
    let o = origin.spec_index();
    assert(on_ray(u, o, c1, d));
    assert(ray_stop(u, o, d, n1));
    let ns = choose|n: int| ray_stop(u, o, d, n);
    assert(exists|n: int| ray_stop(u, o, d, n));
    lemma_ray_stop_unique(u, o, d, ns, n1);
    if on_ray(u, o, c2, d) {
        let nw = choose|n: int|
            {
                &&& 1 <= n
                &&& #[trigger] line_n(o, d, n) == Some(c2)
                &&& forall|m: int| 1 <= m < n ==> !occ(u, #[trigger] line_n(o, d, m)->Some_0)
            };
        crate::idx::lemma_line_coords(o, d, nw);
        crate::idx::lemma_line_coords(o, d, n2);
        assert(nw == n2) by (nonlinear_arith)
            requires
                nw * crate::idx::dir_du(d) == n2 * crate::idx::dir_du(d),
                nw * crate::idx::dir_dy(d) == n2 * crate::idx::dir_dy(d),
                crate::idx::dir_du(d) != 0 || crate::idx::dir_dy(d) != 0,
        ;
        assert(!occ(u, line_n(o, d, n1)->Some_0));
    }
}

/// The volley resolves against the ray's final cell: for any legal target
/// on the ray, the first consequence (when the final cell is occupied)
/// damages that final cell, and the ranged-hit marker always points at it;
/// an unobstructed ray yields the marker alone.
pub proof fn lemma_volley_resolves_on_stop(
    u: Seq<Option<Unit>>,
    origin: HexIndex,
    target: HexIndex,
    d: Direction,
)
    requires
        u.len() == 61,
        origin.wf(),
        target.wf(),
        on_ray(u, origin.spec_index(), target.spec_index(), d),
    ensures
        ({
            let ft = cell_at(ray_stop_cell(u, origin.spec_index(), d));
            let cons = spec_volley_consequences(u, origin, target);
            let blocked = nbr_cell(ft, d) is Some && u[nbr_cell(ft, d)->Some_0.spec_index()]
                is Some;
            &&& occ(u, ft.spec_index()) ==> cons[0].0 == ft && cons[0].1 is LifeChange
                && cons[cons.len() - 1] == (origin, PrevisualisationItem::LongDistanceShoot(ft))
            &&& occ(u, ft.spec_index()) && blocked ==> cons =~= seq![
                (
                    ft,
                    PrevisualisationItem::LifeChange(
                        u[ft.spec_index()]->Some_0.life.spec_with_loss(3),
                    ),
                ),
                (
                    nbr_cell(ft, d)->Some_0,
                    PrevisualisationItem::LifeChange(
                        u[nbr_cell(ft, d)->Some_0.spec_index()]->Some_0.life.spec_with_loss(1),
                    ),
                ),
                (ft, PrevisualisationItem::PushArrow(d, true)),
                (origin, PrevisualisationItem::LongDistanceShoot(ft)),
            ]
            &&& occ(u, ft.spec_index()) && !blocked ==> cons =~= seq![
                (
                    ft,
                    PrevisualisationItem::LifeChange(
                        u[ft.spec_index()]->Some_0.life.spec_with_loss(2),
                    ),
                ),
                (ft, PrevisualisationItem::PushArrow(d, false)),
                (origin, PrevisualisationItem::LongDistanceShoot(ft)),
            ]
            &&& !occ(u, ft.spec_index()) ==> cons =~= seq![
                (origin, PrevisualisationItem::LongDistanceShoot(ft)),
            ]
        }),
{
    let o = origin.spec_index();
    let t = target.spec_index();
    let dc = choose|dc: Direction| on_ray(u, o, t, dc);
    lemma_ray_direction_unique(u, o, t, d, dc);
    lemma_volley_hit(u, origin, target, d);
    lemma_cell_at(ray_stop_cell(u, o, d));
    let ft = cell_at(ray_stop_cell(u, o, d));
    let shot = seq![(origin, PrevisualisationItem::LongDistanceShoot(ft))];
    let cons = spec_volley_consequences(u, origin, target);
    if u[ft.spec_index()] is Some {
        let life = u[ft.spec_index()]->Some_0.life;
        match nbr_cell(ft, d) {
            Some(behind) => {
                if u[behind.spec_index()] is Some {
                    let s3 = seq![
                        (ft, PrevisualisationItem::LifeChange(life.spec_with_loss(3))),
                        (
                            behind,
                            PrevisualisationItem::LifeChange(
                                u[behind.spec_index()]->Some_0.life.spec_with_loss(1),
                            ),
                        ),
                        (ft, PrevisualisationItem::PushArrow(d, true)),
                    ];
                    assert(cons == s3 + shot);
                    assert(cons[0] == s3[0]);
                    assert(cons[cons.len() - 1] == shot[0]);
                } else {
                    let s2 = seq![
                        (ft, PrevisualisationItem::LifeChange(life.spec_with_loss(2))),
                        (ft, PrevisualisationItem::PushArrow(d, false)),
                    ];
                    assert(cons == s2 + shot);
                    assert(cons[0] == s2[0]);
                    assert(cons[cons.len() - 1] == shot[0]);
                }
            },
            None => {
                let s2 = seq![
                    (ft, PrevisualisationItem::LifeChange(life.spec_with_loss(2))),
                    (ft, PrevisualisationItem::PushArrow(d, false)),
                ];
                assert(cons == s2 + shot);
                assert(cons[0] == s2[0]);
                assert(cons[cons.len() - 1] == shot[0]);
            },
        }
    }
}

/// Base damage of a melee attack when the target can be displaced.
pub open spec fn melee_base_damage(a: Attack) -> int {
    match a {
        Attack::StickKnock => 1,
        Attack::DefensiveSwordFight => 2,
        Attack::OffensiveSwordFight => 2,
        _ => 0,
    }
}

/// Raised damage of a melee attack when the displacement is obstructed.
pub open spec fn melee_obstructed_damage(a: Attack) -> int {
    match a {
        Attack::StickKnock => 2,
        Attack::DefensiveSwordFight => 3,
        Attack::OffensiveSwordFight => 3,
        _ => 0,
    }
}

/// Direction the target of a melee attack is displaced: away from the
/// attacker, except that the offensive sword fight pulls it back toward the
/// attacker.
pub open spec fn melee_push_direction(a: Attack, d: Direction) -> Direction {
    if a == Attack::OffensiveSwordFight {
        d.spec_opposite()
    } else {
        d
    }
}

/// Consequences of a melee attack `a` struck along direction `d` onto
/// `target`.  The cell the target would be displaced into decides the
/// obstruction rule: occupied means cancelled push, raised damage and one
/// collateral damage to the occupant.
pub open spec fn spec_melee_consequences(
    a: Attack,
    u: Seq<Option<Unit>>,
    target: HexIndex,
    d: Direction,
) -> Seq<(HexIndex, PrevisualisationItem)> {
    let push = melee_push_direction(a, d);
    if u[target.spec_index()] is Some {
        let life = u[target.spec_index()]->Some_0.life;
        match nbr_cell(target, push) {
            Some(behind) => {
                if u[behind.spec_index()] is Some {
                    seq![
                        (
                            target,
                            PrevisualisationItem::LifeChange(
                                life.spec_with_loss(melee_obstructed_damage(a)),
                            ),
                        ),
                        (
                            behind,
                            PrevisualisationItem::LifeChange(
                                u[behind.spec_index()]->Some_0.life.spec_with_loss(1),
                            ),
                        ),
                        (target, PrevisualisationItem::PushArrow(push, true)),
                    ]
                } else {
                    seq![
                        (
                            target,
                            PrevisualisationItem::LifeChange(
                                life.spec_with_loss(melee_base_damage(a)),
                            ),
                        ),
                        (target, PrevisualisationItem::PushArrow(push, false)),
                    ]
                }
            },
            None => seq![
                (
                    target,
                    PrevisualisationItem::LifeChange(life.spec_with_loss(melee_base_damage(a))),
                ),
                (target, PrevisualisationItem::PushArrow(push, false)),
            ],
        }
    } else {
        seq![(target, PrevisualisationItem::PushArrow(push, false))]
    }
}

/// Consequences of a heal onto `target`: a staged one-point gain on the
/// occupant, nothing on an empty cell.
pub open spec fn spec_heal_consequences(
    u: Seq<Option<Unit>>,
    target: HexIndex,
) -> Seq<(HexIndex, PrevisualisationItem)> {
    if u[target.spec_index()] is Some {
        seq![
            (
                target,
                PrevisualisationItem::LifeChange(
                    u[target.spec_index()]->Some_0.life.spec_with_loss(-1),
                ),
            ),
        ]
    } else {
        seq![]
    }
}

/// Consequences of a volley of arrows shot from `origin` toward `target`.
/// The struck cell is the final cell of the ray through `target` — the
/// first occupied cell, or the last one before the board edge — and the
/// obstruction rule is applied behind the struck cell; a ranged-hit marker
/// anchored at the origin closes the list.  A target on no ray yields no
/// consequences.
pub open spec fn spec_volley_consequences(
    u: Seq<Option<Unit>>,
    origin: HexIndex,
    target: HexIndex,
) -> Seq<(HexIndex, PrevisualisationItem)> {
    if exists|d: Direction| on_ray(u, origin.spec_index(), target.spec_index(), d) {
        let d = choose|d: Direction| on_ray(u, origin.spec_index(), target.spec_index(), d);
        let ft = cell_at(ray_stop_cell(u, origin.spec_index(), d));
        let shot = seq![(origin, PrevisualisationItem::LongDistanceShoot(ft))];
        if u[ft.spec_index()] is Some {
            let life = u[ft.spec_index()]->Some_0.life;
            match nbr_cell(ft, d) {
                Some(behind) => {
                    if u[behind.spec_index()] is Some {
                        seq![
                            (ft, PrevisualisationItem::LifeChange(life.spec_with_loss(3))),
                            (
                                behind,
                                PrevisualisationItem::LifeChange(
                                    u[behind.spec_index()]->Some_0.life.spec_with_loss(1),
                                ),
                            ),
                            (ft, PrevisualisationItem::PushArrow(d, true)),
                        ] + shot
                    } else {
                        seq![
                            (ft, PrevisualisationItem::LifeChange(life.spec_with_loss(2))),
                            (ft, PrevisualisationItem::PushArrow(d, false)),
                        ] + shot
                    }
                },
                None => seq![
                    (ft, PrevisualisationItem::LifeChange(life.spec_with_loss(2))),
                    (ft, PrevisualisationItem::PushArrow(d, false)),
                ] + shot,
            }
        } else {
            shot
        }
    } else {
        seq![]
    }
}

/// Consequences of attack `a` performed from `position` onto `target`, for
/// the board contents `u`.  A target outside the attack's shape (not an
/// existing neighbour for melee and heal, on no ray for the volley) yields
/// no consequences.
pub open spec fn spec_consequences(
    a: Attack,
    u: Seq<Option<Unit>>,
    position: HexIndex,
    target: HexIndex,
) -> Seq<(HexIndex, PrevisualisationItem)> {
    match a {
        Attack::Heal => spec_heal_consequences(u, target),
        Attack::VolleyOfArrows => spec_volley_consequences(u, position, target),
        _ => {
            if exists|d: Direction|
                snbr(position.spec_index(), d) == Some(target.spec_index()) {
                let d = choose|d: Direction|
                    snbr(position.spec_index(), d) == Some(target.spec_index());
                spec_melee_consequences(a, u, target, d)
            } else {
                seq![]
            }
        },
    }
}

/// One consequence applied to the unit table: a life change commits the
/// staged loss, emptying the slot when the result is zero; a push moves the
/// unit one cell along the direction only when not cancelled and the
/// destination is vacant at apply time; the ranged-hit marker changes
/// nothing.
pub open spec fn spec_apply_one(
    u: Seq<Option<Unit>>,
    pos: HexIndex,
    item: PrevisualisationItem,
) -> Seq<Option<Unit>> {
    let i = pos.spec_index();
    if 0 <= i < u.len() {
        match item {
            PrevisualisationItem::LifeChange(l) => {
                if l.spec_committed_current() == 0 {
                    u.update(i, None)
                } else if u[i] is Some {
                    u.update(i, Some(Unit { life: l.spec_commit(), ..u[i]->Some_0 }))
                } else {
                    u
                }
            },
            PrevisualisationItem::PushArrow(d, cancelled) => {
                if !cancelled {
                    match snbr(i, d) {
                        Some(j) => {
                            if 0 <= j < u.len() && u[j] is None && u[i] is Some {
                                u.update(i, None).update(j, u[i])
                            } else {
                                u
                            }
                        },
                        None => u,
                    }
                } else {
                    u
                }
            },
            PrevisualisationItem::LongDistanceShoot(_) => u,
        }
    } else {
        u
    }
}

/// A consequence list applied in order, first to last.
pub open spec fn spec_apply(
    u: Seq<Option<Unit>>,
    cs: Seq<(HexIndex, PrevisualisationItem)>,
) -> Seq<Option<Unit>>
    decreases cs.len(),
{
    if cs.len() == 0 {
        u
    } else {
        spec_apply(spec_apply_one(u, cs[0].0, cs[0].1), cs.drop_first())
    }
}

/// Applying one more consequence continues from the result so far.
pub proof fn lemma_spec_apply_snoc(
    u: Seq<Option<Unit>>,
    cs: Seq<(HexIndex, PrevisualisationItem)>,
    x: (HexIndex, PrevisualisationItem),
)
    ensures
        spec_apply(u, cs.push(x)) == spec_apply_one(spec_apply(u, cs), x.0, x.1),
    decreases cs.len(),
{
    if cs.len() == 0 {
        reveal_with_fuel(spec_apply, 2);
        assert(cs.push(x).drop_first() =~= Seq::<(HexIndex, PrevisualisationItem)>::empty());
        assert(cs.push(x)[0] == x);
    } else {
        assert(cs.push(x).drop_first() =~= cs.drop_first().push(x));
        assert(cs.push(x)[0] == cs[0]);
        lemma_spec_apply_snoc(spec_apply_one(u, cs[0].0, cs[0].1), cs.drop_first(), x);
    }
}

/// Applying well-formed consequences keeps every placed unit's life well
/// formed.
pub proof fn lemma_spec_apply_grid_wf(
    u: Seq<Option<Unit>>,
    cs: Seq<(HexIndex, PrevisualisationItem)>,
)
    requires
        crate::units::grid_wf(u),
        consequences_wf(cs),
    ensures
        crate::units::grid_wf(spec_apply(u, cs)),
    decreases cs.len(),
{
    if cs.len() > 0 {
        let u2 = spec_apply_one(u, cs[0].0, cs[0].1);
        match cs[0].1 {
            PrevisualisationItem::LifeChange(l) => {
                crate::life::lemma_spec_commit(l);
            },
            _ => {},
        }
        assert(crate::units::grid_wf(u2));
        assert(consequences_wf(cs.drop_first())) by {
            assert forall|k: int| 0 <= k < cs.drop_first().len() implies {
                &&& (#[trigger] cs.drop_first()[k]).0.wf()
                &&& match cs.drop_first()[k].1 {
                    PrevisualisationItem::LifeChange(l) => l.wf(),
                    PrevisualisationItem::PushArrow(_, _) => true,
                    PrevisualisationItem::LongDistanceShoot(c) => c.wf(),
                }
            } by {
                assert(cs.drop_first()[k] == cs[k + 1]);
            }
        }
        lemma_spec_apply_grid_wf(u2, cs.drop_first());
    }
}

/// Every consequence names a well-formed cell, and every staged life value
/// is well formed.
pub open spec fn consequences_wf(cs: Seq<(HexIndex, PrevisualisationItem)>) -> bool {
    forall|k: int| 0 <= k < cs.len() ==> {
        &&& (#[trigger] cs[k]).0.wf()
        &&& match cs[k].1 {
            PrevisualisationItem::LifeChange(l) => l.wf(),
            PrevisualisationItem::PushArrow(_, _) => true,
            PrevisualisationItem::LongDistanceShoot(c) => c.wf(),
        }
    }
}

/// `c` is a legal target of attack `a` performed from `position`: the
/// attacker's own cell too for a heal, the existing neighbours for heal and
/// melee, and every cell on one of the six arrow rays for the volley.
pub open spec fn spec_is_target(
    a: Attack,
    u: Seq<Option<Unit>>,
    position: HexIndex,
    c: HexIndex,
) -> bool {
    match a {
        Attack::Heal => c == position || exists|d: Direction| #[trigger] nbr_cell(position, d)
            == Some(c),
        Attack::VolleyOfArrows => c.wf() && exists|d: Direction|
            on_ray(u, position.spec_index(), c.spec_index(), d),
        _ => exists|d: Direction| #[trigger] nbr_cell(position, d) == Some(c),
    }
}

/// Append the existing neighbours of `position` to `targets`.
fn push_neighbours(targets: &mut Vec<HexIndex>, position: &HexIndex)
    requires
        position.wf(),
        old(targets)@.len() == 0,
    ensures
        forall|c: HexIndex| #[trigger] final(targets)@.contains(c) <==> exists|d: Direction|
            #[trigger] nbr_cell(*position, d) == Some(c),
        forall|j: int| 0 <= j < final(targets)@.len() ==> (#[trigger] final(targets)@[j]).wf()
            && final(targets)@[j].spec_index() != position.spec_index(),
        forall|j1: int, j2: int| 0 <= j1 < j2 < final(targets)@.len() ==> final(targets)@[j1]
            != final(targets)@[j2],
{
    let ghost old_targets = targets@;
    let dirs = Direction::all();
    let mut k: usize = 0;
    while k < 6
        invariant
            position.wf(),
            old_targets.len() == 0,
            k <= 6,
            dirs@ =~= seq![
                Direction::TopRight,
                Direction::Right,
                Direction::BottomRight,
                Direction::BottomLeft,
                Direction::Left,
                Direction::TopLeft,
            ],
            forall|c: HexIndex| #[trigger] targets@.contains(c) <==> old_targets.contains(c)
                || exists|m: int|
                0 <= m < k && #[trigger] nbr_cell(*position, dirs@[m]) == Some(c),
            forall|j: int| 0 <= j < targets@.len() ==> exists|m: int|
                0 <= m < k && #[trigger] nbr_cell(*position, dirs@[m]) == Some(
                    #[trigger] targets@[j],
                ),
            forall|j: int| 0 <= j < targets@.len() ==> (#[trigger] targets@[j]).wf()
                && targets@[j].spec_index() != position.spec_index(),
            forall|j1: int, j2: int| 0 <= j1 < j2 < targets@.len() ==> targets@[j1]
                != targets@[j2],
        decreases 6 - k,
    {
        let dk = dirs[k];
        if let Some(n) = position.get_neighbour(dk) {
            proof {
                crate::idx::lemma_snbr_valid(position.spec_index(), dk);
                lemma_cell_at(snbr(position.spec_index(), dk)->Some_0);
                assert forall|j: int| 0 <= j < targets@.len() implies targets@[j] != n by {
                    let m = choose|m: int|
                        0 <= m < k && #[trigger] nbr_cell(*position, dirs@[m]) == Some(
                            targets@[j],
                        );
                    if targets@[j] == n {
                        crate::idx::lemma_snbr_valid(position.spec_index(), dirs@[m]);
                        lemma_cell_at(snbr(position.spec_index(), dirs@[m])->Some_0);
                        crate::idx::lemma_snbr_unique_direction(
                            position.spec_index(),
                            dirs@[m],
                            dk,
                            n.spec_index(),
                        );
                    }
                }
            }
            targets.push(n);
        }
        k += 1;
    }
    proof {
        assert forall|c: HexIndex| #[trigger] targets@.contains(c) <==> (old_targets.contains(c)
            || exists|d: Direction| #[trigger] nbr_cell(*position, d) == Some(c)) by {
            if exists|d: Direction| nbr_cell(*position, d) == Some(c) {
                let d = choose|d: Direction| #[trigger] nbr_cell(*position, d) == Some(c);
                match d {
                    Direction::TopRight => { assert(nbr_cell(*position, dirs@[0]) == Some(c)); },
                    Direction::Right => { assert(nbr_cell(*position, dirs@[1]) == Some(c)); },
                    Direction::BottomRight => {
                        assert(nbr_cell(*position, dirs@[2]) == Some(c));
                    },
                    Direction::BottomLeft => { assert(nbr_cell(*position, dirs@[3]) == Some(c)); },
                    Direction::Left => { assert(nbr_cell(*position, dirs@[4]) == Some(c)); },
                    Direction::TopLeft => { assert(nbr_cell(*position, dirs@[5]) == Some(c)); },
                }
            }
            if targets@.contains(c) && !old_targets.contains(c) {
                let m = choose|m: int|
                    0 <= m < 6 && #[trigger] nbr_cell(*position, dirs@[m]) == Some(c);
                assert(nbr_cell(*position, dirs@[m]) == Some(c));
            }
        }
    }
}

/// Append every cell of the arrow ray from `position` in `direction` to
/// `targets`: each empty cell walked over, and the first occupied cell,
/// where the ray stops.
fn push_ray(
    targets: &mut Vec<HexIndex>,
    units: &Vec<Option<Unit>>,
    position: &HexIndex,
    direction: Direction,
)
    requires
        units@.len() == 61,
        position.wf(),
        forall|j: int| 0 <= j < old(targets)@.len() ==> (#[trigger] old(targets)@[j]).wf(),
        forall|j: int| 0 <= j < old(targets)@.len() ==> !on_ray(
            units@,
            position.spec_index(),
            (#[trigger] old(targets)@[j]).spec_index(),
            direction,
        ),
        forall|j1: int, j2: int| 0 <= j1 < j2 < old(targets)@.len() ==> old(targets)@[j1] != old(
            targets,
        )@[j2],
    ensures
        forall|c: HexIndex| #[trigger] final(targets)@.contains(c) <==> old(targets)@.contains(c)
            || (c.wf() && on_ray(units@, position.spec_index(), c.spec_index(), direction)),
        forall|j: int| 0 <= j < old(targets)@.len() ==> final(targets)@[j] == old(targets)@[j],
        final(targets)@.len() >= old(targets)@.len(),
        forall|j: int| old(targets)@.len() <= j < final(targets)@.len()
            ==> (#[trigger] final(targets)@[j]).wf(),
        forall|j1: int, j2: int| 0 <= j1 < j2 < final(targets)@.len() ==> final(targets)@[j1]
            != final(targets)@[j2],
{
    let ghost old_targets = targets@;
    let ghost u = units@;
    let ghost o = position.spec_index();
    let first = match position.get_neighbour(direction) {
        None => {
            proof {
                assert forall|n: int| 1 <= n implies line_n(o, direction, n) is None by {
                    assert(line_n(o, direction, n) is None);
                }
            }
            return ;
        },
        Some(f) => f,
    };
    let mut cur = first;
    proof {
        assert(line_n(first.spec_index(), direction, 0) == Some(first.spec_index()));
        assert(line_n(o, direction, 1) == Some(first.spec_index()));
        assert(on_ray(u, o, first.spec_index(), direction));
    }
    targets.push(first);
    let ghost mut steps: int = 1;
    proof {
        assert forall|c: HexIndex|
            c.wf() && line_n(o, direction, 1) == Some(c.spec_index()) implies c == first by {
            crate::idx::lemma_index_injective(c, first);
        }
    }
    loop
        invariant
            units@.len() == 61,
            units@ == u,
            position.wf(),
            o == position.spec_index(),
            cur.wf(),
            steps >= 1,
            line_n(o, direction, steps) == Some(cur.spec_index()),
            forall|m: int| 1 <= m < steps ==> !occ(u, #[trigger] line_n(o, direction, m)->Some_0),
            forall|c: HexIndex| #[trigger] targets@.contains(c) <==> old_targets.contains(c) || (
            c.wf() && exists|n: int|
                1 <= n <= steps && #[trigger] line_n(o, direction, n) == Some(c.spec_index())),
            forall|j: int| 0 <= j < old_targets.len() ==> targets@[j] == old_targets[j],
            targets@.len() >= old_targets.len(),
            forall|j: int| old_targets.len() <= j < targets@.len() ==> (
            #[trigger] targets@[j]).wf(),
            forall|j: int| 0 <= j < old_targets.len() ==> !on_ray(
                u,
                o,
                (#[trigger] old_targets[j]).spec_index(),
                direction,
            ),
            forall|j: int| old_targets.len() <= j < targets@.len() ==> exists|n: int|
                1 <= n <= steps && #[trigger] line_n(o, direction, n) == Some(
                    (#[trigger] targets@[j]).spec_index(),
                ),
            forall|j1: int, j2: int| 0 <= j1 < j2 < targets@.len() ==> targets@[j1]
                != targets@[j2],
        ensures
            units@ == u,
            cur.wf(),
            steps >= 1,
            line_n(o, direction, steps) == Some(cur.spec_index()),
            forall|m: int| 1 <= m < steps ==> !occ(u, #[trigger] line_n(o, direction, m)->Some_0),
            forall|c: HexIndex| #[trigger] targets@.contains(c) <==> old_targets.contains(c) || (
            c.wf() && exists|n: int|
                1 <= n <= steps && #[trigger] line_n(o, direction, n) == Some(c.spec_index())),
            forall|j: int| 0 <= j < old_targets.len() ==> targets@[j] == old_targets[j],
            targets@.len() >= old_targets.len(),
            forall|j: int| old_targets.len() <= j < targets@.len() ==> (
            #[trigger] targets@[j]).wf(),
            forall|j1: int, j2: int| 0 <= j1 < j2 < targets@.len() ==> targets@[j1]
                != targets@[j2],
            occ(u, cur.spec_index()) || snbr(cur.spec_index(), direction) is None,
        decreases ray_fuel(cur.spec_index(), direction),
    {
        if units[cur.get_index()].is_some() {
            break;
        }
        match cur.get_neighbour(direction) {
            None => {
                break;
            },
            Some(next) => {
                let ghost steps0 = steps;
                proof {
                    lemma_snbr_delta(cur.spec_index(), direction);
                    assert(line_n(next.spec_index(), direction, 0) == Some(next.spec_index()));
                    assert(line_n(cur.spec_index(), direction, 1) == Some(next.spec_index()));
                    lemma_line_split(o, direction, steps, 1);
                    steps = steps + 1;
                    assert(!occ(u, line_n(o, direction, steps0)->Some_0));
                    assert forall|m: int| 1 <= m < steps implies !occ(
                        u,
                        #[trigger] line_n(o, direction, m)->Some_0,
                    ) by {}
                    assert(line_n(o, direction, steps) == Some(next.spec_index()));
                    assert(on_ray(u, o, next.spec_index(), direction));
                    assert forall|j: int| 0 <= j < old_targets.len() implies targets@[j]
                        != next by {
                        assert(!on_ray(u, o, old_targets[j].spec_index(), direction));
                        assert(targets@[j] == old_targets[j]);
                    }
                    assert forall|j: int|
                        old_targets.len() <= j < targets@.len() implies targets@[j] != next by {
                        assert(exists|n: int|
                            1 <= n <= steps0 && #[trigger] line_n(o, direction, n) == Some(
                                (#[trigger] targets@[j]).spec_index(),
                            ));
                        let nj = choose|n: int|
                            1 <= n <= steps0 && #[trigger] line_n(o, direction, n) == Some(
                                targets@[j].spec_index(),
                            );
                        if targets@[j] == next {
                            crate::idx::lemma_line_injective(o, direction, nj, steps);
                        }
                    }
                }
                cur = next;
                targets.push(next);
                proof {
                    assert forall|c: HexIndex|
                        c.wf() && line_n(o, direction, steps) == Some(c.spec_index())
                            implies c == next by {
                        crate::idx::lemma_index_injective(c, next);
                    }
                }
            },
        }
    }
    proof {
        assert forall|c: HexIndex|
            c.wf() && on_ray(u, o, c.spec_index(), direction) implies (exists|n: int|
            1 <= n <= steps && #[trigger] line_n(o, direction, n) == Some(c.spec_index())) by {
            let n = choose|n: int|
                {
                    &&& 1 <= n
                    &&& #[trigger] line_n(o, direction, n) == Some(c.spec_index())
                    &&& forall|m: int| 1 <= m < n ==> !occ(u, #[trigger] line_n(o, direction, m)->Some_0)
                };
            if n > steps {
                if occ(u, cur.spec_index()) {
                    assert(1 <= steps < n && occ(u, line_n(o, direction, steps)->Some_0));
                } else {
                    lemma_line_split(o, direction, steps, n - steps);
                    assert(line_n(cur.spec_index(), direction, n - steps) is None);
                }
            }
        }
        assert forall|c: HexIndex|
            c.wf() && (exists|n: int|
                1 <= n <= steps && #[trigger] line_n(o, direction, n) == Some(c.spec_index()))
            implies on_ray(u, o, c.spec_index(), direction) by {
        }
    }
}

/// The direction in which `target` is an existing neighbour of `position`,
/// when there is one (there is at most one).
fn direction_to(position: &HexIndex, target: &HexIndex) -> (r: Option<Direction>)
    requires
        position.wf(),
        target.wf(),
    ensures
        r matches Some(d) ==> snbr(position.spec_index(), d) == Some(target.spec_index()),
        r is None ==> forall|d: Direction|
            snbr(position.spec_index(), d) != Some(target.spec_index()),
{
    let dirs = Direction::all();
    let mut k: usize = 0;
    while k < 6
        invariant
            position.wf(),
            target.wf(),
            k <= 6,
            dirs@ =~= seq![
                Direction::TopRight,
                Direction::Right,
                Direction::BottomRight,
                Direction::BottomLeft,
                Direction::Left,
                Direction::TopLeft,
            ],
            forall|m: int| 0 <= m < k ==> snbr(position.spec_index(), dirs@[m])
                != Some(target.spec_index()),
        decreases 6 - k,
    {
        let d = dirs[k];
        if let Some(n) = position.get_neighbour(d) {
            if n.get_index() == target.get_index() {
                return Some(d);
            }
        }
        k += 1;
    }
    proof {
        assert forall|d: Direction| snbr(position.spec_index(), d)
            != Some(target.spec_index()) by {
            assert(snbr(position.spec_index(), dirs@[0]) != Some(target.spec_index()));
            assert(snbr(position.spec_index(), dirs@[1]) != Some(target.spec_index()));
            assert(snbr(position.spec_index(), dirs@[2]) != Some(target.spec_index()));
            assert(snbr(position.spec_index(), dirs@[3]) != Some(target.spec_index()));
            assert(snbr(position.spec_index(), dirs@[4]) != Some(target.spec_index()));
            assert(snbr(position.spec_index(), dirs@[5]) != Some(target.spec_index()));
        }
    }
    None
}

/// Walk the arrow ray from `position` in `direction`: when `target` lies on
/// the ray, hand back the ray's final cell (the first occupied cell, or the
/// last one before the board edge).
fn scan_direction(
    units: &Vec<Option<Unit>>,
    position: &HexIndex,
    target: &HexIndex,
    direction: Direction,
) -> (r: Option<HexIndex>)
    requires
        units@.len() == 61,
        position.wf(),
        target.wf(),
    ensures
        r is Some <==> on_ray(units@, position.spec_index(), target.spec_index(), direction),
        r matches Some(h) ==> {
            &&& h.wf()
            &&& exists|n: int| ray_stop(units@, position.spec_index(), direction, n)
            &&& h.spec_index() == ray_stop_cell(units@, position.spec_index(), direction)
        },
{
    let ghost u = units@;
    let ghost o = position.spec_index();
    let first = match position.get_neighbour(direction) {
        None => {
            proof {
                assert forall|n: int| 1 <= n implies line_n(o, direction, n) is None by {
                    assert(line_n(o, direction, n) is None);
                }
            }
            return None;
        },
        Some(f) => f,
    };
    let mut cur = first;
    let mut found = cur.get_index() == target.get_index();
    let ghost mut steps: int = 1;
    proof {
        assert(line_n(first.spec_index(), direction, 0) == Some(first.spec_index()));
        assert(line_n(o, direction, 1) == Some(first.spec_index()));
    }
    loop
        invariant
            units@.len() == 61,
            units@ == u,
            position.wf(),
            target.wf(),
            cur.wf(),
            steps >= 1,
            line_n(o, direction, steps) == Some(cur.spec_index()),
            forall|m: int| 1 <= m < steps ==> !occ(u, #[trigger] line_n(o, direction, m)->Some_0),
            found <==> exists|n: int|
                1 <= n <= steps && #[trigger] line_n(o, direction, n)
                    == Some(target.spec_index()),
        ensures
            units@ == u,
            cur.wf(),
            steps >= 1,
            line_n(o, direction, steps) == Some(cur.spec_index()),
            forall|m: int| 1 <= m < steps ==> !occ(u, #[trigger] line_n(o, direction, m)->Some_0),
            found <==> exists|n: int|
                1 <= n <= steps && #[trigger] line_n(o, direction, n)
                    == Some(target.spec_index()),
            occ(u, cur.spec_index()) || snbr(cur.spec_index(), direction) is None,
        decreases ray_fuel(cur.spec_index(), direction),
    {
        if units[cur.get_index()].is_some() {
            break;
        }
        match cur.get_neighbour(direction) {
            None => {
                break;
            },
            Some(next) => {
                proof {
                    lemma_snbr_delta(cur.spec_index(), direction);
                    assert(line_n(next.spec_index(), direction, 0) == Some(next.spec_index()));
                    assert(line_n(cur.spec_index(), direction, 1) == Some(next.spec_index()));
                    lemma_line_split(o, direction, steps, 1);
                    steps = steps + 1;
                }
                cur = next;
                if cur.get_index() == target.get_index() {
                    found = true;
                }
            },
        }
    }
    proof {
        assert(ray_stop(u, o, direction, steps));
    }
    if found {
        proof {
            let n0 = choose|n: int| ray_stop(u, o, direction, n);
            lemma_ray_stop_unique(u, o, direction, n0, steps);
            assert(ray_stop_cell(u, o, direction) == cur.spec_index());
        }
        Some(cur)
    } else {
        proof {
            assert forall|n: int|
                1 <= n && #[trigger] line_n(o, direction, n) == Some(target.spec_index())
                    implies !(forall|m: int| 1 <= m < n ==> !occ(
                    u,
                    #[trigger] line_n(o, direction, m)->Some_0,
                )) by {
                if n <= steps {
                } else {
                    if occ(u, cur.spec_index()) {
                        assert(1 <= steps < n && occ(u, line_n(o, direction, steps)->Some_0));
                    } else {
                        lemma_line_split(o, direction, steps, n - steps);
                        assert(line_n(cur.spec_index(), direction, n - steps) is None);
                    }
                }
            }
            assert(!on_ray(u, o, target.spec_index(), direction));
        }
        None
    }
}

/// One of the five attack kinds.
#[derive(Clone, Copy, PartialEq, Eq, Structural, Debug)]
pub enum Attack {
    StickKnock,
    VolleyOfArrows,
    OffensiveSwordFight,
    DefensiveSwordFight,
    Heal,
}

impl Attack {
    /// Commit a previously previewed consequence list to the unit table,
    /// first to last (see `spec_apply_one` for the effect of each item).
    /// The board's terrain is untouched.
    pub fn apply(
        consequences: Vec<(HexIndex, PrevisualisationItem)>,
        _map: &mut Board,
        units: &mut Vec<Option<Unit>>,
    )
        requires
            old(units)@.len() == 61,
            consequences_wf(consequences@),
        ensures
            final(units)@ == spec_apply(old(units)@, consequences@),
            final(units)@.len() == 61,
            *final(_map) == *old(_map),
    {
        let ghost u0 = units@;
        let mut idx: usize = 0;
        while idx < consequences.len()
            invariant
                idx <= consequences@.len(),
                units@.len() == 61,
                consequences_wf(consequences@),
                units@ == spec_apply(u0, consequences@.take(idx as int)),
            decreases consequences@.len() - idx,
        {
            let ghost u_before = units@;
            let (position, item) = consequences[idx];
            proof {
                assert(consequences@[idx as int].0.wf());
            }
            match item {
                PrevisualisationItem::LifeChange(life) => {
                    let mut committed = life;
                    committed.lose_life();
                    if committed.is_dead() {
                        units[position.get_index()] = None;
                    } else {
                        let i = position.get_index();
                        let mut slot = units[i].take();
                        match &mut slot {
                            Some(unit) => {
                                unit.life = committed;
                            },
                            None => {},
                        }
                        units[i] = slot;
                        proof {
                            if u_before[i as int] is Some {
                                assert(units@ =~= u_before.update(
                                    i as int,
                                    Some(
                                        Unit {
                                            life: life.spec_commit(),
                                            ..u_before[i as int]->Some_0
                                        },
                                    ),
                                ));
                            } else {
                                assert(units@ =~= u_before);
                            }
                        }
                    }
                },
                PrevisualisationItem::PushArrow(direction, cancelled) => {
                    if !cancelled {
                        if let Some(new_position) = position.get_neighbour(direction) {
                            if units[new_position.get_index()].is_none() {
                                let taken = units[position.get_index()].take();
                                match taken {
                                    Some(unit) => {
                                        units[new_position.get_index()] = Some(unit);
                                    },
                                    None => {
                                        proof {
                                            assert(units@ =~= u_before);
                                        }
                                    },
                                }
                            }
                        }
                    }
                },
                PrevisualisationItem::LongDistanceShoot(_) => {},
            }
            proof {
                assert(units@ == spec_apply_one(
                    u_before,
                    consequences@[idx as int].0,
                    consequences@[idx as int].1,
                ));
                assert(consequences@.take(idx + 1) =~= consequences@.take(idx as int).push(
                    consequences@[idx as int],
                ));
                lemma_spec_apply_snoc(u0, consequences@.take(idx as int), consequences@[idx as int]);
            }
            idx += 1;
        }
        proof {
            assert(consequences@.take(consequences@.len() as int) =~= consequences@);
        }
    }

    /// Player-facing description of the attack: a fixed text per attack
    /// kind (the heal's text states the restore-to-a-third floor rule).
    pub fn get_description(&self) -> (r: &'static str)
        ensures
            r@ == match *self {
                Attack::StickKnock => "Hit an adjacent unit (1 damage) and push it away."@,
                Attack::VolleyOfArrows => "Shoot arrows in one direction. The first ennemy on that direction will be damaged (1 damage) and pushed away."@,
                Attack::OffensiveSwordFight => "Attack adjacent unit using sword (2 damage) and pull it (1 damage for both units)."@,
                Attack::DefensiveSwordFight => "Attack adjacent unit using sword (2 damage) and push it away."@,
                Attack::Heal => "Restore 1 LP. The healed unit will be restored at least to the third of the max LPs."@,
            },
    {
        match self {
            Attack::StickKnock => "Hit an adjacent unit (1 damage) and push it away.",
            Attack::VolleyOfArrows => "Shoot arrows in one direction. The first ennemy on that direction will be damaged (1 damage) and pushed away.",
            Attack::OffensiveSwordFight => "Attack adjacent unit using sword (2 damage) and pull it (1 damage for both units).",
            Attack::DefensiveSwordFight => "Attack adjacent unit using sword (2 damage) and push it away.",
            Attack::Heal => "Restore 1 LP. The healed unit will be restored at least to the third of the max LPs.",
        }
    }

    /// Player-facing name of the attack: a fixed name per attack kind.
    pub fn _get_name(&self) -> (r: &'static str)
        ensures
            r@ == match *self {
                Attack::StickKnock => "Stick Knock"@,
                Attack::VolleyOfArrows => "Volley of Arrows"@,
                Attack::OffensiveSwordFight => "Offensive Sword Fight"@,
                Attack::DefensiveSwordFight => "Defensive Sword Fight"@,
                Attack::Heal => "Heal"@,
            },
    {
        match self {
            Attack::StickKnock => "Stick Knock",
            Attack::VolleyOfArrows => "Volley of Arrows",
            Attack::OffensiveSwordFight => "Offensive Sword Fight",
            Attack::DefensiveSwordFight => "Defensive Sword Fight",
            Attack::Heal => "Heal",
        }
    }

    /// The legal target cells of this attack performed from `position` (see
    /// `spec_is_target`): the existing neighbours for melee, those plus the
    /// caster's own cell for a heal, and the six arrow rays for the volley.
    pub fn get_potential_targets(
        &self,
        _map: &Board,
        units: &Vec<Option<Unit>>,
        position: &HexIndex,
    ) -> (r: Vec<HexIndex>)
        requires
            units@.len() == 61,
            position.wf(),
        ensures
            forall|j: int| 0 <= j < r@.len() ==> (#[trigger] r@[j]).wf(),
            forall|c: HexIndex| #[trigger] r@.contains(c) <==> spec_is_target(
                *self,
                units@,
                *position,
                c,
            ),
            forall|j1: int, j2: int| 0 <= j1 < j2 < r@.len() ==> r@[j1] != r@[j2],
    {
        let mut targets: Vec<HexIndex> = Vec::new();
        match self {
            Attack::Heal => {
                push_neighbours(&mut targets, position);
                proof {
                    assert forall|j: int| 0 <= j < targets@.len() implies targets@[j]
                        != *position by {
                        assert(targets@[j].spec_index() != position.spec_index());
                    }
                }
                targets.push(*position);
            },
            Attack::StickKnock | Attack::DefensiveSwordFight | Attack::OffensiveSwordFight => {
                push_neighbours(&mut targets, position);
            },
            Attack::VolleyOfArrows => {
                let ghost u = units@;
                let ghost o = position.spec_index();
                let dirs = Direction::all();
                let mut k: usize = 0;
                while k < 6
                    invariant
                        units@.len() == 61,
                        units@ == u,
                        position.wf(),
                        o == position.spec_index(),
                        k <= 6,
                        dirs@ =~= seq![
                            Direction::TopRight,
                            Direction::Right,
                            Direction::BottomRight,
                            Direction::BottomLeft,
                            Direction::Left,
                            Direction::TopLeft,
                        ],
                        forall|c: HexIndex| #[trigger] targets@.contains(c) <==> (c.wf()
                            && exists|m: int|
                            0 <= m < k && on_ray(u, o, c.spec_index(), #[trigger] dirs@[m])),
                        forall|j: int| 0 <= j < targets@.len() ==> (#[trigger] targets@[j]).wf(),
                        forall|j1: int, j2: int| 0 <= j1 < j2 < targets@.len() ==> targets@[j1]
                            != targets@[j2],
                    decreases 6 - k,
                {
                    let dk = dirs[k];
                    proof {
                        assert forall|j: int| 0 <= j < targets@.len() implies !on_ray(
                            u,
                            o,
                            (#[trigger] targets@[j]).spec_index(),
                            dk,
                        ) by {
                            assert(targets@.contains(targets@[j]));
                            let m = choose|m: int|
                                0 <= m < k && on_ray(
                                    u,
                                    o,
                                    targets@[j].spec_index(),
                                    #[trigger] dirs@[m],
                                );
                            if on_ray(u, o, targets@[j].spec_index(), dk) {
                                lemma_ray_direction_unique(
                                    u,
                                    o,
                                    targets@[j].spec_index(),
                                    dirs@[m],
                                    dk,
                                );
                            }
                        }
                    }
                    push_ray(&mut targets, units, position, dk);
                    k += 1;
                }
                proof {
                    assert forall|c: HexIndex| #[trigger] targets@.contains(c) <==> (c.wf()
                        && exists|d: Direction| on_ray(u, o, c.spec_index(), d)) by {
                        if c.wf() && exists|d: Direction| on_ray(u, o, c.spec_index(), d) {
                            let d = choose|d: Direction| on_ray(u, o, c.spec_index(), d);
                            match d {
                                Direction::TopRight => {
                                    assert(on_ray(u, o, c.spec_index(), dirs@[0]));
                                },
                                Direction::Right => {
                                    assert(on_ray(u, o, c.spec_index(), dirs@[1]));
                                },
                                Direction::BottomRight => {
                                    assert(on_ray(u, o, c.spec_index(), dirs@[2]));
                                },
                                Direction::BottomLeft => {
                                    assert(on_ray(u, o, c.spec_index(), dirs@[3]));
                                },
                                Direction::Left => {
                                    assert(on_ray(u, o, c.spec_index(), dirs@[4]));
                                },
                                Direction::TopLeft => {
                                    assert(on_ray(u, o, c.spec_index(), dirs@[5]));
                                },
                            }
                        }
                        if targets@.contains(c) {
                            let m = choose|m: int|
                                0 <= m < 6 && on_ray(u, o, c.spec_index(), #[trigger] dirs@[m]);
                            assert(on_ray(u, o, c.spec_index(), dirs@[m]));
                        }
                    }
                }
            },
        }
        targets
    }

    /// The ordered consequence list of performing this attack from
    /// `position` onto `target` against the current board contents, staged
    /// for preview: nothing is mutated.  A target outside the attack's
    /// shape yields the empty list.
    pub fn get_consequences(
        &self,
        _map: &Board,
        units: &Vec<Option<Unit>>,
        position: &HexIndex,
        target: &HexIndex,
    ) -> (r: Vec<(HexIndex, PrevisualisationItem)>)
        requires
            units@.len() == 61,
            position.wf(),
            target.wf(),
        ensures
            r@ == spec_consequences(*self, units@, *position, *target),
    {
        match self {
            Attack::Heal => {
                let mut consequences: Vec<(HexIndex, PrevisualisationItem)> = Vec::new();
                match &units[target.get_index()] {
                    Some(unit) => {
                        consequences.push(
                            (
                                *target,
                                PrevisualisationItem::LifeChange(unit.life.previsualise_loss(-1)),
                            ),
                        );
                    },
                    None => {},
                }
                proof {
                    assert(consequences@ =~= spec_heal_consequences(units@, *target));
                }
                consequences
            },
            Attack::StickKnock | Attack::DefensiveSwordFight | Attack::OffensiveSwordFight => {
                self.melee_consequences(units, position, target)
            },
            Attack::VolleyOfArrows => {
                let ghost u = units@;
                let ghost o = position.spec_index();
                let ghost t = target.spec_index();
                let dirs = Direction::all();
                let mut hit: Option<(HexIndex, Direction)> = None;
                let mut k: usize = 0;
                while k < 6
                    invariant
                        units@.len() == 61,
                        units@ == u,
                        position.wf(),
                        target.wf(),
                        o == position.spec_index(),
                        t == target.spec_index(),
                        k <= 6,
                        dirs@ =~= seq![
                            Direction::TopRight,
                            Direction::Right,
                            Direction::BottomRight,
                            Direction::BottomLeft,
                            Direction::Left,
                            Direction::TopLeft,
                        ],
                        hit matches Some((h, d)) ==> {
                            &&& on_ray(u, o, t, d)
                            &&& h.wf()
                            &&& exists|n: int| ray_stop(u, o, d, n)
                            &&& h.spec_index() == ray_stop_cell(u, o, d)
                        },
                        hit is None ==> forall|m: int| 0 <= m < k ==> !on_ray(u, o, t, dirs@[m]),
                    decreases 6 - k,
                {
                    let dk = dirs[k];
                    match scan_direction(units, position, target, dk) {
                        Some(h) => {
                            hit = Some((h, dk));
                        },
                        None => {},
                    }
                    k += 1;
                }
                match hit {
                    None => {
                        proof {
                            assert forall|d: Direction| !on_ray(u, o, t, d) by {
                                assert(!on_ray(u, o, t, dirs@[0]));
                                assert(!on_ray(u, o, t, dirs@[1]));
                                assert(!on_ray(u, o, t, dirs@[2]));
                                assert(!on_ray(u, o, t, dirs@[3]));
                                assert(!on_ray(u, o, t, dirs@[4]));
                                assert(!on_ray(u, o, t, dirs@[5]));
                            }
                            assert(spec_volley_consequences(u, *position, *target) =~= Seq::<
                                (HexIndex, PrevisualisationItem),
                            >::empty());
                        }
                        Vec::new()
                    },
                    Some((ft, d)) => {
                        proof {
                            let d2 = choose|d2: Direction| on_ray(u, o, t, d2);
                            lemma_ray_direction_unique(u, o, t, d, d2);
                            lemma_cell_at_self(ft);
                        }
                        let mut consequences: Vec<(HexIndex, PrevisualisationItem)> = Vec::new();
                        let ft_life: Option<Life> = match &units[ft.get_index()] {
                            Some(unit) => Some(unit.life),
                            None => None,
                        };
                        match ft_life {
                            Some(life) => {
                                let behind_life: Option<(HexIndex, Life)> = match ft.get_neighbour(
                                    d,
                                ) {
                                    Some(behind) => match &units[behind.get_index()] {
                                        Some(unit) => Some((behind, unit.life)),
                                        None => None,
                                    },
                                    None => None,
                                };
                                match behind_life {
                                    Some((behind, bl)) => {
                                        consequences.push(
                                            (
                                                ft,
                                                PrevisualisationItem::LifeChange(
                                                    life.previsualise_loss(3),
                                                ),
                                            ),
                                        );
                                        consequences.push(
                                            (
                                                behind,
                                                PrevisualisationItem::LifeChange(
                                                    bl.previsualise_loss(1),
                                                ),
                                            ),
                                        );
                                        consequences.push(
                                            (ft, PrevisualisationItem::PushArrow(d, true)),
                                        );
                                    },
                                    None => {
                                        consequences.push(
                                            (
                                                ft,
                                                PrevisualisationItem::LifeChange(
                                                    life.previsualise_loss(2),
                                                ),
                                            ),
                                        );
                                        consequences.push(
                                            (ft, PrevisualisationItem::PushArrow(d, false)),
                                        );
                                    },
                                }
                            },
                            None => {},
                        }
                        consequences.push((*position, PrevisualisationItem::LongDistanceShoot(ft)));
                        proof {
                            assert(consequences@ =~= spec_volley_consequences(u, *position, *target));
                        }
                        consequences
                    },
                }
            },
        }
    }

    /// Consequence list of the three melee attacks (see
    /// `spec_melee_consequences`).
    fn melee_consequences(
        &self,
        units: &Vec<Option<Unit>>,
        position: &HexIndex,
        target: &HexIndex,
    ) -> (r: Vec<(HexIndex, PrevisualisationItem)>)
        requires
            units@.len() == 61,
            position.wf(),
            target.wf(),
            *self == Attack::StickKnock || *self == Attack::DefensiveSwordFight || *self
                == Attack::OffensiveSwordFight,
        ensures
            r@ == spec_consequences(*self, units@, *position, *target),
    {
        let ghost u = units@;
        let mut consequences: Vec<(HexIndex, PrevisualisationItem)> = Vec::new();
        match direction_to(position, target) {
            None => {
                proof {
                    assert(spec_consequences(*self, u, *position, *target) =~= Seq::<
                        (HexIndex, PrevisualisationItem),
                    >::empty());
                }
                consequences
            },
            Some(d) => {
                proof {
                    let d2 = choose|d2: Direction|
                        snbr(position.spec_index(), d2) == Some(target.spec_index());
                    assert(line_n(target.spec_index(), d, 0) == Some(target.spec_index()));
                    assert(line_n(position.spec_index(), d, 1) == Some(target.spec_index()));
                    assert(line_n(target.spec_index(), d2, 0) == Some(target.spec_index()));
                    assert(line_n(position.spec_index(), d2, 1) == Some(target.spec_index()));
                    lemma_line_unique_direction(
                        position.spec_index(),
                        d,
                        d2,
                        1,
                        1,
                        target.spec_index(),
                    );
                }
                let push = match self {
                    Attack::OffensiveSwordFight => d.opposite(),
                    _ => d,
                };
                let (base, obstructed): (isize, isize) = match self {
                    Attack::StickKnock => (1, 2),
                    _ => (2, 3),
                };
                let target_life: Option<Life> = match &units[target.get_index()] {
                    Some(unit) => Some(unit.life),
                    None => None,
                };
                match target_life {
                    None => {
                        consequences.push((*target, PrevisualisationItem::PushArrow(push, false)));
                    },
                    Some(life) => {
                        let behind_life: Option<(HexIndex, Life)> = match target.get_neighbour(
                            push,
                        ) {
                            Some(behind) => match &units[behind.get_index()] {
                                Some(unit) => Some((behind, unit.life)),
                                None => None,
                            },
                            None => None,
                        };
                        match behind_life {
                            Some((behind, bl)) => {
                                consequences.push(
                                    (
                                        *target,
                                        PrevisualisationItem::LifeChange(
                                            life.previsualise_loss(obstructed),
                                        ),
                                    ),
                                );
                                consequences.push(
                                    (behind, PrevisualisationItem::LifeChange(bl.previsualise_loss(1))),
                                );
                                consequences.push(
                                    (*target, PrevisualisationItem::PushArrow(push, true)),
                                );
                            },
                            None => {
                                consequences.push(
                                    (
                                        *target,
                                        PrevisualisationItem::LifeChange(
                                            life.previsualise_loss(base),
                                        ),
                                    ),
                                );
                                consequences.push(
                                    (*target, PrevisualisationItem::PushArrow(push, false)),
                                );
                            },
                        }
                    },
                }
                proof {
                    assert(consequences@ =~= spec_melee_consequences(*self, u, *target, d));
                }
                consequences
            },
        }
    }

    /// Whether a unit of the given type may use this attack.
    pub fn _can_be_used_by_unit(&self, unit: &UnitType) -> (r: bool)
        ensures
            r == match *self {
                Attack::StickKnock | Attack::Heal => true,
                Attack::VolleyOfArrows => *unit == UnitType::Archer,
                Attack::OffensiveSwordFight | Attack::DefensiveSwordFight => *unit
                    == UnitType::Knight,
            },
    {
        match self {
            Attack::StickKnock => true,
            Attack::Heal => true,
            Attack::VolleyOfArrows => match unit {
                UnitType::Archer => true,
                _ => false,
            },
            Attack::OffensiveSwordFight | Attack::DefensiveSwordFight => match unit {
                UnitType::Knight => true,
                _ => false,
            },
        }
    }
}

} // verus!

//! What each phase of a tick makes of the units and events it finds, unit by
//! unit and event by event.

use crate::config::SimulationConfig;
use crate::double::Double;
use crate::events::EventView;
use crate::game_state::{MatchStatus, Tile, Unit, UnitId, UnitKind, UnitState};
use crate::rules::World;
use vstd::prelude::*;

verus! {

/// Of the state, only the units may differ.
pub open spec fn only_units(w: World, v: World) -> bool {
    &&& v.state.tick == w.state.tick
    &&& v.state.board_size == w.state.board_size
    &&& v.state.status == w.state.status
    &&& v.state.winner == w.state.winner
    &&& v.state.end_reason == w.state.end_reason
    &&& v.state.next_unit_id == w.state.next_unit_id
    &&& v.state.walls == w.state.walls
}

// ---------------------------------------------------------------------------
// Movement
// ---------------------------------------------------------------------------

/// A unit has a move to roll for.
pub open spec fn waits(u: Unit) -> bool {
    u.kind == UnitKind::Pawn && u.state != UnitState::Locked && u.pending_move is Some
}

/// The dice are rolled for exactly the pawns with a queued move that are in no
/// fight, once each, by ascending id.
pub proof fn law_who_rolls(w: World)
    ensures
        forall|i: int|
            0 <= i < w.movers().len() ==> w.state.units.dom().contains(#[trigger] w.movers()[i])
                && waits(w.state.units[w.movers()[i]]),
        forall|id: UnitId| #[trigger]
            w.state.units.dom().contains(id) && waits(w.state.units[id]) ==> w.movers().contains(
                id,
            ),
        forall|i: int, j: int| 0 <= i < j < w.movers().len() ==> w.movers()[i] < w.movers()[j],
        World::rolls_needed(w.state) == (if w.state.status == MatchStatus::Active {
            w.movers().len() as int
        } else {
            0
        }),
{
    crate::roster::lemma_id_order(w.state.units);
    crate::rules::lemma_select(
        w.state.units,
        World::rolls_to_move(),
        crate::roster::id_order(w.state.units),
    );
    assert forall|id: UnitId| #[trigger]
        w.state.units.dom().contains(id) && waits(w.state.units[id]) implies w.movers().contains(
        id,
    ) by {
        assert(World::rolls_to_move()(w.state.units[id]));
    }
    let quiet = World { state: w.state, events: Seq::empty() };
    assert(quiet.movers() == w.movers());
}

/// When it is `id`'s turn to move, nobody is on the tile: neither where the
/// units that moved before it have come to stand, nor where the others stand.
pub open spec fn vacant_at_turn(w: World, v: World, id: UnitId, t: Tile) -> bool {
    forall|o: UnitId| #[trigger]
        w.state.units.dom().contains(o) ==> t != (if o < id && waits(w.state.units[o]) {
            v.state.units[o].pos
        } else {
            w.state.units[o].pos
        })
}

/// A queued move can be made when its turn comes.
pub open spec fn arrives(w: World, v: World, range: u8, id: UnitId) -> bool {
    let u = w.state.units[id];
    let to = u.pending_move->0;
    &&& crate::laws_orders::within(to, u.pos, range)
    &&& to.x < w.state.board_size
    &&& to.y < w.state.board_size
    &&& !w.state.walls.contains(to)
    &&& vacant_at_turn(w, v, id, to)
}

proof fn lemma_turn_world(
    w: World,
    cfg: SimulationConfig,
    chance: Double,
    rolls: Seq<u64>,
    i: int,
    o: UnitId,
)
    requires
        0 <= i < w.movers().len(),
        w.state.units.dom().contains(o),
    ensures
        ({
            let x = w.after_moves(cfg.pawn_move_range, chance, w.movers(), rolls, i);
            let v = w.movement(cfg, chance, rolls);
            x.unit(o) == (if o < w.movers()[i] && waits(w.unit(o)) {
                v.unit(o)
            } else {
                w.unit(o)
            })
        }),
{
    law_who_rolls(w);
    let ids = w.movers();
    let range = cfg.pawn_move_range;
    let len = ids.len() as int;
    assert forall|k: int| 0 <= k < ids.len() implies w.has(#[trigger] ids[k])
        && World::rolls_to_move()(w.unit(ids[k])) by {
        assert(waits(w.state.units[ids[k]]));
    }
    crate::progress::lemma_after_moves(w, range, chance, ids, rolls, i);
    let x = w.after_moves(range, chance, ids, rolls, i);
    if waits(w.unit(o)) {
        assert(ids.contains(o));
        let k = choose|k: int| 0 <= k < ids.len() && ids[k] == o;
        if o < ids[i] {
            assert(k < i);
            crate::progress::lemma_turn_lasts(w, range, chance, ids, rolls, k, i);
            crate::progress::lemma_turn_lasts(w, range, chance, ids, rolls, k, len);
        } else {
            assert(k >= i) by {
                if k < i {
                    assert(ids[k] < ids[i]);
                }
            }
            assert(x.unit(ids[k]) == w.unit(ids[k]));
        }
    } else {
        assert(crate::progress::may_move(w.state, range, w.unit(o), x.unit(o)));
    }
}

/// Movement, unit by unit. Who has no move to roll for stays as it is, and so
/// does whoever's roll fails. A roll that succeeds settles the move: the unit
/// goes to its target where that is on the board, within range, without a wall
/// and vacant when its turn comes, and otherwise stays; either way it is idle
/// and has no move queued. Units take their turns by ascending id.
pub proof fn law_movement(w: World, cfg: SimulationConfig, chance: Double, rolls: Seq<u64>, i: int)
    requires
        rolls.len() == w.movers().len(),
    ensures
        ({
            let v = w.movement(cfg, chance, rolls);
            &&& only_units(w, v)
            &&& v.state.units.dom() == w.state.units.dom()
            &&& forall|o: UnitId| #[trigger]
                w.state.units.dom().contains(o) && !waits(w.state.units[o]) ==> v.state.units[o]
                    == w.state.units[o]
            &&& 0 <= i < w.movers().len() ==> {
                let id = w.movers()[i];
                let u = w.state.units[id];
                if !World::roll_succeeds(chance, rolls[i]) {
                    v.state.units[id] == u
                } else {
                    &&& v.state.units[id].pos == (if arrives(w, v, cfg.pawn_move_range, id) {
                        u.pending_move->0
                    } else {
                        u.pos
                    })
                    &&& v.state.units[id].pending_move is None
                    &&& v.state.units[id].state == UnitState::Idle
                    &&& v.state.units[id] == (Unit {
                        pos: v.state.units[id].pos,
                        pending_move: v.state.units[id].pending_move,
                        state: v.state.units[id].state,
                        ..u
                    })
                }
            }
        }),
{
    let v = w.movement(cfg, chance, rolls);
    let ids = w.movers();
    let range = cfg.pawn_move_range;
    crate::progress::lemma_movement(w, cfg, chance, rolls);
    law_who_rolls(w);
    assert forall|o: UnitId| #[trigger]
        w.state.units.dom().contains(o) && !waits(w.state.units[o]) implies v.state.units[o]
        == w.state.units[o] by {
        assert(crate::progress::may_move(w.state, range, w.unit(o), v.unit(o)));
    }
    if 0 <= i < ids.len() {
        let id = ids[i];
        let x = w.after_moves(range, chance, ids, rolls, i);
        assert(w.state.units.dom().contains(id));
        lemma_turn_world(w, cfg, chance, rolls, i, id);
        crate::progress::lemma_turn_lasts(w, range, chance, ids, rolls, i, ids.len() as int);
        assert forall|k: int| 0 <= k < ids.len() implies w.has(#[trigger] ids[k])
            && World::rolls_to_move()(w.unit(ids[k])) by {
            assert(waits(w.state.units[ids[k]]));
        }
        crate::progress::lemma_after_moves(w, range, chance, ids, rolls, i);
        let to = w.unit(id).pending_move->0;
        crate::laws_units::law_board_tiles(x.state, to);
        crate::laws_units::law_distance_is_the_longer_gap(to, w.unit(id).pos, range as int);
        assert(vacant_at_turn(w, v, id, to) <==> forall|o: UnitId| #[trigger]
            x.state.units.dom().contains(o) ==> x.state.units[o].pos != to) by {
            assert forall|o: UnitId| #[trigger] w.state.units.dom().contains(o) implies x.unit(o)
                == (if o < id && waits(w.unit(o)) {
                v.unit(o)
            } else {
                w.unit(o)
            }) by {
                lemma_turn_world(w, cfg, chance, rolls, i, o);
            }
            if vacant_at_turn(w, v, id, to) {
                assert forall|o: UnitId| #[trigger] x.state.units.dom().contains(o) implies
                    x.state.units[o].pos != to by {
                    assert(w.state.units.dom().contains(o));
                }
            }
            if forall|o: UnitId| #[trigger]
                x.state.units.dom().contains(o) ==> x.state.units[o].pos != to {
                assert forall|o: UnitId| #[trigger] w.state.units.dom().contains(o) implies to != (
                if o < id && waits(w.state.units[o]) {
                    v.state.units[o].pos
                } else {
                    w.state.units[o].pos
                }) by {
                    assert(x.state.units.dom().contains(o));
                }
            }
        }
    }
}

/// The first `n` of the units that rolled, without those whose roll failed.
pub open spec fn lucky(ids: Seq<UnitId>, chance: Double, rolls: Seq<u64>, n: int) -> Seq<UnitId>
    decreases n,
{
    if n <= 0 {
        Seq::empty()
    } else if World::roll_succeeds(chance, rolls[n - 1]) {
        lucky(ids, chance, rolls, n - 1).push(ids[n - 1])
    } else {
        lucky(ids, chance, rolls, n - 1)
    }
}

/// The event that reports how a unit's move was settled.
pub open spec fn move_report(w: World, v: World, id: UnitId) -> EventView {
    let u = w.state.units[id];
    if v.state.units[id].pos != u.pos {
        EventView::MoveResolved { unit: id, by: u.owner, from: u.pos, to: u.pending_move->0 }
    } else {
        EventView::MoveBlocked {
            unit: id,
            by: u.owner,
            to: u.pending_move->0,
            reason: "target occupied"@,
        }
    }
}

/// Every settled move is reported once, in the order of the turns: as resolved
/// where the unit has left its tile, and otherwise as blocked.
pub proof fn law_movement_events(w: World, cfg: SimulationConfig, chance: Double, rolls: Seq<u64>)
    requires
        rolls.len() == w.movers().len(),
    ensures
        ({
            let v = w.movement(cfg, chance, rolls);
            let settled = lucky(w.movers(), chance, rolls, rolls.len() as int);
            &&& v.events.len() == w.events.len() + settled.len()
            &&& forall|i: int| 0 <= i < w.events.len() ==> #[trigger] v.events[i] == w.events[i]
            &&& forall|i: int|
                0 <= i < settled.len() ==> #[trigger] v.events[w.events.len() + i] == move_report(
                    w,
                    v,
                    settled[i],
                )
        }),
{
    lemma_movement_events(w, cfg, chance, rolls, rolls.len() as int);
}

proof fn lemma_movement_events(
    w: World,
    cfg: SimulationConfig,
    chance: Double,
    rolls: Seq<u64>,
    n: int,
)
    requires
        rolls.len() == w.movers().len(),
        0 <= n <= rolls.len(),
    ensures
        ({
            let x = w.after_moves(cfg.pawn_move_range, chance, w.movers(), rolls, n);
            let v = w.movement(cfg, chance, rolls);
            let settled = lucky(w.movers(), chance, rolls, n);
            &&& x.events.len() == w.events.len() + settled.len()
            &&& forall|i: int| 0 <= i < w.events.len() ==> #[trigger] x.events[i] == w.events[i]
            &&& forall|i: int|
                0 <= i < settled.len() ==> #[trigger] x.events[w.events.len() + i] == move_report(
                    w,
                    v,
                    settled[i],
                )
        }),
    decreases n,
{
    if n > 0 {
        lemma_movement_events(w, cfg, chance, rolls, n - 1);
        let ids = w.movers();
        let range = cfg.pawn_move_range;
        let len = ids.len() as int;
        let before = w.after_moves(range, chance, ids, rolls, n - 1);
        let x = w.after_moves(range, chance, ids, rolls, n);
        let v = w.movement(cfg, chance, rolls);
        let id = ids[n - 1];
        if World::roll_succeeds(chance, rolls[n - 1]) {
            law_who_rolls(w);
            assert(w.state.units.dom().contains(ids[n - 1]));
            lemma_turn_world(w, cfg, chance, rolls, n - 1, id);
            crate::progress::lemma_turn_lasts(w, range, chance, ids, rolls, n - 1, len);
            assert(before.unit(id) == w.unit(id));
            let to = w.unit(id).pending_move->0;
            if to == w.unit(id).pos {
                crate::laws_units::law_board_tiles(before.state, to);
                crate::progress::lemma_after_moves(w, range, chance, ids, rolls, n - 1);
                assert(before.state.units.dom().contains(id));
            }
            assert(x.events.last() == move_report(w, v, id));
            assert(x.events == before.events.push(x.events.last()));
        }
    }
}

// ---------------------------------------------------------------------------
// Melee locks
// ---------------------------------------------------------------------------

/// Enemies on neighbouring tiles.
pub open spec fn face(w: World, a: UnitId, b: UnitId) -> bool {
    let u = w.state.units[a];
    let v = w.state.units[b];
    &&& w.state.units.dom().contains(a)
    &&& w.state.units.dom().contains(b)
    &&& u.owner != v.owner
    &&& u.pos != v.pos
    &&& crate::laws_orders::within(u.pos, v.pos, 1)
}

/// From `w` to `v` two units have locked with each other.
pub open spec fn lock_up(w: World, v: World, a: UnitId, b: UnitId) -> bool {
    &&& face(w, a, b)
    &&& w.state.units[a].state != UnitState::Locked
    &&& w.state.units[b].state != UnitState::Locked
    &&& v.state.units[a].state == UnitState::Locked
    &&& v.state.units[b].state == UnitState::Locked
    &&& v.state.units[a].melee_target == Some(b)
    &&& v.state.units[b].melee_target == Some(a)
}

/// What the first `n` units' turns in the lock phase have come to.
spec fn locks_so_far(w: World, cooldown: u32, ids: Seq<UnitId>, n: int) -> bool {
    let (x, taken) = w.after_locks(cooldown, ids, n);
    &&& forall|id: UnitId| #[trigger]
        taken.contains(id) ==> exists|o: UnitId| #[trigger]
            crate::progress::locked_with(w, x, cooldown, id, o) && taken.contains(o) && (exists|
                m: int,
            |
                0 <= m < n && (#[trigger] ids[m] == id && id < o || ids[m] == o && o < id))
    &&& w.events.len() <= x.events.len()
    &&& forall|i: int| 0 <= i < w.events.len() ==> #[trigger] x.events[i] == w.events[i]
    &&& forall|i: int|
        w.events.len() <= i < x.events.len() ==> (#[trigger] x.events[i] matches
            EventView::MeleeLocked { a, b } && a < b && taken.contains(a) && taken.contains(b)
            && x.unit(a).melee_target == Some(b) && (exists|m: int| 0 <= m < n && ids[m] == a))
    &&& forall|i: int, j: int|
        w.events.len() <= i < j < x.events.len() ==> (#[trigger] x.events[i])->MeleeLocked_a < (
        #[trigger] x.events[j])->MeleeLocked_a
    &&& forall|id: UnitId| #[trigger]
        taken.contains(id) && id < x.unit(id).melee_target->0 ==> exists|i: int|
            w.events.len() <= i < x.events.len() && #[trigger] x.events[i]
                == (EventView::MeleeLocked { a: id, b: x.unit(id).melee_target->0 })
}

proof fn lemma_locks_so_far(w: World, cooldown: u32, ids: Seq<UnitId>, n: int)
    requires
        0 <= n <= ids.len(),
        forall|i: int, j: int| 0 <= i < j < ids.len() ==> ids[i] < ids[j],
        forall|i: int| 0 <= i < ids.len() ==> w.has(#[trigger] ids[i]),
    ensures
        locks_so_far(w, cooldown, ids, n),
    decreases n,
{
    if n > 0 {
        lemma_locks_so_far(w, cooldown, ids, n - 1);
        crate::progress::lemma_after_locks(w, cooldown, ids, n - 1);
        crate::progress::lemma_after_locks(w, cooldown, ids, n);
        let (before, taken) = w.after_locks(cooldown, ids, n - 1);
        let (x, taken2) = w.after_locks(cooldown, ids, n);
        if let Some(j) = before.partner(taken, ids, n - 1) {
            let a = ids[n - 1];
            assert(before.is_partner(taken, ids, n - 1, j));
            let b = ids[j];
            assert(a < b);
            assert(before.unit(a) == w.unit(a) && before.unit(b) == w.unit(b));
            crate::laws_board::law_distance(w.unit(a).pos, w.unit(b).pos, w.unit(a).pos);
            assert forall|id: UnitId| #[trigger] taken2.contains(id) implies exists|o: UnitId|
                #[trigger]
                crate::progress::locked_with(w, x, cooldown, id, o) && taken2.contains(o) && (
                exists|m: int|
                    0 <= m < n && (#[trigger] ids[m] == id && id < o || ids[m] == o && o < id)) by {
                if id == a {
                    assert(crate::progress::locked_with(w, x, cooldown, a, b));
                    assert(ids[n - 1] == a);
                } else if id == b {
                    assert(crate::progress::locked_with(w, x, cooldown, b, a));
                    assert(ids[n - 1] == a);
                } else {
                    assert(taken.contains(id));
                    let o = choose|o: UnitId| #[trigger]
                        crate::progress::locked_with(w, before, cooldown, id, o)
                            && taken.contains(o) && (exists|m: int|
                            0 <= m < n - 1 && (#[trigger] ids[m] == id && id < o || ids[m] == o && o
                                < id));
                    let m = choose|m: int|
                        0 <= m < n - 1 && (#[trigger] ids[m] == id && id < o || ids[m] == o && o
                            < id);
                    assert(o != a && o != b);
                    assert(crate::progress::locked_with(w, x, cooldown, id, o));
                    assert(ids[m] == id && id < o || ids[m] == o && o < id);
                }
            }
            let e = EventView::MeleeLocked { a, b };
            assert(x.events == before.events.push(e));
            assert forall|i: int| w.events.len() <= i < x.events.len() implies (
            #[trigger] x.events[i] matches EventView::MeleeLocked { a: p, b: q } && p < q
                && taken2.contains(p) && taken2.contains(q) && x.unit(p).melee_target == Some(q)
                && (exists|m: int| 0 <= m < n && ids[m] == p)) by {
                if i < before.events.len() {
                    assert(x.events[i] == before.events[i]);
                    let p = before.events[i]->MeleeLocked_a;
                    let m = choose|m: int| 0 <= m < n - 1 && ids[m] == p;
                    assert(ids[m] == p);
                    assert(taken.contains(p) && p != a && p != b);
                } else {
                    assert(x.events[i] == e);
                    assert(ids[n - 1] == a);
                }
            }
            assert forall|i: int, k: int| w.events.len() <= i < k < x.events.len() implies (
            #[trigger] x.events[i])->MeleeLocked_a < (#[trigger] x.events[k])->MeleeLocked_a by {
                assert(x.events[i] == before.events[i]);
                if k < before.events.len() {
                    assert(x.events[k] == before.events[k]);
                } else {
                    let p = before.events[i]->MeleeLocked_a;
                    let m = choose|m: int| 0 <= m < n - 1 && ids[m] == p;
                    assert(ids[m] < ids[n - 1]);
                }
            }
            assert forall|id: UnitId| #[trigger]
                taken2.contains(id) && id < x.unit(id).melee_target->0 implies exists|i: int|
                w.events.len() <= i < x.events.len() && #[trigger] x.events[i]
                    == (EventView::MeleeLocked { a: id, b: x.unit(id).melee_target->0 }) by {
                if id == a {
                    assert(x.events[before.events.len() as int] == e);
                } else if id == b {
                } else {
                    assert(taken.contains(id));
                    assert(x.unit(id) == before.unit(id));
                    let i = choose|i: int|
                        w.events.len() <= i < before.events.len() && #[trigger] before.events[i]
                            == (EventView::MeleeLocked {
                            a: id,
                            b: before.unit(id).melee_target->0,
                        });
                    assert(x.events[i] == before.events[i]);
                }
            }
        } else {
            assert forall|id: UnitId| #[trigger] taken2.contains(id) implies exists|o: UnitId|
                #[trigger]
                crate::progress::locked_with(w, x, cooldown, id, o) && taken2.contains(o) && (
                exists|m: int|
                    0 <= m < n && (#[trigger] ids[m] == id && id < o || ids[m] == o && o < id)) by {
                let o = choose|o: UnitId| #[trigger]
                    crate::progress::locked_with(w, before, cooldown, id, o) && taken.contains(o)
                        && (exists|m: int|
                        0 <= m < n - 1 && (#[trigger] ids[m] == id && id < o || ids[m] == o && o
                            < id));
                let m = choose|m: int|
                    0 <= m < n - 1 && (#[trigger] ids[m] == id && id < o || ids[m] == o && o < id);
                assert(crate::progress::locked_with(w, x, cooldown, id, o));
                assert(ids[m] == id && id < o || ids[m] == o && o < id);
            }
            assert forall|i: int| w.events.len() <= i < x.events.len() implies (
            #[trigger] x.events[i] matches EventView::MeleeLocked { a: p, b: q } && p < q
                && taken2.contains(p) && taken2.contains(q) && x.unit(p).melee_target == Some(q)
                && (exists|m: int| 0 <= m < n && ids[m] == p)) by {
                assert(before.events[i] == x.events[i]);
                let p = before.events[i]->MeleeLocked_a;
                let m = choose|m: int| 0 <= m < n - 1 && ids[m] == p;
                assert(ids[m] == p);
            }
        }
    }
}

/// A lock lasts through the rest of the phase.
proof fn lemma_taken_lasts(w: World, cooldown: u32, ids: Seq<UnitId>, m: int, n: int, id: UnitId)
    requires
        0 <= m <= n <= ids.len(),
        w.after_locks(cooldown, ids, m).1.contains(id),
    ensures
        w.after_locks(cooldown, ids, n).1.contains(id),
        w.after_locks(cooldown, ids, n).0.unit(id) == w.after_locks(cooldown, ids, m).0.unit(id),
    decreases n,
{
    if m < n {
        lemma_taken_lasts(w, cooldown, ids, m, n - 1, id);
        let (before, taken) = w.after_locks(cooldown, ids, n - 1);
        if let Some(j) = before.partner(taken, ids, n - 1) {
            assert(before.is_partner(taken, ids, n - 1, j));
        }
    }
}

/// Who locks with whom, field by field: a unit is left as it is; or it was in no
/// fight and now is, with an enemy on a neighbouring tile who was in none
/// either and is now in this one. A unit that locks, of whatever kind, is
/// locked on the other, has no move queued and starts with the full melee
/// cooldown; everything else about it stays.
pub proof fn law_new_locks(w: World, cfg: SimulationConfig)
    ensures
        ({
            let v = w.locking(cfg);
            &&& only_units(w, v)
            &&& v.state.units.dom() == w.state.units.dom()
            &&& forall|id: UnitId| #[trigger]
                w.state.units.dom().contains(id) && v.state.units[id] != w.state.units[id] ==> {
                    let u = w.state.units[id];
                    let x = v.state.units[id];
                    &&& x.melee_target is Some
                    &&& lock_up(w, v, id, x.melee_target->0)
                    &&& x.pending_move is None
                    &&& x.attack_cooldown == cfg.melee_cooldown_secs.ticks(cfg.tick_rate)
                    &&& x == (Unit {
                        state: x.state,
                        melee_target: x.melee_target,
                        pending_move: x.pending_move,
                        attack_cooldown: x.attack_cooldown,
                        ..u
                    })
                }
        }),
{
    let v = w.locking(cfg);
    crate::progress::lemma_locking(w, cfg);
    crate::laws_time::law_cooldowns_and_timeout(cfg);
    assert forall|id: UnitId| #[trigger]
        w.state.units.dom().contains(id) && v.state.units[id] != w.state.units[id] implies {
        let u = w.state.units[id];
        let x = v.state.units[id];
        &&& x.melee_target is Some
        &&& lock_up(w, v, id, x.melee_target->0)
        &&& x.pending_move is None
        &&& x.attack_cooldown == cfg.melee_cooldown_secs.ticks(cfg.tick_rate)
        &&& x == (Unit {
            state: x.state,
            melee_target: x.melee_target,
            pending_move: x.pending_move,
            attack_cooldown: x.attack_cooldown,
            ..u
        })
    } by {
        assert(crate::progress::may_lock(w, v, cfg.melee_ticks(), id));
        let o = choose|o: UnitId|
            crate::progress::locked_with(w, v, cfg.melee_ticks(), id, o);
        crate::laws_board::law_distance(w.unit(id).pos, w.unit(o).pos, w.unit(o).pos);
        crate::laws_units::law_distance_is_the_longer_gap(w.unit(o).pos, w.unit(id).pos, 1);
    }
}

/// Two units that lock with each other start level: their cooldowns are equal.
pub proof fn law_locks_start_level(w: World, cfg: SimulationConfig, a: UnitId, b: UnitId)
    requires
        lock_up(w, w.locking(cfg), a, b),
    ensures
        w.locking(cfg).state.units[a].attack_cooldown
            == w.locking(cfg).state.units[b].attack_cooldown,
        w.locking(cfg).state.units[a].attack_cooldown == cfg.melee_cooldown_secs.ticks(
            cfg.tick_rate,
        ),
{
    law_new_locks(w, cfg);
    assert(w.state.units.dom().contains(a) && w.state.units.dom().contains(b));
}

/// Nobody is passed over: where two facing enemies were both free and did not
/// lock with each other, the one with the lower id has locked with somebody
/// before the other in id order, or the other has locked with somebody before
/// the one.
pub proof fn law_lower_ids_lock_first(w: World, cfg: SimulationConfig, a: UnitId, b: UnitId)
    requires
        face(w, a, b),
        a < b,
        w.state.units[a].state != UnitState::Locked,
        w.state.units[b].state != UnitState::Locked,
    ensures
        ({
            let v = w.locking(cfg);
            let x = v.state.units[a].melee_target;
            let y = v.state.units[b].melee_target;
            ||| lock_up(w, v, a, b)
            ||| x is Some && x->0 < b && lock_up(w, v, a, x->0)
            ||| y is Some && y->0 < a && lock_up(w, v, b, y->0)
        }),
{
    let v = w.locking(cfg);
    let cooldown = cfg.melee_ticks();
    let ids = w.ids();
    let len = ids.len() as int;
    crate::roster::lemma_id_order(w.state.units);
    assert forall|i: int| 0 <= i < ids.len() implies w.has(#[trigger] ids[i]) by {
        assert(ids.to_set().contains(ids[i]));
    }
    assert(ids.to_set().contains(a) && ids.to_set().contains(b));
    let i = choose|i: int| 0 <= i < ids.len() && ids[i] == a;
    let j = choose|j: int| 0 <= j < ids.len() && ids[j] == b;
    assert(i < j);
    let (before, taken) = w.after_locks(cooldown, ids, i);
    lemma_locks_so_far(w, cooldown, ids, i);
    crate::progress::lemma_after_locks(w, cooldown, ids, i);
    law_new_locks(w, cfg);
    crate::laws_board::law_distance(w.unit(a).pos, w.unit(b).pos, w.unit(b).pos);
    crate::laws_units::law_distance_is_the_longer_gap(w.unit(b).pos, w.unit(a).pos, 1);
    if taken.contains(a) || taken.contains(b) {
        let id = if taken.contains(a) {
            a
        } else {
            b
        };
        let o = choose|o: UnitId| #[trigger]
            crate::progress::locked_with(w, before, cooldown, id, o) && taken.contains(o) && (
            exists|m: int|
                0 <= m < i && (#[trigger] ids[m] == id && id < o || ids[m] == o && o < id));
        let m = choose|m: int|
            0 <= m < i && (#[trigger] ids[m] == id && id < o || ids[m] == o && o < id);
        assert(ids[m] < ids[i]);
        lemma_taken_lasts(w, cooldown, ids, i, len, id);
        assert(v.unit(id).melee_target == Some(o));
        assert(w.state.units.dom().contains(id));
        assert(lock_up(w, v, id, o));
    } else {
        assert(before.unit(a) == w.unit(a) && before.unit(b) == w.unit(b));
        assert(before.lockable(taken, ids[i], ids[j]));
        crate::progress::lemma_first_partner(before, taken, ids, i, j);
        let k = choose|k: int| before.is_partner(taken, ids, i, k);
        assert(before.partner(taken, ids, i) == Some(k));
        assert(before.is_partner(taken, ids, i, k));
        assert(k <= j) by {
            if k > j {
                assert(!before.lockable(taken, ids[i], ids[j]));
            }
        }
        lemma_taken_lasts(w, cooldown, ids, i + 1, len, a);
        assert(v.unit(a).melee_target == Some(ids[k]));
        assert(w.state.units.dom().contains(a));
        assert(lock_up(w, v, a, ids[k]));
        assert(k < j ==> ids[k] < ids[j]);
    }
}

/// Every new lock is reported once, with the lower id first, and the reports
/// come by ascending lower id.
pub proof fn law_lock_events(w: World, cfg: SimulationConfig)
    ensures
        ({
            let v = w.locking(cfg);
            &&& w.events.len() <= v.events.len()
            &&& forall|i: int| 0 <= i < w.events.len() ==> #[trigger] v.events[i] == w.events[i]
            &&& forall|i: int|
                w.events.len() <= i < v.events.len() ==> (#[trigger] v.events[i] matches
                    EventView::MeleeLocked { a, b } && a < b && lock_up(w, v, a, b))
            &&& forall|i: int, j: int|
                w.events.len() <= i < j < v.events.len() ==> (#[trigger] v.events[i])->MeleeLocked_a
                    < (#[trigger] v.events[j])->MeleeLocked_a
            &&& forall|a: UnitId, b: UnitId| #[trigger]
                lock_up(w, v, a, b) && a < b ==> exists|i: int|
                    w.events.len() <= i < v.events.len() && #[trigger] v.events[i]
                        == (EventView::MeleeLocked { a, b })
        }),
{
    let v = w.locking(cfg);
    let cooldown = cfg.melee_ticks();
    let ids = w.ids();
    crate::roster::lemma_id_order(w.state.units);
    assert forall|i: int| 0 <= i < ids.len() implies w.has(#[trigger] ids[i]) by {
        assert(ids.to_set().contains(ids[i]));
    }
    lemma_locks_so_far(w, cooldown, ids, ids.len() as int);
    crate::progress::lemma_after_locks(w, cooldown, ids, ids.len() as int);
    law_new_locks(w, cfg);
    let taken = w.after_locks(cooldown, ids, ids.len() as int).1;
    assert forall|i: int| w.events.len() <= i < v.events.len() implies (#[trigger] v.events[i] matches
        EventView::MeleeLocked { a, b } && a < b && lock_up(w, v, a, b)) by {
        let a = v.events[i]->MeleeLocked_a;
        let b = v.events[i]->MeleeLocked_b;
        assert(taken.contains(a));
        let o = choose|o: UnitId| crate::progress::locked_with(w, v, cooldown, a, o);
        assert(w.state.units.dom().contains(a));
        assert(v.state.units[a] != w.state.units[a]);
    }
    assert forall|a: UnitId, b: UnitId| #[trigger] lock_up(w, v, a, b) && a < b implies exists|
        i: int,
    |
        w.events.len() <= i < v.events.len() && #[trigger] v.events[i] == (EventView::MeleeLocked {
            a,
            b,
        }) by {
        if !taken.contains(a) {
            assert(w.state.units.dom().contains(a));
            assert(v.unit(a) == w.unit(a));
        }
    }
}

} // verus!

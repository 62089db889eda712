//! What holds of every tick.

use crate::config::SimulationConfig;
use crate::double::Double;
use crate::events::EventView;
use crate::game_state::{
    EndReason, MatchStatus, Owner, StateView, Unit, UnitId, UnitKind, UnitState,
};
use crate::rules::World;
use vstd::prelude::*;

verus! {

/// A tick that an active match can take: one roll for each moving unit, and no
/// number leaves its range.
pub open spec fn playable(
    s: StateView,
    cfg: SimulationConfig,
    chance: Double,
    rolls: Seq<u64>,
) -> bool {
    &&& s.status == MatchStatus::Active
    &&& s.keyed()
    &&& rolls.len() == World::rolls_needed(s)
    &&& World::tick_fits(s, cfg, chance, rolls)
}

/// The world before the deaths of a tick are counted.
spec fn before_deaths(s: StateView, cfg: SimulationConfig, chance: Double, rolls: Seq<u64>) -> World {
    World::before_melee(s, cfg, chance, rolls).melee(cfg).artillery(cfg)
}

/// How a unit stands between `s` and the deaths of a tick.
spec fn weathered(s: StateView, w: World, range: u8, id: UnitId) -> bool {
    let u = s.units[id];
    let v = w.unit(id);
    &&& v.id == u.id
    &&& v.owner == u.owner
    &&& v.kind == u.kind
    &&& v.max_hp == u.max_hp
    &&& v.hp == u.hp - crate::progress::damage_to(w.events, id)
    &&& v.pos == u.pos || World::rolls_to_move()(u) && v.pos == u.pending_move->0
        && v.pos.distance(u.pos) <= range && s.passable(v.pos)
}

/// What the fields of a unit say of each other: a queued target is present
/// exactly while the unit is moving, an opponent exactly while it is locked, and
/// artillery is never moving.
pub open spec fn sound(u: Unit) -> bool {
    &&& u.pending_move is Some <==> u.state == UnitState::Moving
    &&& u.melee_target is Some <==> u.state == UnitState::Locked
    &&& u.kind == UnitKind::Artillery ==> u.state != UnitState::Moving
}

/// `id` and `other` fight each other: adjacent enemies, each the other's
/// opponent.
pub open spec fn opponents(units: Map<UnitId, Unit>, id: UnitId, other: UnitId) -> bool {
    &&& units.dom().contains(other)
    &&& other != id
    &&& units[id].melee_target == Some(other)
    &&& units[other].melee_target == Some(id)
    &&& units[id].state == UnitState::Locked
    &&& units[other].state == UnitState::Locked
    &&& units[id].owner != units[other].owner
    &&& units[id].pos.distance(units[other].pos) == 1
}

/// Locked units fight in pairs.
pub open spec fn paired(units: Map<UnitId, Unit>) -> bool {
    forall|id: UnitId| #[trigger]
        units.dom().contains(id) && units[id].state == UnitState::Locked ==> units[id].melee_target
            is Some && opponents(units, id, units[id].melee_target->0)
}

/// Opponents look back: whoever a unit is locked on is locked on it.
pub open spec fn mutual(units: Map<UnitId, Unit>) -> bool {
    forall|id: UnitId| #[trigger]
        units.dom().contains(id) && units[id].melee_target is Some ==> units.dom().contains(
            units[id].melee_target->0,
        ) && units[units[id].melee_target->0].melee_target == Some(id)
}

proof fn lemma_before_deaths(
    s: StateView,
    cfg: SimulationConfig,
    chance: Double,
    rolls: Seq<u64>,
)
    requires
        playable(s, cfg, chance, rolls),
    ensures
        ({
            let w = before_deaths(s, cfg, chance, rolls);
            &&& w.state == (StateView {
                tick: (s.tick + 1) as u64,
                units: w.state.units,
                ..s
            })
            &&& w.state.units.dom() == s.units.dom()
            &&& forall|id: UnitId| #[trigger]
                s.units.dom().contains(id) ==> weathered(s, w, cfg.pawn_move_range, id)
            &&& crate::events::deaths(w.events) == Seq::<UnitId>::empty()
            &&& cfg.melee_damage >= 0 && cfg.artillery_damage >= 0 ==> forall|id: UnitId| #[trigger]
                crate::progress::damage_to(w.events, id) >= 0
            &&& crate::progress::one_per_tile(s.units) ==> crate::progress::one_per_tile(
                w.state.units,
            )
        }),
{
    let w0 = World::dawn(s);
    let w1 = w0.movement(cfg, chance, rolls);
    let w2 = w1.locking(cfg);
    let w3 = w2.melee(cfg);
    let w4 = w3.artillery(cfg);
    lemma_phases(s, cfg, chance, rolls);
    assert forall|id: UnitId| #[trigger] s.units.dom().contains(id) implies weathered(
        s,
        w4,
        cfg.pawn_move_range,
        id,
    ) by {
        assert(w0.state.units.dom().contains(id));
        assert(w1.state.units.dom().contains(id));
        assert(w2.state.units.dom().contains(id));
        assert(w3.state.units.dom().contains(id));
        assert(crate::progress::may_move(
            w0.state,
            cfg.pawn_move_range,
            w0.unit(id),
            w1.unit(id),
        ));
        assert(crate::progress::may_lock(w1, w2, cfg.melee_ticks(), id));
        assert(crate::progress::damage_to(w0.events, id) == 0);
        assert(crate::progress::damage_to(w1.events, id) == crate::progress::damage_to(
            w0.events,
            id,
        ));
        assert(crate::progress::damage_to(w2.events, id) == crate::progress::damage_to(
            w1.events,
            id,
        ));
    }
    if cfg.melee_damage >= 0 && cfg.artillery_damage >= 0 {
        assert forall|id: UnitId| #[trigger] crate::progress::damage_to(w4.events, id) >= 0 by {
            assert(crate::progress::damage_to(w0.events, id) == 0);
            assert(crate::progress::damage_to(w1.events, id) == 0);
            assert(crate::progress::damage_to(w2.events, id) == 0);
            assert(crate::progress::damage_to(w3.events, id) >= 0);
        }
    }
    if crate::progress::one_per_tile(s.units) {
        assert(crate::progress::one_per_tile(w1.state.units));
        assert forall|a: UnitId, b: UnitId|
            #![trigger w4.state.units.dom().contains(a), w4.state.units.dom().contains(b)]
            w4.state.units.dom().contains(a) && w4.state.units.dom().contains(b) && a
                != b implies w4.state.units[a].pos != w4.state.units[b].pos by {
            assert(w1.state.units.dom().contains(a) && w1.state.units.dom().contains(b));
            assert(w2.state.units.dom().contains(a) && w2.state.units.dom().contains(b));
            assert(w3.state.units.dom().contains(a) && w3.state.units.dom().contains(b));
            assert(w4.unit(a).pos == w3.unit(a).pos && w4.unit(b).pos == w3.unit(b).pos);
            assert(w3.unit(a).pos == w2.unit(a).pos && w3.unit(b).pos == w2.unit(b).pos);
            assert(w2.unit(a).pos == w1.unit(a).pos && w2.unit(b).pos == w1.unit(b).pos);
        }
    }
}

/// Movement and locks keep fights mutual.
proof fn lemma_paired_after_locks(w0: World, w1: World, w2: World, cfg: SimulationConfig)
    requires
        paired(w0.state.units),
        crate::progress::moved(w0, w1, cfg.pawn_move_range),
        crate::progress::locked(w1, w2, cfg.melee_ticks()),
    ensures
        paired(w2.state.units),
        forall|id: UnitId| #[trigger]
            w0.state.units.dom().contains(id) && w0.unit(id).state == UnitState::Locked
                ==> w2.unit(id) == w0.unit(id),
{
    assert forall|id: UnitId| #[trigger]
        w0.state.units.dom().contains(id) && w0.unit(id).state == UnitState::Locked implies w2.unit(
        id,
    ) == w0.unit(id) by {
        assert(crate::progress::may_move(
            w0.state,
            cfg.pawn_move_range,
            w0.unit(id),
            w1.unit(id),
        ));
        assert(w1.state.units.dom().contains(id));
        assert(crate::progress::may_lock(w1, w2, cfg.melee_ticks(), id));
    }
    let units = w2.state.units;
    assert forall|id: UnitId| #[trigger]
        units.dom().contains(id) && units[id].state == UnitState::Locked implies units[id].melee_target
        is Some && opponents(units, id, units[id].melee_target->0) by {
        assert(w1.state.units.dom().contains(id));
        assert(w0.state.units.dom().contains(id));
        assert(crate::progress::may_move(
            w0.state,
            cfg.pawn_move_range,
            w0.unit(id),
            w1.unit(id),
        ));
        assert(crate::progress::may_lock(w1, w2, cfg.melee_ticks(), id));
        if w2.unit(id) == w1.unit(id) {
            assert(w0.unit(id).state == UnitState::Locked);
            assert(w0.state.units[id].state == UnitState::Locked);
            let other = w0.unit(id).melee_target->0;
            assert(opponents(w0.state.units, id, other));
            assert(w0.state.units.dom().contains(other));
            assert(w0.unit(other).state == UnitState::Locked);
            assert(w2.unit(other) == w0.unit(other));
            assert(units.dom().contains(other));
        } else {
            let other = choose|other: UnitId|
                crate::progress::locked_with(w1, w2, cfg.melee_ticks(), id, other);
            crate::laws_board::law_distance(w1.unit(id).pos, w1.unit(other).pos, w1.unit(id).pos);
            assert(units.dom().contains(other));
        }
    }
}

proof fn lemma_paired_after_fighting(w: World, v: World, cfg: SimulationConfig, phase: int)
    requires
        paired(w.state.units),
        crate::progress::fought(w, v, cfg, phase),
    ensures
        paired(v.state.units),
{
    let units = v.state.units;
    assert forall|id: UnitId| #[trigger]
        units.dom().contains(id) && units[id].state == UnitState::Locked implies units[id].melee_target
        is Some && opponents(units, id, units[id].melee_target->0) by {
        assert(w.state.units.dom().contains(id));
        assert(v.unit(id).state == w.unit(id).state && v.unit(id).melee_target == w.unit(
            id,
        ).melee_target);
        assert(w.state.units[id].state == UnitState::Locked);
        let other = w.unit(id).melee_target->0;
        assert(opponents(w.state.units, id, other));
        assert(w.state.units.dom().contains(other));
        assert(v.unit(other).state == w.unit(other).state);
        assert(units.dom().contains(other));
    }
}

/// Where opponents look back, exactly the survivors whose opponent fell are
/// released.
proof fn lemma_bereft(w: World, id: UnitId)
    requires
        mutual(w.state.units),
        w.cleanup().has(id),
    ensures
        w.cleanup().unit(id) == (if crate::progress::bereft(w, id) {
            World::released(w.unit(id))
        } else {
            w.unit(id)
        }),
        crate::progress::bereft(w, id) <==> w.unit(id).melee_target is Some && w.unit(
            w.unit(id).melee_target->0,
        ).hp <= 0,
{
    let units = w.state.units;
    crate::progress::lemma_cleanup(w);
    assert(w.cleanup().state.units.dom().contains(id));
    assert(units.dom().contains(id));
    if crate::progress::bereft(w, id) {
        let dead = choose|dead: UnitId| #[trigger]
            w.has(dead) && w.unit(dead).hp <= 0 && w.unit(dead).melee_target == Some(id);
        assert(units.dom().contains(dead));
        assert forall|o: UnitId| #[trigger]
            w.has(o) && w.unit(o).hp <= 0 && o < dead implies w.unit(o).melee_target != Some(
            dead,
        ) by {
            assert(units.dom().contains(o));
        }
        crate::progress::lemma_opponent_released(w, dead, id);
    } else if w.unit(id).melee_target is Some {
        assert(w.has(w.unit(id).melee_target->0));
    }
}

/// The cleanup keeps fights mutual and records consistent.
proof fn lemma_cleanup_of_pairs(w: World)
    requires
        all_sound(w.state.units),
        paired(w.state.units),
    ensures
        all_sound(w.cleanup().state.units),
        paired(w.cleanup().state.units),
{
    let v = w.cleanup();
    let units = v.state.units;
    crate::progress::lemma_cleanup(w);
    assert forall|id: UnitId| #[trigger]
        w.state.units.dom().contains(id) && w.state.units[id].melee_target is Some implies
        w.state.units.dom().contains(w.state.units[id].melee_target->0)
        && w.state.units[w.state.units[id].melee_target->0].melee_target == Some(id) by {
        lemma_only_opponent(w.state.units, id, w.state.units[id].melee_target->0);
    }
    assert forall|id: UnitId| #[trigger] v.state.units.dom().contains(id) implies v.unit(id) == (
    if crate::progress::bereft(w, id) {
        World::released(w.unit(id))
    } else {
        w.unit(id)
    }) && (crate::progress::bereft(w, id) <==> w.unit(id).state == UnitState::Locked && w.unit(
        w.unit(id).melee_target->0,
    ).hp <= 0) && sound(v.unit(id)) by {
        assert(w.state.units.dom().contains(id));
        assert(sound(w.state.units[id]));
        lemma_bereft(w, id);
    }
    assert forall|id: UnitId| #[trigger]
        units.dom().contains(id) && units[id].state == UnitState::Locked implies units[id].melee_target
        is Some && opponents(units, id, units[id].melee_target->0) by {
        assert(v.unit(id) == w.unit(id));
        assert(w.state.units.dom().contains(id));
        assert(w.state.units[id].state == UnitState::Locked);
        let other = w.unit(id).melee_target->0;
        assert(opponents(w.state.units, id, other));
        assert(w.state.units.dom().contains(other));
        assert(units.dom().contains(other));
        assert(w.unit(other).melee_target->0 == id);
        assert(v.unit(other) == w.unit(other));
    }
}

/// Whoever has `id` for an opponent fights it.
pub proof fn lemma_only_opponent(units: Map<UnitId, Unit>, id: UnitId, other: UnitId)
    requires
        all_sound(units),
        paired(units),
        units.dom().contains(id),
        units[id].melee_target == Some(other),
    ensures
        opponents(units, id, other),
{
    assert(sound(units[id]));
    assert(units[id].state == UnitState::Locked);
}

/// The end of a tick: the fallen leave, then the outcome is decided.
proof fn lemma_tick_end(s: StateView, cfg: SimulationConfig, chance: Double, rolls: Seq<u64>)
    requires
        playable(s, cfg, chance, rolls),
    ensures
        ({
            let w = before_deaths(s, cfg, chance, rolls);
            let t = World::tick(s, cfg, chance, rolls);
            &&& crate::progress::cleaned(w, w.cleanup())
            &&& t.state.units == w.cleanup().state.units
            &&& forall|id: UnitId| #[trigger]
                crate::progress::damage_to(t.events, id) == crate::progress::damage_to(w.events, id)
            &&& crate::events::deaths(t.events) == w.fallen()
            &&& t.state == (StateView {
                units: t.state.units,
                status: t.state.status,
                winner: t.state.winner,
                end_reason: t.state.end_reason,
                ..w.state
            })
        }),
{
    lemma_before_deaths(s, cfg, chance, rolls);
    let w = before_deaths(s, cfg, chance, rolls);
    let c = w.cleanup();
    let t = World::tick(s, cfg, chance, rolls);
    crate::progress::lemma_cleanup(w);
    assert(Seq::<UnitId>::empty() + w.fallen() =~= w.fallen());
    if let Some((winner, reason)) = c.outcome(cfg) {
        crate::progress::lemma_event_pushed(
            c.events,
            EventView::MatchOver { winner, reason },
        );
    }
}

// ---------------------------------------------------------------------------
// The setting
// ---------------------------------------------------------------------------

/// Only an active match moves: a tick of a lobby or of a finished match changes
/// nothing and reports nothing.
pub proof fn law_only_active_matches_move(
    s: StateView,
    cfg: SimulationConfig,
    chance: Double,
    rolls: Seq<u64>,
)
    requires
        s.status != MatchStatus::Active,
    ensures
        World::tick(s, cfg, chance, rolls).state == s,
        World::tick(s, cfg, chance, rolls).events.len() == 0,
{
}

/// A tick advances the clock by one and leaves the board as it is.
pub proof fn law_clock_and_board(
    s: StateView,
    cfg: SimulationConfig,
    chance: Double,
    rolls: Seq<u64>,
)
    requires
        playable(s, cfg, chance, rolls),
    ensures
        ({
            let t = World::tick(s, cfg, chance, rolls).state;
            &&& t.tick == s.tick + 1
            &&& t.board_size == s.board_size
            &&& t.walls == s.walls
            &&& t.next_unit_id == s.next_unit_id
        }),
{
    lemma_before_deaths(s, cfg, chance, rolls);
    lemma_tick_end(s, cfg, chance, rolls);
}

/// No unit appears in a tick, and who stays keeps its id, side, kind and
/// maximal health. Units stay keyed by their ids.
pub proof fn law_identity(
    s: StateView,
    cfg: SimulationConfig,
    chance: Double,
    rolls: Seq<u64>,
)
    requires
        playable(s, cfg, chance, rolls),
    ensures
        ({
            let t = World::tick(s, cfg, chance, rolls).state;
            &&& t.keyed()
            &&& forall|id: UnitId| #[trigger]
                t.units.dom().contains(id) ==> {
                    &&& s.units.dom().contains(id)
                    &&& t.units[id].id == s.units[id].id
                    &&& t.units[id].owner == s.units[id].owner
                    &&& t.units[id].kind == s.units[id].kind
                    &&& t.units[id].max_hp == s.units[id].max_hp
                }
        }),
{
    lemma_before_deaths(s, cfg, chance, rolls);
    lemma_tick_end(s, cfg, chance, rolls);
    let w = before_deaths(s, cfg, chance, rolls);
    let t = World::tick(s, cfg, chance, rolls);
    assert forall|id: UnitId| #[trigger] t.state.units.dom().contains(id) implies {
        &&& s.units.dom().contains(id)
        &&& t.state.units[id].id == s.units[id].id
        &&& t.state.units[id].owner == s.units[id].owner
        &&& t.state.units[id].kind == s.units[id].kind
        &&& t.state.units[id].max_hp == s.units[id].max_hp
    } by {
        assert(w.cleanup().state.units.dom().contains(id));
        assert(weathered(s, w, cfg.pawn_move_range, id));
        assert(t.unit(id) == w.unit(id) || t.unit(id) == World::released(w.unit(id)));
    }
}

// ---------------------------------------------------------------------------
// Health and death
// ---------------------------------------------------------------------------

/// The events of a tick account for all health: a unit survives if and only if
/// its health exceeds the damage that the hits and shots on it add up to, and
/// what remains is the difference.
pub proof fn law_damage_is_accounted_for(
    s: StateView,
    cfg: SimulationConfig,
    chance: Double,
    rolls: Seq<u64>,
    id: UnitId,
)
    requires
        playable(s, cfg, chance, rolls),
        s.units.dom().contains(id),
    ensures
        ({
            let t = World::tick(s, cfg, chance, rolls);
            let left = s.units[id].hp - crate::progress::damage_to(t.events, id);
            &&& t.has(id) <==> left > 0
            &&& t.has(id) ==> t.unit(id).hp == left
        }),
{
    lemma_before_deaths(s, cfg, chance, rolls);
    lemma_tick_end(s, cfg, chance, rolls);
    let w = before_deaths(s, cfg, chance, rolls);
    let t = World::tick(s, cfg, chance, rolls);
    assert(weathered(s, w, cfg.pawn_move_range, id));
    assert(w.cleanup().state.units.dom().contains(id) <==> w.unit(id).hp > 0);
    assert(crate::progress::damage_to(t.events, id) == crate::progress::damage_to(w.events, id));
    if t.has(id) {
        assert(t.unit(id) == w.unit(id) || t.unit(id) == World::released(w.unit(id)));
    }
}

/// After a tick every unit on the board is alive.
pub proof fn law_survivors_are_alive(
    s: StateView,
    cfg: SimulationConfig,
    chance: Double,
    rolls: Seq<u64>,
    id: UnitId,
)
    requires
        playable(s, cfg, chance, rolls),
        World::tick(s, cfg, chance, rolls).has(id),
    ensures
        World::tick(s, cfg, chance, rolls).unit(id).hp > 0,
{
    law_identity(s, cfg, chance, rolls);
    law_damage_is_accounted_for(s, cfg, chance, rolls, id);
}

/// Where hits and shots do no healing, no unit gains health.
pub proof fn law_health_never_rises(
    s: StateView,
    cfg: SimulationConfig,
    chance: Double,
    rolls: Seq<u64>,
    id: UnitId,
)
    requires
        playable(s, cfg, chance, rolls),
        cfg.melee_damage >= 0,
        cfg.artillery_damage >= 0,
        World::tick(s, cfg, chance, rolls).has(id),
    ensures
        World::tick(s, cfg, chance, rolls).unit(id).hp <= s.units[id].hp,
{
    law_identity(s, cfg, chance, rolls);
    law_damage_is_accounted_for(s, cfg, chance, rolls, id);
    lemma_before_deaths(s, cfg, chance, rolls);
    lemma_tick_end(s, cfg, chance, rolls);
    let w = before_deaths(s, cfg, chance, rolls);
    assert(crate::progress::damage_to(w.events, id) >= 0);
}

/// Every death is reported, once, in id order, and nothing else is: the units
/// after a tick are those before it without the reported ones.
pub proof fn law_deaths_are_reported(
    s: StateView,
    cfg: SimulationConfig,
    chance: Double,
    rolls: Seq<u64>,
)
    requires
        playable(s, cfg, chance, rolls),
    ensures
        ({
            let t = World::tick(s, cfg, chance, rolls);
            let dead = crate::events::deaths(t.events);
            &&& forall|i: int, j: int| 0 <= i < j < dead.len() ==> dead[i] < dead[j]
            &&& forall|i: int| 0 <= i < dead.len() ==> s.units.dom().contains(#[trigger] dead[i])
            &&& t.state.units.dom() == s.units.dom().difference(dead.to_set())
        }),
{
    lemma_before_deaths(s, cfg, chance, rolls);
    lemma_tick_end(s, cfg, chance, rolls);
    let w = before_deaths(s, cfg, chance, rolls);
    let t = World::tick(s, cfg, chance, rolls);
    let dead = w.fallen();
    crate::roster::lemma_id_order(w.state.units);
    crate::rules::lemma_select(
        w.state.units,
        World::is_dead(),
        crate::roster::id_order(w.state.units),
    );
    assert forall|id: UnitId| #[trigger] t.state.units.dom().contains(id) <==> (
    s.units.dom().contains(id) && !dead.to_set().contains(id)) by {
        assert(w.cleanup().state.units.dom().contains(id) <==> w.state.units.dom().contains(id)
            && w.unit(id).hp > 0);
        if w.has(id) && w.unit(id).hp <= 0 {
            assert(World::is_dead()(w.state.units[id]));
            assert(dead.contains(id));
        }
        if dead.contains(id) {
            let k = choose|k: int| 0 <= k < dead.len() && dead[k] == id;
            assert(World::is_dead()(w.state.units[dead[k]]));
        }
    }
    assert(t.state.units.dom() =~= s.units.dom().difference(dead.to_set()));
}

// ---------------------------------------------------------------------------
// Positions
// ---------------------------------------------------------------------------

/// A unit leaves its tile only for the target of its queued move, only as a
/// pawn that is not locked, within range, and never for a wall or a tile
/// outside the board.
pub proof fn law_moves_are_queued_moves(
    s: StateView,
    cfg: SimulationConfig,
    chance: Double,
    rolls: Seq<u64>,
    id: UnitId,
)
    requires
        playable(s, cfg, chance, rolls),
        World::tick(s, cfg, chance, rolls).has(id),
        World::tick(s, cfg, chance, rolls).unit(id).pos != s.units[id].pos,
    ensures
        ({
            let u = s.units[id];
            let to = World::tick(s, cfg, chance, rolls).unit(id).pos;
            &&& u.kind == UnitKind::Pawn
            &&& u.state != UnitState::Locked
            &&& u.pending_move == Some(to)
            &&& to.distance(u.pos) <= cfg.pawn_move_range
            &&& s.passable(to)
        }),
{
    lemma_before_deaths(s, cfg, chance, rolls);
    lemma_tick_end(s, cfg, chance, rolls);
    let w = before_deaths(s, cfg, chance, rolls);
    let t = World::tick(s, cfg, chance, rolls);
    assert(w.cleanup().state.units.dom().contains(id));
    assert(s.units.dom().contains(id));
    assert(weathered(s, w, cfg.pawn_move_range, id));
    assert(t.unit(id) == w.unit(id) || t.unit(id) == World::released(w.unit(id)));
}

/// A unit that is locked at the start of a tick does not move in it.
pub proof fn law_locked_units_never_move(
    s: StateView,
    cfg: SimulationConfig,
    chance: Double,
    rolls: Seq<u64>,
    id: UnitId,
)
    requires
        playable(s, cfg, chance, rolls),
        World::tick(s, cfg, chance, rolls).has(id),
        s.units[id].state == UnitState::Locked,
    ensures
        World::tick(s, cfg, chance, rolls).unit(id).pos == s.units[id].pos,
{
    if World::tick(s, cfg, chance, rolls).unit(id).pos != s.units[id].pos {
        law_moves_are_queued_moves(s, cfg, chance, rolls, id);
    }
}

/// Artillery does not move.
pub proof fn law_artillery_never_moves(
    s: StateView,
    cfg: SimulationConfig,
    chance: Double,
    rolls: Seq<u64>,
    id: UnitId,
)
    requires
        playable(s, cfg, chance, rolls),
        World::tick(s, cfg, chance, rolls).has(id),
        s.units[id].kind == UnitKind::Artillery,
    ensures
        World::tick(s, cfg, chance, rolls).unit(id).pos == s.units[id].pos,
{
    if World::tick(s, cfg, chance, rolls).unit(id).pos != s.units[id].pos {
        law_moves_are_queued_moves(s, cfg, chance, rolls, id);
    }
}

/// Where no two units share a tile, none do after a tick.
pub proof fn law_one_unit_per_tile(
    s: StateView,
    cfg: SimulationConfig,
    chance: Double,
    rolls: Seq<u64>,
)
    requires
        playable(s, cfg, chance, rolls),
        crate::progress::one_per_tile(s.units),
    ensures
        crate::progress::one_per_tile(World::tick(s, cfg, chance, rolls).state.units),
{
    lemma_before_deaths(s, cfg, chance, rolls);
    lemma_tick_end(s, cfg, chance, rolls);
    let w = before_deaths(s, cfg, chance, rolls);
    let t = World::tick(s, cfg, chance, rolls);
    assert forall|a: UnitId, b: UnitId|
        #![trigger t.state.units.dom().contains(a), t.state.units.dom().contains(b)]
        t.state.units.dom().contains(a) && t.state.units.dom().contains(b) && a
            != b implies t.state.units[a].pos != t.state.units[b].pos by {
        assert(w.cleanup().state.units.dom().contains(a));
        assert(w.cleanup().state.units.dom().contains(b));
        assert(w.state.units.dom().contains(a) && w.state.units.dom().contains(b));
        assert(t.unit(a).pos == w.unit(a).pos && t.unit(b).pos == w.unit(b).pos);
    }
}

/// Every unit stands on a tile of the board without a wall.
pub open spec fn on_the_board(s: StateView) -> bool {
    forall|id: UnitId| #[trigger] s.units.dom().contains(id) ==> s.passable(s.units[id].pos)
}

/// Units stay on the board and off the walls.
pub proof fn law_units_stay_on_the_board(
    s: StateView,
    cfg: SimulationConfig,
    chance: Double,
    rolls: Seq<u64>,
)
    requires
        playable(s, cfg, chance, rolls),
        on_the_board(s),
    ensures
        on_the_board(World::tick(s, cfg, chance, rolls).state),
{
    let t = World::tick(s, cfg, chance, rolls);
    law_identity(s, cfg, chance, rolls);
    law_clock_and_board(s, cfg, chance, rolls);
    assert forall|id: UnitId| #[trigger] t.state.units.dom().contains(id) implies t.state.passable(
        t.state.units[id].pos,
    ) by {
        assert(s.units.dom().contains(id));
        if t.unit(id).pos != s.units[id].pos {
            law_moves_are_queued_moves(s, cfg, chance, rolls, id);
        }
    }
}

// ---------------------------------------------------------------------------
// Unit records
// ---------------------------------------------------------------------------

/// Every unit's record is consistent in itself.
pub open spec fn all_sound(units: Map<UnitId, Unit>) -> bool {
    forall|id: UnitId| #[trigger] units.dom().contains(id) ==> sound(units[id])
}

/// Records and fights are consistent in every phase before the deaths.
pub proof fn lemma_sound_before_deaths(
    s: StateView,
    cfg: SimulationConfig,
    chance: Double,
    rolls: Seq<u64>,
)
    requires
        playable(s, cfg, chance, rolls),
        all_sound(s.units),
        paired(s.units),
    ensures
        ({
            let w2 = World::before_melee(s, cfg, chance, rolls);
            let w4 = w2.melee(cfg).artillery(cfg);
            &&& all_sound(w2.state.units) && paired(w2.state.units)
            &&& all_sound(w4.state.units) && paired(w4.state.units)
        }),
{
    let w0 = World::dawn(s);
    let w1 = w0.movement(cfg, chance, rolls);
    let w2 = w1.locking(cfg);
    let w3 = w2.melee(cfg);
    let w4 = w3.artillery(cfg);
    lemma_phases(s, cfg, chance, rolls);
    lemma_paired_after_locks(w0, w1, w2, cfg);
    lemma_paired_after_fighting(w2, w3, cfg, 4);
    lemma_paired_after_fighting(w3, w4, cfg, 5);
    assert forall|id: UnitId| #[trigger] s.units.dom().contains(id) implies sound(w2.unit(id))
        && sound(w4.unit(id)) by {
        assert(w0.state.units.dom().contains(id));
        assert(w1.state.units.dom().contains(id));
        assert(w2.state.units.dom().contains(id));
        assert(w3.state.units.dom().contains(id));
        assert(sound(s.units[id]));
        assert(crate::progress::may_move(
            w0.state,
            cfg.pawn_move_range,
            w0.unit(id),
            w1.unit(id),
        ));
        assert(crate::progress::may_lock(w1, w2, cfg.melee_ticks(), id));
    }
    assert forall|id: UnitId| #[trigger] w2.state.units.dom().contains(id) implies sound(
        w2.state.units[id],
    ) by {
        assert(s.units.dom().contains(id));
        assert(sound(w2.unit(id)));
    }
    assert forall|id: UnitId| #[trigger] w4.state.units.dom().contains(id) implies sound(
        w4.state.units[id],
    ) by {
        assert(s.units.dom().contains(id));
        assert(sound(w4.unit(id)));
    }
}

/// A tick keeps every record consistent and every fight mutual: locked units are
/// adjacent enemies, each the other's opponent.
pub proof fn law_fights_stay_mutual(
    s: StateView,
    cfg: SimulationConfig,
    chance: Double,
    rolls: Seq<u64>,
)
    requires
        playable(s, cfg, chance, rolls),
        all_sound(s.units),
        paired(s.units),
    ensures
        all_sound(World::tick(s, cfg, chance, rolls).state.units),
        paired(World::tick(s, cfg, chance, rolls).state.units),
{
    lemma_before_deaths(s, cfg, chance, rolls);
    lemma_tick_end(s, cfg, chance, rolls);
    lemma_sound_before_deaths(s, cfg, chance, rolls);
    let w = before_deaths(s, cfg, chance, rolls);
    lemma_cleanup_of_pairs(w);
}

// ---------------------------------------------------------------------------
// Dice
// ---------------------------------------------------------------------------

/// A chance of one or more succeeds on every roll.
pub proof fn law_certain_moves(chance: Double, roll: u64)
    requires
        !chance.is_nan(),
        chance.scaled() >= crate::double::pow2(1074),
    ensures
        World::roll_succeeds(chance, roll),
{
    let k = (roll / 2048) as int;
    vstd::arithmetic::power2::lemma_pow2_adds(53, 1021);
    vstd::arithmetic::power2::lemma_pow2_pos(1021);
    vstd::arithmetic::power2::lemma2_to64_rest();
    let unit = crate::double::pow2(1021);
    assert(k * unit < 0x20_0000_0000_0000 * unit) by (nonlinear_arith)
        requires
            k < 0x20_0000_0000_0000,
            unit > 0,
    ;
}

/// A chance of zero or less succeeds on no roll.
pub proof fn law_impossible_moves(chance: Double, roll: u64)
    requires
        chance.not_positive(),
    ensures
        !World::roll_succeeds(chance, roll),
{
    let k = (roll / 2048) as int;
    vstd::arithmetic::power2::lemma_pow2_pos(1021);
    let unit = crate::double::pow2(1021);
    assert(k * unit >= 0) by (nonlinear_arith)
        requires
            k >= 0,
            unit > 0,
    ;
}

/// A lower roll is never worse.
pub proof fn law_lower_rolls_are_better(chance: Double, roll: u64, lower: u64)
    requires
        lower <= roll,
        World::roll_succeeds(chance, roll),
    ensures
        World::roll_succeeds(chance, lower),
{
    let k = (roll / 2048) as int;
    let j = (lower / 2048) as int;
    vstd::arithmetic::power2::lemma_pow2_pos(1021);
    let unit = crate::double::pow2(1021);
    assert(j * unit <= k * unit) by (nonlinear_arith)
        requires
            j <= k,
            unit > 0,
    ;
}

// ---------------------------------------------------------------------------
// Movement and locks
// ---------------------------------------------------------------------------

/// The dice decide: where a unit's roll fails, movement leaves the unit and its
/// queued move as they are; where it succeeds, the move is no longer queued.
pub proof fn law_dice_decide(
    w: World,
    cfg: SimulationConfig,
    chance: Double,
    rolls: Seq<u64>,
    i: int,
)
    requires
        rolls.len() == w.movers().len(),
        0 <= i < rolls.len(),
    ensures
        ({
            let id = w.movers()[i];
            let v = w.movement(cfg, chance, rolls);
            if World::roll_succeeds(chance, rolls[i]) {
                v.unit(id).pending_move is None && v.unit(id).state == UnitState::Idle
            } else {
                v.unit(id) == w.unit(id)
            }
        }),
{
    crate::progress::lemma_turns(w, cfg, chance, rolls, i);
}

/// Locks are fair: a unit that the lock phase changes is grappled with an
/// adjacent enemy, which is grappled with it; both lose their queued moves and
/// start with the same cooldown.
pub proof fn law_locks_are_mutual(w: World, cfg: SimulationConfig, id: UnitId)
    requires
        w.has(id),
        w.locking(cfg).unit(id) != w.unit(id),
    ensures
        exists|other: UnitId|
            crate::progress::locked_with(w, w.locking(cfg), cfg.melee_ticks(), id, other),
{
    crate::progress::lemma_locking(w, cfg);
    assert(w.state.units.dom().contains(id));
    assert(crate::progress::may_lock(w, w.locking(cfg), cfg.melee_ticks(), id));
}

/// Adjacent enemies lock: after the lock phase at least one of any two is in a
/// fight.
pub proof fn law_adjacent_enemies_lock(w: World, cfg: SimulationConfig, a: UnitId, b: UnitId)
    requires
        w.has(a),
        w.has(b),
        w.unit(a).owner != w.unit(b).owner,
        w.unit(a).pos.distance(w.unit(b).pos) == 1,
    ensures
        w.locking(cfg).unit(a).state == UnitState::Locked || w.locking(cfg).unit(b).state
            == UnitState::Locked,
{
    crate::laws_board::law_distance(w.unit(a).pos, w.unit(b).pos, w.unit(a).pos);
    if a < b {
        crate::progress::lemma_no_free_neighbours(w, cfg, a, b);
    } else {
        crate::progress::lemma_no_free_neighbours(w, cfg, b, a);
    }
}

/// The cleanup: exactly the units with health left stay; each of the others is
/// reported once, by ascending id. A survivor is unchanged, or was the opponent
/// of a unit that fell and is free again; where opponents look back, exactly the
/// survivors whose opponent fell are free again.
pub proof fn law_cleanup(w: World)
    ensures
        ({
            let v = w.cleanup();
            let dead = w.fallen();
            &&& crate::progress::same_setting(w, v)
            &&& forall|id: UnitId| #[trigger]
                v.state.units.dom().contains(id) <==> w.state.units.dom().contains(id) && w.unit(
                    id,
                ).hp > 0
            &&& forall|id: UnitId| #[trigger]
                v.state.units.dom().contains(id) ==> v.unit(id) == w.unit(id) || v.unit(id)
                    == World::released(w.unit(id)) && crate::progress::bereft(w, id)
            &&& mutual(w.state.units) ==> forall|id: UnitId| #[trigger]
                v.state.units.dom().contains(id) ==> v.unit(id) == (if w.unit(id).melee_target
                    is Some && w.unit(w.unit(id).melee_target->0).hp <= 0 {
                    Unit {
                        state: UnitState::Idle,
                        melee_target: None,
                        attack_cooldown: 0,
                        ..w.unit(id)
                    }
                } else {
                    w.unit(id)
                })
            &&& forall|i: int, j: int| 0 <= i < j < dead.len() ==> dead[i] < dead[j]
            &&& forall|id: UnitId| #[trigger]
                dead.contains(id) <==> w.state.units.dom().contains(id) && w.unit(id).hp <= 0
            &&& v.events == w.events + crate::progress::obituaries(w, dead)
        }),
{
    let v = w.cleanup();
    crate::progress::lemma_cleanup(w);
    if mutual(w.state.units) {
        assert forall|id: UnitId| #[trigger] v.state.units.dom().contains(id) implies v.unit(id)
            == (if crate::progress::bereft(w, id) {
            World::released(w.unit(id))
        } else {
            w.unit(id)
        }) && (crate::progress::bereft(w, id) <==> w.unit(id).melee_target is Some && w.unit(
            w.unit(id).melee_target->0,
        ).hp <= 0) by {
            lemma_bereft(w, id);
        }
    }
    crate::roster::lemma_id_order(w.state.units);
    crate::rules::lemma_select(
        w.state.units,
        World::is_dead(),
        crate::roster::id_order(w.state.units),
    );
    let dead = w.fallen();
    assert forall|id: UnitId| #[trigger] dead.contains(id) <==> w.state.units.dom().contains(id)
        && w.unit(id).hp <= 0 by {
        if dead.contains(id) {
            let k = choose|k: int| 0 <= k < dead.len() && dead[k] == id;
            assert(World::is_dead()(w.state.units[dead[k]]));
        }
        if w.has(id) && w.unit(id).hp <= 0 {
            assert(World::is_dead()(w.state.units[id]));
        }
    }
}

/// One cleanup is enough: a second one changes nothing and reports nothing.
pub proof fn law_cleanup_is_idempotent(w: World)
    ensures
        w.cleanup().cleanup() == w.cleanup(),
{
    let v = w.cleanup();
    crate::progress::lemma_cleanup(w);
    crate::progress::lemma_cleanup(v);
    crate::roster::lemma_id_order(v.state.units);
    crate::rules::lemma_select(
        v.state.units,
        World::is_dead(),
        crate::roster::id_order(v.state.units),
    );
    if v.fallen().len() > 0 {
        let id = v.fallen()[0];
        assert(World::is_dead()(v.state.units[id]));
        assert(v.state.units.dom().contains(id));
        assert(v.unit(id).hp == w.unit(id).hp);
    }
}

// ---------------------------------------------------------------------------
// Blows
// ---------------------------------------------------------------------------

/// Trades are even: two units that are locked with equal cooldowns hit each
/// other in the same bout or not at all, and their cooldowns stay equal.
pub proof fn law_trades_are_even(w: World, cfg: SimulationConfig, a: UnitId, b: UnitId)
    requires
        a != b,
        w.has(a),
        w.has(b),
        w.unit(a).state == UnitState::Locked,
        w.unit(b).state == UnitState::Locked,
        w.unit(a).attack_cooldown == w.unit(b).attack_cooldown,
        w.exchange_fits(cfg, (a, b)),
    ensures
        ({
            let v = w.exchange(cfg, (a, b));
            let blow = if w.unit(a).attack_cooldown <= 1 {
                cfg.melee_damage as int
            } else {
                0
            };
            &&& v.unit(a).hp == w.unit(a).hp - blow
            &&& v.unit(b).hp == w.unit(b).hp - blow
            &&& v.unit(a).attack_cooldown == v.unit(b).attack_cooldown
            &&& v.unit(a).attack_cooldown == (if w.unit(a).attack_cooldown <= 1 {
                cfg.melee_ticks() as int
            } else {
                w.unit(a).attack_cooldown - 1
            })
        }),
{
}

/// A gun fires only when its cooldown runs out, and only at an enemy in its line
/// of sight, who loses the shot's damage; the cooldown then restarts. A gun that
/// still cools down, or sees no enemy, costs nobody any health.
pub proof fn law_shots_need_a_line_of_sight(w: World, cfg: SimulationConfig, id: UnitId)
    requires
        w.state.keyed(),
        w.has(id),
        w.shot_fits(cfg, id),
    ensures
        ({
            let u = w.unit(id);
            let v = w.shoot(cfg, id);
            match w.aim(cfg, id) {
                Some((target, tile)) => {
                    &&& u.fire_cooldown <= 1
                    &&& exists|dir: (int, int), n: int|
                        crate::laws_board::exposed(
                            w.state,
                            u.pos,
                            cfg.artillery_range,
                            u.owner,
                            target,
                            tile,
                            dir,
                            n,
                        )
                    &&& w.unit(target).owner != u.owner
                    &&& w.unit(target).pos == tile
                    &&& v.unit(target).hp == w.unit(target).hp - cfg.artillery_damage
                    &&& v.unit(id).fire_cooldown == cfg.artillery_ticks()
                    &&& forall|o: UnitId| o != target ==> #[trigger] v.unit(o).hp == w.unit(o).hp
                },
                None => {
                    &&& v.events == w.events
                    &&& forall|o: UnitId| #[trigger] v.unit(o).hp == w.unit(o).hp
                },
            }
        }),
{
    let u = w.unit(id);
    crate::laws_board::law_line_of_sight(w.state, u.pos, cfg.artillery_range, u.owner);
    crate::game_state::lemma_scan_hits(w.state, u.pos, cfg.artillery_range, u.owner);
}

// ---------------------------------------------------------------------------
// Events
// ---------------------------------------------------------------------------

/// The events of a tick come in the order of its phases: moves, locks, hits,
/// shots, deaths, outcome. The outcome comes at most once, namely if and only if
/// the match is now finished, and says how it ended.
pub proof fn law_events_come_in_phase_order(
    s: StateView,
    cfg: SimulationConfig,
    chance: Double,
    rolls: Seq<u64>,
)
    requires
        playable(s, cfg, chance, rolls),
    ensures
        ({
            let t = World::tick(s, cfg, chance, rolls);
            &&& forall|i: int|
                0 <= i < t.events.len() ==> 2 <= (#[trigger] t.events[i]).phase() <= 7
            &&& forall|i: int, j: int|
                0 <= i < j < t.events.len() ==> (#[trigger] t.events[i]).phase() <= (
                #[trigger] t.events[j]).phase()
            &&& forall|i: int|
                0 <= i < t.events.len() && (#[trigger] t.events[i]) is MatchOver ==> i
                    == t.events.len() - 1 && t.state.status == MatchStatus::Finished && t.events[i]
                    == (EventView::MatchOver {
                    winner: t.state.winner,
                    reason: t.state.end_reason->0,
                })
            &&& t.state.status == MatchStatus::Finished ==> t.events.len() > 0 && t.events.last()
                is MatchOver && t.state.end_reason is Some
        }),
{
    let w0 = World::dawn(s);
    let w1 = w0.movement(cfg, chance, rolls);
    let w2 = w1.locking(cfg);
    let w3 = w2.melee(cfg);
    let w4 = w3.artillery(cfg);
    let w5 = w4.cleanup();
    let t = World::tick(s, cfg, chance, rolls);
    lemma_phases(s, cfg, chance, rolls);
    lemma_before_deaths(s, cfg, chance, rolls);
    lemma_tick_end(s, cfg, chance, rolls);
    assert forall|i: int| 0 <= i < t.events.len() implies (#[trigger] t.events[i]).phase() == (
    if i < w1.events.len() {
        2int
    } else if i < w2.events.len() {
        3
    } else if i < w3.events.len() {
        4
    } else if i < w4.events.len() {
        5
    } else if i < w5.events.len() {
        6
    } else {
        7
    }) by {
        if i < w5.events.len() {
            assert(t.events[i] == w5.events[i]);
        }
        if i < w4.events.len() {
            assert(w5.events[i] == w4.events[i]);
        }
        if i < w3.events.len() {
            assert(w4.events[i] == w3.events[i]);
        }
        if i < w2.events.len() {
            assert(w3.events[i] == w2.events[i]);
        }
        if i < w1.events.len() {
            assert(w2.events[i] == w1.events[i]);
        }
    }
}

/// What each phase of a tick does, and that it appends events of its own.
pub proof fn lemma_phases(
    s: StateView,
    cfg: SimulationConfig,
    chance: Double,
    rolls: Seq<u64>,
)
    requires
        playable(s, cfg, chance, rolls),
    ensures
        ({
            let w0 = World::dawn(s);
            let w1 = w0.movement(cfg, chance, rolls);
            let w2 = w1.locking(cfg);
            let w3 = w2.melee(cfg);
            let w4 = w3.artillery(cfg);
            let w5 = w4.cleanup();
            let t = World::tick(s, cfg, chance, rolls);
            &&& crate::progress::moved(w0, w1, cfg.pawn_move_range)
            &&& crate::progress::locked(w1, w2, cfg.melee_ticks())
            &&& crate::progress::fought(w2, w3, cfg, 4)
            &&& w3.state.keyed()
            &&& crate::progress::fought(w3, w4, cfg, 5)
            &&& crate::progress::cleaned(w4, w5)
            &&& crate::progress::adds(w4.events, w5.events, 6)
            &&& t.state.units == w5.state.units
            &&& t.events == w5.events || t.events.len() == w5.events.len() + 1
            &&& crate::progress::adds(w5.events, t.events, 7)
        }),
{
    let w0 = World::dawn(s);
    let w1 = w0.movement(cfg, chance, rolls);
    let w2 = w1.locking(cfg);
    let w3 = w2.melee(cfg);
    crate::progress::lemma_movement(w0, cfg, chance, rolls);
    crate::progress::lemma_locking(w1, cfg);
    crate::progress::lemma_melee(w2, cfg);
    assert(w3.state.keyed()) by {
        assert forall|id: UnitId| #[trigger] w3.state.units.dom().contains(id) implies
            w3.state.units[id].id == id && id < w3.state.next_unit_id by {
            assert(w0.state.units.dom().contains(id));
            assert(w1.state.units.dom().contains(id));
            assert(w2.state.units.dom().contains(id));
            assert(w3.unit(id).id == w2.unit(id).id);
            assert(w2.unit(id).id == w1.unit(id).id);
            assert(w1.unit(id).id == w0.unit(id).id);
        }
    }
    crate::progress::lemma_artillery(w3, cfg);
    crate::progress::lemma_cleanup(w3.artillery(cfg));
}

// ---------------------------------------------------------------------------
// Outcome
// ---------------------------------------------------------------------------

/// The end of a match: a tick ends it if and only if a side has no unit left or
/// the time is up; its last event then says how. Until then both sides have
/// units and the outcome stays open.
pub proof fn law_end_of_match(
    s: StateView,
    cfg: SimulationConfig,
    chance: Double,
    rolls: Seq<u64>,
)
    requires
        playable(s, cfg, chance, rolls),
    ensures
        ({
            let t = World::tick(s, cfg, chance, rolls);
            let white = t.strength(Owner::White);
            let black = t.strength(Owner::Black);
            let over = white == 0 || black == 0 || t.state.tick >= cfg.timeout_ticks();
            &&& t.state.status == (if over {
                MatchStatus::Finished
            } else {
                MatchStatus::Active
            })
            &&& over ==> t.events.len() > 0 && t.events.last() == (EventView::MatchOver {
                winner: t.state.winner,
                reason: t.state.end_reason->0,
            }) && t.state.end_reason is Some
            &&& !over ==> t.state.winner == s.winner && t.state.end_reason == s.end_reason
        }),
{
    lemma_before_deaths(s, cfg, chance, rolls);
    lemma_tick_end(s, cfg, chance, rolls);
}

/// Who wins: the last side standing; nobody where both fell at once; on
/// timeout the side with more units, and nobody where they have equally many.
pub proof fn law_winner(s: StateView, cfg: SimulationConfig, chance: Double, rolls: Seq<u64>)
    requires
        playable(s, cfg, chance, rolls),
        World::tick(s, cfg, chance, rolls).state.status == MatchStatus::Finished,
    ensures
        ({
            let t = World::tick(s, cfg, chance, rolls);
            let reason = t.state.end_reason->0;
            match t.state.winner {
                Some(side) => {
                    &&& t.strength(side) > t.strength(side.other())
                    &&& reason == (if t.strength(side.other()) == 0 {
                        EndReason::Annihilation
                    } else {
                        EndReason::Timeout
                    })
                },
                None => {
                    &&& t.strength(Owner::White) == t.strength(Owner::Black)
                    &&& reason == (if t.strength(Owner::White) == 0 {
                        EndReason::MutualAnnihilation
                    } else {
                        EndReason::Draw
                    })
                },
            }
        }),
{
    lemma_before_deaths(s, cfg, chance, rolls);
    lemma_tick_end(s, cfg, chance, rolls);
}

// ---------------------------------------------------------------------------
// Ranges
// ---------------------------------------------------------------------------

/// Every health is at least `floor`.
spec fn healthy(w: World, floor: int) -> bool {
    forall|id: UnitId| #[trigger] w.state.units.dom().contains(id) ==> w.unit(id).hp >= floor
}

proof fn lemma_swing_fits(w: World, cfg: SimulationConfig, a: UnitId, b: UnitId, floor: int)
    requires
        healthy(w, floor),
        0 <= cfg.melee_damage,
        floor - cfg.melee_damage >= i32::MIN,
    ensures
        w.swing_fits(cfg, a, b),
        healthy(w.swing(cfg, a, b), floor - cfg.melee_damage),
{
    let v = w.swing(cfg, a, b);
    assert forall|id: UnitId| #[trigger] v.state.units.dom().contains(id) implies v.unit(id).hp
        >= floor - cfg.melee_damage by {
        assert(w.state.units.dom().contains(id));
        if w.lands(a, b) {
            assert(w.state.units.dom().contains(b));
        }
    }
}

proof fn lemma_bouts_fit(
    w: World,
    cfg: SimulationConfig,
    pairs: Seq<(UnitId, UnitId)>,
    n: int,
)
    requires
        0 <= n <= pairs.len(),
        healthy(w, 0),
        0 <= cfg.melee_damage,
        2 * cfg.melee_damage * pairs.len() <= 0x8000_0000,
    ensures
        healthy(w.after_bouts(cfg, pairs, n), -(2 * cfg.melee_damage * n)),
        forall|k: int|
            0 <= k < n && !World::repeated(pairs, k) ==> #[trigger] w.after_bouts(
                cfg,
                pairs,
                k,
            ).exchange_fits(cfg, pairs[k]),
    decreases n,
{
    let d = cfg.melee_damage as int;
    if n <= 0 {
        assert(2 * d * 0 == 0) by (nonlinear_arith);
    } else {
        lemma_bouts_fit(w, cfg, pairs, n - 1);
        let v = w.after_bouts(cfg, pairs, n - 1);
        let len = pairs.len() as int;
        assert(2 * d * n == 2 * d * (n - 1) + 2 * d) by (nonlinear_arith);
        assert(2 * d * n <= 2 * d * len) by (nonlinear_arith)
            requires
                0 <= d,
                n <= len,
        ;
        let floor = -(2 * d * (n - 1));
        let (a, b) = pairs[n - 1];
        lemma_swing_fits(v, cfg, a, b, floor);
        lemma_swing_fits(v.swing(cfg, a, b), cfg, b, a, floor - d);
        assert forall|k: int| 0 <= k < n && !World::repeated(pairs, k) implies #[trigger] w.after_bouts(
            cfg,
            pairs,
            k,
        ).exchange_fits(cfg, pairs[k]) by {
            if k == n - 1 {
                assert(v.exchange_fits(cfg, pairs[n - 1]));
            }
        }
        assert(healthy(w.after_bouts(cfg, pairs, n), floor - d - d)) by {
            let x = w.after_bouts(cfg, pairs, n);
            assert forall|id: UnitId| #[trigger] x.state.units.dom().contains(id) implies x.unit(
                id,
            ).hp >= floor - d - d by {
                if World::repeated(pairs, n - 1) {
                    assert(v.state.units.dom().contains(id));
                }
            }
        }
    }
}

proof fn lemma_shots_fit(w: World, cfg: SimulationConfig, ids: Seq<UnitId>, n: int, floor: int)
    requires
        0 <= n <= ids.len(),
        w.state.keyed(),
        healthy(w, floor),
        0 <= cfg.artillery_damage,
        floor - cfg.artillery_damage * ids.len() >= i32::MIN,
        forall|i: int| 0 <= i < ids.len() ==> w.has(#[trigger] ids[i]),
    ensures
        healthy(w.after_shots(cfg, ids, n), floor - cfg.artillery_damage * n),
        w.after_shots(cfg, ids, n).state.keyed(),
        w.after_shots(cfg, ids, n).state.units.dom() == w.state.units.dom(),
        forall|k: int| 0 <= k < n ==> #[trigger] w.after_shots(cfg, ids, k).shot_fits(cfg, ids[k]),
    decreases n,
{
    let d = cfg.artillery_damage as int;
    if n <= 0 {
        assert(d * 0 == 0) by (nonlinear_arith);
    } else {
        lemma_shots_fit(w, cfg, ids, n - 1, floor);
        let v = w.after_shots(cfg, ids, n - 1);
        let x = w.after_shots(cfg, ids, n);
        let id = ids[n - 1];
        let u = v.unit(id);
        let len = ids.len() as int;
        assert(d * n == d * (n - 1) + d) by (nonlinear_arith);
        assert(d * n <= d * len) by (nonlinear_arith)
            requires
                0 <= d,
                n <= len,
        ;
        crate::game_state::lemma_scan_hits(v.state, u.pos, cfg.artillery_range, u.owner);
        assert(v.has(id));
        assert(x.state.units.dom() =~= v.state.units.dom());
        assert forall|o: UnitId| #[trigger] x.state.units.dom().contains(o) implies x.unit(o).hp
            >= floor - d * n by {
            assert(v.state.units.dom().contains(o));
        }
        if let Some(aimed) = v.aim(cfg, id) {
            assert(v.state.units.dom().contains(aimed.0));
        }
        assert(v.shot_fits(cfg, id));
    }
}

/// A selection holds no more ids than there are units.
proof fn lemma_select_len(units: Map<UnitId, Unit>, p: spec_fn(Unit) -> bool)
    ensures
        units.dom().finite(),
        World::select(units, p).len() <= units.dom().len(),
        forall|i: int|
            0 <= i < World::select(units, p).len() ==> units.dom().contains(
                #[trigger] World::select(units, p)[i],
            ),
{
    crate::roster::lemma_id_order(units);
    let ids = crate::roster::id_order(units);
    crate::rules::lemma_select(units, p, ids);
    let chosen = World::select(units, p);
    vstd::seq_lib::seq_to_set_is_finite(ids);
    chosen.unique_seq_to_set();
    assert(chosen.to_set().subset_of(units.dom())) by {
        assert forall|id: UnitId| chosen.to_set().contains(id) implies units.dom().contains(id) by {
            let k = choose|k: int| 0 <= k < chosen.len() && chosen[k] == id;
            assert(units.dom().contains(chosen[k]));
        }
    }
    vstd::set_lib::lemma_len_subset(chosen.to_set(), units.dom());
}

/// Moderate damage never leaves the range: where all units are alive and the
/// damage that each can take part in, over all units, stays within the range of
/// health, every roll of the dice gives a tick that fits.
pub proof fn law_moderate_damage_fits(
    s: StateView,
    cfg: SimulationConfig,
    chance: Double,
    rolls: Seq<u64>,
)
    requires
        s.keyed(),
        s.tick < u64::MAX,
        forall|id: UnitId| #[trigger] s.units.dom().contains(id) ==> s.units[id].hp >= 0,
        0 <= cfg.melee_damage,
        0 <= cfg.artillery_damage,
        (2 * cfg.melee_damage + cfg.artillery_damage) * s.units.dom().len() <= 0x8000_0000,
    ensures
        World::tick_fits(s, cfg, chance, rolls),
{
    if s.status == MatchStatus::Active {
        let w0 = World::dawn(s);
        let w1 = w0.movement(cfg, chance, rolls);
        let w2 = w1.locking(cfg);
        let w3 = w2.melee(cfg);
        crate::progress::lemma_movement(w0, cfg, chance, rolls);
        crate::progress::lemma_locking(w1, cfg);
        assert forall|id: UnitId| #[trigger] w2.state.units.dom().contains(id) implies w2.unit(
            id,
        ).hp >= 0 && w2.unit(id).id == id && id < w2.state.next_unit_id by {
            assert(w0.state.units.dom().contains(id));
            assert(w1.state.units.dom().contains(id));
            assert(s.units.dom().contains(id));
            assert(w2.unit(id).hp == w1.unit(id).hp && w2.unit(id).id == w1.unit(id).id);
            assert(w1.unit(id).hp == w0.unit(id).hp && w1.unit(id).id == w0.unit(id).id);
        }
        let n = s.units.dom().len() as int;
        let m = cfg.melee_damage as int;
        let a = cfg.artillery_damage as int;
        let pairs = w2.bouts();
        lemma_select_len(w2.state.units, World::fights());
        let k = pairs.len() as int;
        assert(2 * m * k <= 2 * m * n) by (nonlinear_arith)
            requires
                0 <= m,
                k <= n,
        ;
        assert((2 * m + a) * n == 2 * m * n + a * n) by (nonlinear_arith);
        assert(a * n >= 0) by (nonlinear_arith)
            requires
                a >= 0,
                n >= 0,
        ;
        lemma_bouts_fit(w2, cfg, pairs, k);
        crate::progress::lemma_melee(w2, cfg);
        assert(w3.state.keyed()) by {
            assert forall|id: UnitId| #[trigger] w3.state.units.dom().contains(id) implies
                w3.state.units[id].id == id && id < w3.state.next_unit_id by {
                assert(w2.state.units.dom().contains(id));
            }
        }
        lemma_select_len(w3.state.units, World::mans_gun());
        let ids = w3.gunners();
        let g = ids.len() as int;
        assert(a * g <= a * n) by (nonlinear_arith)
            requires
                0 <= a,
                g <= n,
        ;
        lemma_shots_fit(w3, cfg, ids, g, -(2 * m * k));
    }
}

} // verus!

//! How each phase of a tick changes the units of a world.

use crate::config::SimulationConfig;
use crate::double::Double;
use crate::events::EventView;
use crate::game_state::{StateView, Tile, Unit, UnitId, UnitKind, UnitState};
use crate::rules::World;
use vstd::prelude::*;

verus! {

// ---------------------------------------------------------------------------
// Accounts
// ---------------------------------------------------------------------------

impl EventView {
    /// The health that an event costs a unit.
    pub open spec fn damage_to(self, id: UnitId) -> int {
        match self {
            EventView::MeleeHit { defender, damage, .. } => if defender == id {
                damage as int
            } else {
                0
            },
            EventView::ArtilleryFired { target, damage, .. } => if target == id {
                damage as int
            } else {
                0
            },
            _ => 0,
        }
    }
}

impl EventView {
    /// The phase of a tick that an event belongs to; none for the events that
    /// come from commands and joins.
    pub open spec fn phase(self) -> int {
        match self {
            EventView::MoveResolved { .. } | EventView::MoveBlocked { .. } => 2,
            EventView::MeleeLocked { .. } => 3,
            EventView::MeleeHit { .. } => 4,
            EventView::ArtilleryFired { .. } => 5,
            EventView::UnitDied { .. } => 6,
            EventView::MatchOver { .. } => 7,
            EventView::MatchStarted
            | EventView::MoveQueued { .. }
            | EventView::UnitUpgraded { .. } => 0,
        }
    }
}

/// `after` is `before` and then only events of one phase.
pub open spec fn adds(before: Seq<EventView>, after: Seq<EventView>, phase: int) -> bool {
    &&& before.len() <= after.len()
    &&& forall|i: int| 0 <= i < before.len() ==> #[trigger] after[i] == before[i]
    &&& forall|i: int| before.len() <= i < after.len() ==> (#[trigger] after[i]).phase() == phase
}

/// The health that a list of events costs a unit.
pub open spec fn damage_to(events: Seq<EventView>, id: UnitId) -> int
    decreases events.len(),
{
    if events.len() == 0 {
        0
    } else {
        damage_to(events.drop_last(), id) + events.last().damage_to(id)
    }
}

/// No two units stand on one tile.
pub open spec fn one_per_tile(units: Map<UnitId, Unit>) -> bool {
    forall|a: UnitId, b: UnitId|
        #![trigger units.dom().contains(a), units.dom().contains(b)]
        units.dom().contains(a) && units.dom().contains(b) && a != b ==> units[a].pos
            != units[b].pos
}

/// Only units and events differ.
pub open spec fn same_setting(w: World, v: World) -> bool {
    v.state == (StateView { units: v.state.units, ..w.state })
}

/// One more event adds its damage, and its death.
pub proof fn lemma_event_pushed(events: Seq<EventView>, e: EventView)
    ensures
        forall|id: UnitId| #[trigger]
            damage_to(events.push(e), id) == damage_to(events, id) + e.damage_to(id),
        crate::events::deaths(events.push(e)) == (match e {
            EventView::UnitDied { unit, .. } => crate::events::deaths(events).push(unit),
            _ => crate::events::deaths(events),
        }),
{
    assert(events.push(e).drop_last() =~= events);
}

// ---------------------------------------------------------------------------
// Movement
// ---------------------------------------------------------------------------

/// How movement may change a unit: not at all; or a queued move is dropped; or
/// the unit arrives at its queued target, within range and not on a wall.
pub open spec fn may_move(s: StateView, range: u8, u: Unit, v: Unit) -> bool {
    ||| v == u
    ||| World::rolls_to_move()(u) && v == (Unit {
        pending_move: None,
        state: UnitState::Idle,
        ..u
    })
    ||| World::rolls_to_move()(u) && v == (Unit {
        pos: u.pending_move->0,
        pending_move: None,
        state: UnitState::Idle,
        ..u
    }) && v.pos.distance(u.pos) <= range && s.passable(v.pos)
}

/// What the movement phase does, from `w` to `v`.
pub open spec fn moved(w: World, v: World, range: u8) -> bool {
    &&& same_setting(w, v)
    &&& v.state.units.dom() == w.state.units.dom()
    &&& forall|id: UnitId| #[trigger]
        w.state.units.dom().contains(id) ==> may_move(w.state, range, w.unit(id), v.unit(id))
    &&& forall|id: UnitId| #[trigger] damage_to(v.events, id) == damage_to(w.events, id)
    &&& crate::events::deaths(v.events) == crate::events::deaths(w.events)
    &&& adds(w.events, v.events, 2)
    &&& one_per_tile(w.state.units) ==> one_per_tile(v.state.units)
}

proof fn lemma_resolve_move(v: World, range: u8, id: UnitId)
    requires
        v.has(id),
        World::rolls_to_move()(v.unit(id)),
    ensures
        ({
            let x = v.resolve_move(range, id);
            &&& same_setting(v, x)
            &&& x.state.units.dom() == v.state.units.dom()
            &&& forall|o: UnitId| o != id ==> #[trigger] x.unit(o) == v.unit(o)
            &&& may_move(v.state, range, v.unit(id), x.unit(id))
            &&& forall|o: UnitId| #[trigger] damage_to(x.events, o) == damage_to(v.events, o)
            &&& crate::events::deaths(x.events) == crate::events::deaths(v.events)
            &&& adds(v.events, x.events, 2)
            &&& one_per_tile(v.state.units) ==> one_per_tile(x.state.units)
        }),
{
    let u = v.unit(id);
    let target = u.pending_move->0;
    let x = v.resolve_move(range, id);
    lemma_event_pushed(v.events, x.events.last());
    assert(x.events == v.events.push(x.events.last()));
    assert(x.state.units.dom() =~= v.state.units.dom());
    if one_per_tile(v.state.units) {
        assert forall|a: UnitId, b: UnitId|
            #![trigger x.state.units.dom().contains(a), x.state.units.dom().contains(b)]
            x.state.units.dom().contains(a) && x.state.units.dom().contains(b) && a
                != b implies x.state.units[a].pos != x.state.units[b].pos by {
            assert(v.state.units.dom().contains(a) && v.state.units.dom().contains(b));
            if x.unit(id).pos != u.pos {
                let o = if a == id {
                    b
                } else {
                    a
                };
                if x.state.units[o].pos == target && o != id {
                    assert(crate::game_state::stands_on(v.state.units, o, target));
                }
            }
        }
    }
}

pub proof fn lemma_after_moves(
    w: World,
    range: u8,
    chance: Double,
    ids: Seq<UnitId>,
    rolls: Seq<u64>,
    n: int,
)
    requires
        0 <= n <= ids.len(),
        forall|i: int, j: int| 0 <= i < j < ids.len() ==> ids[i] < ids[j],
        forall|i: int|
            0 <= i < ids.len() ==> w.has(#[trigger] ids[i]) && World::rolls_to_move()(
                w.unit(ids[i]),
            ),
    ensures
        moved(w, w.after_moves(range, chance, ids, rolls, n), range),
        forall|i: int|
            n <= i < ids.len() ==> w.after_moves(range, chance, ids, rolls, n).unit(
                #[trigger] ids[i],
            ) == w.unit(ids[i]),
    decreases n,
{
    if n > 0 {
        lemma_after_moves(w, range, chance, ids, rolls, n - 1);
        let v = w.after_moves(range, chance, ids, rolls, n - 1);
        if World::roll_succeeds(chance, rolls[n - 1]) {
            let id = ids[n - 1];
            lemma_resolve_move(v, range, id);
        }
    }
}

pub proof fn lemma_turn_lasts(
    w: World,
    range: u8,
    chance: Double,
    ids: Seq<UnitId>,
    rolls: Seq<u64>,
    i: int,
    n: int,
)
    requires
        0 <= i < n <= ids.len(),
        forall|i: int, j: int| 0 <= i < j < ids.len() ==> ids[i] < ids[j],
    ensures
        w.after_moves(range, chance, ids, rolls, n).unit(ids[i]) == w.after_moves(
            range,
            chance,
            ids,
            rolls,
            i + 1,
        ).unit(ids[i]),
    decreases n,
{
    if n > i + 1 {
        lemma_turn_lasts(w, range, chance, ids, rolls, i, n - 1);
        assert(ids[i] < ids[n - 1]);
    }
}

/// What the movement phase leaves of a unit that rolled.
pub proof fn lemma_turns(w: World, cfg: SimulationConfig, chance: Double, rolls: Seq<u64>, i: int)
    requires
        0 <= i < w.movers().len(),
    ensures
        ({
            let id = w.movers()[i];
            let v = w.movement(cfg, chance, rolls);
            if World::roll_succeeds(chance, rolls[i]) {
                v.unit(id).pending_move is None && v.unit(id).state == UnitState::Idle
            } else {
                v.unit(id) == w.unit(id)
            }
        }),
{
    crate::roster::lemma_id_order(w.state.units);
    crate::rules::lemma_select(
        w.state.units,
        World::rolls_to_move(),
        crate::roster::id_order(w.state.units),
    );
    let ids = w.movers();
    let range = cfg.pawn_move_range;
    lemma_turn_lasts(w, range, chance, ids, rolls, i, ids.len() as int);
    lemma_after_moves(w, range, chance, ids, rolls, i);
}

/// The movement phase moves units as it may.
pub proof fn lemma_movement(w: World, cfg: SimulationConfig, chance: Double, rolls: Seq<u64>)
    ensures
        moved(w, w.movement(cfg, chance, rolls), cfg.pawn_move_range),
{
    crate::roster::lemma_id_order(w.state.units);
    crate::rules::lemma_select(
        w.state.units,
        World::rolls_to_move(),
        crate::roster::id_order(w.state.units),
    );
    let ids = w.movers();
    lemma_after_moves(w, cfg.pawn_move_range, chance, ids, rolls, ids.len() as int);
}

// ---------------------------------------------------------------------------
// Melee locks
// ---------------------------------------------------------------------------

/// From `w` to `v`, `id` has locked with `other`: an adjacent enemy that has
/// locked with it in turn.
pub open spec fn locked_with(
    w: World,
    v: World,
    cooldown: u32,
    id: UnitId,
    other: UnitId,
) -> bool {
    &&& w.has(other)
    &&& other != id
    &&& w.unit(id).state != UnitState::Locked
    &&& w.unit(other).state != UnitState::Locked
    &&& v.unit(id) == World::grappled(w.unit(id), other, cooldown)
    &&& v.unit(other) == World::grappled(w.unit(other), id, cooldown)
    &&& w.unit(other).owner != w.unit(id).owner
    &&& w.unit(other).pos.distance(w.unit(id).pos) == 1
}

/// How the lock phase may change a unit: not at all, or it locks.
pub open spec fn may_lock(w: World, v: World, cooldown: u32, id: UnitId) -> bool {
    ||| v.unit(id) == w.unit(id)
    ||| exists|other: UnitId| locked_with(w, v, cooldown, id, other)
}

/// What the lock phase does, from `w` to `v`.
pub open spec fn locked(w: World, v: World, cooldown: u32) -> bool {
    &&& same_setting(w, v)
    &&& v.state.units.dom() == w.state.units.dom()
    &&& forall|id: UnitId| #[trigger]
        w.state.units.dom().contains(id) ==> may_lock(w, v, cooldown, id)
    &&& forall|id: UnitId| #[trigger] damage_to(v.events, id) == damage_to(w.events, id)
    &&& crate::events::deaths(v.events) == crate::events::deaths(w.events)
    &&& adds(w.events, v.events, 3)
}

proof fn lemma_distance_symmetric(a: Tile, b: Tile)
    ensures
        a.distance(b) == b.distance(a),
{
}

pub proof fn lemma_after_locks(w: World, cooldown: u32, ids: Seq<UnitId>, n: int)
    requires
        0 <= n <= ids.len(),
        forall|i: int, j: int| 0 <= i < j < ids.len() ==> ids[i] < ids[j],
        forall|i: int| 0 <= i < ids.len() ==> w.has(#[trigger] ids[i]),
    ensures
        ({
            let (v, taken) = w.after_locks(cooldown, ids, n);
            &&& same_setting(w, v)
            &&& v.state.units.dom() == w.state.units.dom()
            &&& forall|id: UnitId|
                w.state.units.dom().contains(id) && !taken.contains(id) ==> #[trigger] v.unit(id)
                    == w.unit(id)
            &&& forall|id: UnitId| #[trigger]
                taken.contains(id) ==> w.has(id) && exists|other: UnitId|
                    taken.contains(other) && #[trigger] locked_with(w, v, cooldown, id, other)
            &&& forall|id: UnitId| #[trigger] damage_to(v.events, id) == damage_to(w.events, id)
            &&& crate::events::deaths(v.events) == crate::events::deaths(w.events)
            &&& adds(w.events, v.events, 3)
        }),
    decreases n,
{
    if n > 0 {
        lemma_after_locks(w, cooldown, ids, n - 1);
        let (before, taken) = w.after_locks(cooldown, ids, n - 1);
        let (v, taken2) = w.after_locks(cooldown, ids, n);
        if let Some(j) = before.partner(taken, ids, n - 1) {
            let a = ids[n - 1];
            assert(before.is_partner(taken, ids, n - 1, j));
            let b = ids[j];
            lemma_event_pushed(before.events, EventView::MeleeLocked { a, b });
            lemma_distance_symmetric(before.unit(a).pos, before.unit(b).pos);
            assert(v.state.units.dom() =~= before.state.units.dom());
            assert forall|id: UnitId|
                w.state.units.dom().contains(id) && !taken2.contains(id) implies #[trigger] v.unit(
                id,
            ) == w.unit(id) by {
                assert(before.unit(id) == w.unit(id));
            }
            assert forall|id: UnitId| #[trigger] taken2.contains(id) implies w.has(id) && exists|
                other: UnitId,
            |
                taken2.contains(other) && #[trigger] locked_with(w, v, cooldown, id, other) by {
                if id == a {
                    assert(locked_with(w, v, cooldown, a, b));
                } else if id == b {
                    assert(locked_with(w, v, cooldown, b, a));
                } else {
                    assert(taken.contains(id));
                    let other = choose|other: UnitId|
                        taken.contains(other) && #[trigger] locked_with(
                            w,
                            before,
                            cooldown,
                            id,
                            other,
                        );
                    assert(other != a && other != b);
                    assert(locked_with(w, v, cooldown, id, other));
                    assert(taken2.contains(other));
                }
            }
        }
    }
}

/// Locks last: who is locked stays locked while the others look for opponents,
/// and nobody moves or changes sides meanwhile.
proof fn lemma_locks_last(w: World, cooldown: u32, ids: Seq<UnitId>, m: int, n: int, id: UnitId)
    requires
        0 <= m <= n <= ids.len(),
        forall|i: int, j: int| 0 <= i < j < ids.len() ==> ids[i] < ids[j],
    ensures
        ({
            let u = w.after_locks(cooldown, ids, m).0.unit(id);
            let v = w.after_locks(cooldown, ids, n).0.unit(id);
            &&& u.state == UnitState::Locked ==> v.state == UnitState::Locked
            &&& v.owner == u.owner
            &&& v.pos == u.pos
        }),
    decreases n,
{
    if m < n {
        lemma_locks_last(w, cooldown, ids, m, n - 1, id);
        let (before, taken) = w.after_locks(cooldown, ids, n - 1);
        if let Some(j) = before.partner(taken, ids, n - 1) {
            assert(before.is_partner(taken, ids, n - 1, j));
        }
    }
}

/// After the lock phase no two adjacent enemies are both free.
pub proof fn lemma_no_free_neighbours(w: World, cfg: SimulationConfig, a: UnitId, b: UnitId)
    requires
        w.has(a),
        w.has(b),
        a < b,
        w.unit(a).owner != w.unit(b).owner,
        w.unit(a).pos.distance(w.unit(b).pos) == 1,
    ensures
        w.locking(cfg).unit(a).state == UnitState::Locked || w.locking(cfg).unit(b).state
            == UnitState::Locked,
{
    crate::roster::lemma_id_order(w.state.units);
    let ids = w.ids();
    let cooldown = cfg.melee_ticks();
    let len = ids.len() as int;
    assert forall|i: int| 0 <= i < ids.len() implies w.has(#[trigger] ids[i]) by {
        assert(ids.to_set().contains(ids[i]));
    }
    assert(ids.to_set().contains(a) && ids.to_set().contains(b));
    let i = choose|i: int| 0 <= i < ids.len() && ids[i] == a;
    let j = choose|j: int| 0 <= j < ids.len() && ids[j] == b;
    assert(i < j);
    let (before, taken) = w.after_locks(cooldown, ids, i);
    lemma_after_locks(w, cooldown, ids, i);
    lemma_locks_last(w, cooldown, ids, 0, i, a);
    lemma_locks_last(w, cooldown, ids, 0, i, b);
    lemma_locks_last(w, cooldown, ids, i, len, a);
    lemma_locks_last(w, cooldown, ids, i, len, b);
    lemma_locks_last(w, cooldown, ids, i + 1, len, a);
    lemma_distance_symmetric(w.unit(a).pos, w.unit(b).pos);
    if !taken.contains(a) && before.unit(a).state != UnitState::Locked && !taken.contains(b)
        && before.unit(b).state != UnitState::Locked {
        assert(before.lockable(taken, ids[i], ids[j]));
        lemma_first_partner(before, taken, ids, i, j);
        let k = choose|k: int| before.is_partner(taken, ids, i, k);
        assert(before.partner(taken, ids, i) == Some(k));
        assert(before.is_partner(taken, ids, i, k));
    }
}

/// Where there is someone to lock with, there is a first one.
pub proof fn lemma_first_partner(w: World, taken: Set<UnitId>, ids: Seq<UnitId>, i: int, j: int)
    requires
        0 <= i < j < ids.len(),
        w.lockable(taken, ids[i], ids[j]),
    ensures
        exists|k: int| w.is_partner(taken, ids, i, k),
    decreases j,
{
    if exists|k: int| i < k < j && w.lockable(taken, ids[i], #[trigger] ids[k]) {
        let k = choose|k: int| i < k < j && w.lockable(taken, ids[i], #[trigger] ids[k]);
        lemma_first_partner(w, taken, ids, i, k);
    } else {
        assert(w.is_partner(taken, ids, i, j));
    }
}

/// The lock phase locks units as it may.
pub proof fn lemma_locking(w: World, cfg: SimulationConfig)
    ensures
        locked(w, w.locking(cfg), cfg.melee_ticks()),
{
    crate::roster::lemma_id_order(w.state.units);
    let ids = w.ids();
    assert forall|i: int| 0 <= i < ids.len() implies w.has(#[trigger] ids[i]) by {
        assert(ids.to_set().contains(ids[i]));
    }
    lemma_after_locks(w, cfg.melee_ticks(), ids, ids.len() as int);
    let (v, taken) = w.after_locks(cfg.melee_ticks(), ids, ids.len() as int);
    assert forall|id: UnitId| #[trigger] w.state.units.dom().contains(id) implies may_lock(
        w,
        v,
        cfg.melee_ticks(),
        id,
    ) by {
        if taken.contains(id) {
            let other = choose|other: UnitId|
                taken.contains(other) && #[trigger] locked_with(
                    w,
                    v,
                    cfg.melee_ticks(),
                    id,
                    other,
                );
        } else {
            assert(v.unit(id) == w.unit(id));
        }
    }
}

// ---------------------------------------------------------------------------
// Damage
// ---------------------------------------------------------------------------

/// What a phase of fighting does, from `w` to `v`: it costs units health,
/// blow by blow as its events say, and runs their cooldowns.
pub open spec fn fought(w: World, v: World, cfg: SimulationConfig, phase: int) -> bool {
    &&& same_setting(w, v)
    &&& v.state.units.dom() == w.state.units.dom()
    &&& forall|id: UnitId| #[trigger]
        w.state.units.dom().contains(id) ==> v.unit(id) == (Unit {
            hp: v.unit(id).hp,
            attack_cooldown: v.unit(id).attack_cooldown,
            fire_cooldown: v.unit(id).fire_cooldown,
            ..w.unit(id)
        }) && v.unit(id).hp == w.unit(id).hp - (damage_to(v.events, id) - damage_to(w.events, id))
            && (phase == 4 ==> v.unit(id).fire_cooldown == w.unit(id).fire_cooldown) && (phase == 5
            ==> v.unit(id).attack_cooldown == w.unit(id).attack_cooldown)
    &&& cfg.melee_damage >= 0 && cfg.artillery_damage >= 0 ==> forall|id: UnitId| #[trigger]
        damage_to(v.events, id) >= damage_to(w.events, id)
    &&& crate::events::deaths(v.events) == crate::events::deaths(w.events)
    &&& adds(w.events, v.events, phase)
}

proof fn lemma_fought_trans(a: World, b: World, c: World, cfg: SimulationConfig, phase: int)
    requires
        fought(a, b, cfg, phase),
        fought(b, c, cfg, phase),
    ensures
        fought(a, c, cfg, phase),
{
    if cfg.melee_damage >= 0 && cfg.artillery_damage >= 0 {
        assert forall|id: UnitId| #[trigger] damage_to(c.events, id) >= damage_to(
            a.events,
            id,
        ) by {
            assert(damage_to(b.events, id) >= damage_to(a.events, id));
        }
    }
    assert forall|id: UnitId| #[trigger] a.state.units.dom().contains(id) implies c.unit(id) == (
    Unit {
        hp: c.unit(id).hp,
        attack_cooldown: c.unit(id).attack_cooldown,
        fire_cooldown: c.unit(id).fire_cooldown,
        ..a.unit(id)
    }) && c.unit(id).hp == a.unit(id).hp - (damage_to(c.events, id) - damage_to(a.events, id)) && (
    phase == 4 ==> c.unit(id).fire_cooldown == a.unit(id).fire_cooldown) && (phase == 5
        ==> c.unit(id).attack_cooldown == a.unit(id).attack_cooldown) by {
        assert(b.state.units.dom().contains(id));
    }
}

proof fn lemma_swing(w: World, cfg: SimulationConfig, attacker: UnitId, defender: UnitId)
    requires
        w.swing_fits(cfg, attacker, defender),
    ensures
        fought(w, w.swing(cfg, attacker, defender), cfg, 4),
{
    let v = w.swing(cfg, attacker, defender);
    assert(v.state.units.dom() =~= w.state.units.dom());
    if w.lands(attacker, defender) {
        lemma_event_pushed(w.events, v.events.last());
        assert(v.events == w.events.push(v.events.last()));
    }
}

proof fn lemma_after_bouts(
    w: World,
    cfg: SimulationConfig,
    pairs: Seq<(UnitId, UnitId)>,
    n: int,
)
    requires
        0 <= n <= pairs.len(),
        forall|k: int|
            0 <= k < n && !World::repeated(pairs, k) ==> #[trigger] w.after_bouts(
                cfg,
                pairs,
                k,
            ).exchange_fits(cfg, pairs[k]),
    ensures
        fought(w, w.after_bouts(cfg, pairs, n), cfg, 4),
    decreases n,
{
    if n > 0 {
        lemma_after_bouts(w, cfg, pairs, n - 1);
        let v = w.after_bouts(cfg, pairs, n - 1);
        if !World::repeated(pairs, n - 1) {
            assert(v.exchange_fits(cfg, pairs[n - 1]));
            let (a, b) = pairs[n - 1];
            lemma_swing(v, cfg, a, b);
            lemma_swing(v.swing(cfg, a, b), cfg, b, a);
            lemma_fought_trans(w, v, v.swing(cfg, a, b), cfg, 4);
            lemma_fought_trans(w, v.swing(cfg, a, b), w.after_bouts(cfg, pairs, n), cfg, 4);
        }
    }
}

/// The melee phase is a phase of fighting.
pub proof fn lemma_melee(w: World, cfg: SimulationConfig)
    requires
        w.melee_fits(cfg),
    ensures
        fought(w, w.melee(cfg), cfg, 4),
{
    lemma_after_bouts(w, cfg, w.bouts(), w.bouts().len() as int);
}

proof fn lemma_shoot(w: World, cfg: SimulationConfig, id: UnitId)
    requires
        w.state.keyed(),
        w.has(id),
        w.shot_fits(cfg, id),
    ensures
        fought(w, w.shoot(cfg, id), cfg, 5),
        w.shoot(cfg, id).state.keyed(),
{
    let v = w.shoot(cfg, id);
    let u = w.unit(id);
    crate::game_state::lemma_scan_hits(w.state, u.pos, cfg.artillery_range, u.owner);
    assert(v.state.units.dom() =~= w.state.units.dom());
    if w.aim(cfg, id) is Some {
        lemma_event_pushed(w.events, v.events.last());
        assert(v.events == w.events.push(v.events.last()));
    }
}

proof fn lemma_after_shots(w: World, cfg: SimulationConfig, ids: Seq<UnitId>, n: int)
    requires
        w.state.keyed(),
        0 <= n <= ids.len(),
        forall|i: int| 0 <= i < ids.len() ==> w.has(#[trigger] ids[i]),
        forall|k: int|
            0 <= k < n ==> #[trigger] w.after_shots(cfg, ids, k).shot_fits(cfg, ids[k]),
    ensures
        fought(w, w.after_shots(cfg, ids, n), cfg, 5),
        w.after_shots(cfg, ids, n).state.keyed(),
    decreases n,
{
    if n > 0 {
        lemma_after_shots(w, cfg, ids, n - 1);
        let v = w.after_shots(cfg, ids, n - 1);
        assert(v.shot_fits(cfg, ids[n - 1]));
        lemma_shoot(v, cfg, ids[n - 1]);
        lemma_fought_trans(w, v, w.after_shots(cfg, ids, n), cfg, 5);
    }
}

/// The artillery phase is a phase of fighting.
pub proof fn lemma_artillery(w: World, cfg: SimulationConfig)
    requires
        w.state.keyed(),
        w.artillery_fits(cfg),
    ensures
        fought(w, w.artillery(cfg), cfg, 5),
        w.artillery(cfg).state.keyed(),
{
    crate::roster::lemma_id_order(w.state.units);
    crate::rules::lemma_select(
        w.state.units,
        World::mans_gun(),
        crate::roster::id_order(w.state.units),
    );
    lemma_after_shots(w, cfg, w.gunners(), w.gunners().len() as int);
}

// ---------------------------------------------------------------------------
// Death cleanup
// ---------------------------------------------------------------------------

/// `id` is the opponent of a unit that fell.
pub open spec fn bereft(w: World, id: UnitId) -> bool {
    exists|dead: UnitId| #[trigger]
        w.has(dead) && w.unit(dead).hp <= 0 && w.unit(dead).melee_target == Some(id)
}

/// The reports of the deaths of these units.
pub open spec fn obituaries(w: World, ids: Seq<UnitId>) -> Seq<EventView> {
    ids.map_values(
        |id: UnitId|
            EventView::UnitDied { unit: id, owner: w.unit(id).owner, at: w.unit(id).pos },
    )
}

/// What the cleanup phase does, from `w` to `v`: exactly the units without
/// health leave, each with its event, in id order; of the others only opponents
/// of the fallen are released.
pub open spec fn cleaned(w: World, v: World) -> bool {
    &&& same_setting(w, v)
    &&& forall|id: UnitId| #[trigger]
        v.state.units.dom().contains(id) <==> w.state.units.dom().contains(id) && w.unit(id).hp > 0
    &&& forall|id: UnitId| #[trigger]
        v.state.units.dom().contains(id) ==> v.unit(id) == w.unit(id) || v.unit(id)
            == World::released(w.unit(id)) && bereft(w, id)
    &&& forall|id: UnitId| #[trigger] damage_to(v.events, id) == damage_to(w.events, id)
    &&& crate::events::deaths(v.events) == crate::events::deaths(w.events) + w.fallen()
    &&& v.events == w.events + obituaries(w, w.fallen())
}

proof fn lemma_after_burials(w: World, ids: Seq<UnitId>, n: int)
    requires
        0 <= n <= ids.len(),
        forall|i: int, j: int| 0 <= i < j < ids.len() ==> ids[i] < ids[j],
        forall|i: int|
            0 <= i < ids.len() ==> w.has(#[trigger] ids[i]) && w.unit(ids[i]).hp <= 0,
    ensures
        ({
            let v = w.after_burials(ids, n);
            &&& same_setting(w, v)
            &&& forall|id: UnitId| #[trigger]
                v.state.units.dom().contains(id) <==> w.state.units.dom().contains(id)
                    && !ids.take(n).contains(id)
            &&& forall|id: UnitId| #[trigger]
                v.state.units.dom().contains(id) ==> v.unit(id) == w.unit(id) || v.unit(id)
                    == World::released(w.unit(id)) && bereft(w, id)
            &&& forall|id: UnitId| #[trigger] damage_to(v.events, id) == damage_to(w.events, id)
            &&& crate::events::deaths(v.events) == crate::events::deaths(w.events) + ids.take(n)
            &&& v.events == w.events + obituaries(w, ids.take(n))
        }),
    decreases n,
{
    if n <= 0 {
        assert(crate::events::deaths(w.events) + ids.take(0) =~= crate::events::deaths(w.events));
        assert(w.events + obituaries(w, ids.take(0)) =~= w.events);
    } else {
        lemma_after_burials(w, ids, n - 1);
        let before = w.after_burials(ids, n - 1);
        let v = w.after_burials(ids, n);
        let id = ids[n - 1];
        let buried = ids.take(n - 1);
        assert(!buried.contains(id)) by {
            if buried.contains(id) {
                let k = choose|k: int| 0 <= k < buried.len() && buried[k] == id;
                assert(ids[k] == id);
            }
        }
        assert(before.has(id));
        let u = before.unit(id);
        lemma_event_pushed(
            before.events,
            EventView::UnitDied { unit: id, owner: u.owner, at: u.pos },
        );
        assert(ids.take(n) =~= buried.push(id));
        assert forall|x: UnitId| ids.take(n).contains(x) <==> buried.contains(x) || x == id by {
            if buried.contains(x) {
                let k = choose|k: int| 0 <= k < buried.len() && buried[k] == x;
                assert(ids.take(n)[k] == x);
            }
            assert(ids.take(n)[n - 1] == id);
        }
        assert(crate::events::deaths(v.events) =~= crate::events::deaths(w.events) + ids.take(n));
        assert(v.events =~= w.events + obituaries(w, ids.take(n)));
        assert forall|x: UnitId| #[trigger] v.state.units.dom().contains(x) implies v.unit(x)
            == w.unit(x) || v.unit(x) == World::released(w.unit(x)) && bereft(w, x) by {
            assert(before.state.units.dom().contains(x));
            if u.melee_target == Some(x) {
                assert(u.melee_target == w.unit(id).melee_target);
                assert(w.has(id));
            }
        }
    }
}

/// The cleanup phase removes exactly the fallen.
pub proof fn lemma_cleanup(w: World)
    ensures
        cleaned(w, w.cleanup()),
{
    crate::roster::lemma_id_order(w.state.units);
    crate::rules::lemma_select(
        w.state.units,
        World::is_dead(),
        crate::roster::id_order(w.state.units),
    );
    let ids = w.fallen();
    assert forall|i: int| 0 <= i < ids.len() implies w.has(#[trigger] ids[i]) && w.unit(ids[i]).hp
        <= 0 by {
        assert(World::is_dead()(w.state.units[ids[i]]));
    }
    lemma_after_burials(w, ids, ids.len() as int);
    assert(ids.take(ids.len() as int) =~= ids);
    let v = w.cleanup();
    assert forall|id: UnitId| #[trigger] v.state.units.dom().contains(id) <==> (
    w.state.units.dom().contains(id) && w.unit(id).hp > 0) by {
        if w.has(id) && w.unit(id).hp <= 0 {
            assert(World::is_dead()(w.state.units[id]));
            assert(ids.contains(id));
        }
        if ids.contains(id) {
            let k = choose|k: int| 0 <= k < ids.len() && ids[k] == id;
            assert(World::is_dead()(w.state.units[ids[k]]));
        }
    }
}

proof fn lemma_release_lasts(w: World, ids: Seq<UnitId>, m: int, n: int, id: UnitId)
    requires
        0 <= m <= n <= ids.len(),
    ensures
        ({
            let u = w.after_burials(ids, m).unit(id);
            let v = w.after_burials(ids, n).unit(id);
            w.after_burials(ids, n).has(id) ==> v == u || v == World::released(u)
        }),
        w.after_burials(ids, n).has(id) ==> w.after_burials(ids, m).has(id),
    decreases n,
{
    if m < n {
        lemma_release_lasts(w, ids, m, n - 1, id);
    }
}

/// A unit that no earlier fallen one fought is not released before its own
/// burial.
proof fn lemma_unreleased(w: World, ids: Seq<UnitId>, n: int, id: UnitId, m: int)
    requires
        0 <= m <= n < ids.len(),
        ids[n] == id,
        forall|i: int, j: int| 0 <= i < j < ids.len() ==> ids[i] < ids[j],
        forall|i: int|
            0 <= i < ids.len() ==> w.has(#[trigger] ids[i]) && w.unit(ids[i]).hp <= 0,
        forall|i: int| 0 <= i < n ==> w.unit(#[trigger] ids[i]).melee_target != Some(id),
    ensures
        w.after_burials(ids, m).unit(id) == w.unit(id),
    decreases m,
{
    if m > 0 {
        lemma_unreleased(w, ids, n, id, m - 1);
        lemma_after_burials(w, ids, m - 1);
        let before = w.after_burials(ids, m - 1);
        let other = ids[m - 1];
        assert(other < id);
        let buried = ids.take(m - 1);
        assert(!buried.contains(other)) by {
            if buried.contains(other) {
                let k = choose|k: int| 0 <= k < buried.len() && buried[k] == other;
                assert(ids[k] == other);
            }
        }
        assert(before.state.units.dom().contains(other));
        assert(before.unit(other).melee_target is None || before.unit(other).melee_target
            == w.unit(other).melee_target);
    }
}

/// Whoever a fallen unit fought is free again after the cleanup, if alive;
/// provided that the fallen unit was not itself released by an earlier burial.
pub proof fn lemma_opponent_released(w: World, dead: UnitId, id: UnitId)
    requires
        w.has(dead),
        w.unit(dead).hp <= 0,
        w.unit(dead).melee_target == Some(id),
        w.has(id),
        w.unit(id).hp > 0,
        forall|o: UnitId| #[trigger]
            w.has(o) && w.unit(o).hp <= 0 && o < dead ==> w.unit(o).melee_target != Some(dead),
    ensures
        w.cleanup().has(id),
        w.cleanup().unit(id) == World::released(w.unit(id)),
{
    crate::roster::lemma_id_order(w.state.units);
    crate::rules::lemma_select(
        w.state.units,
        World::is_dead(),
        crate::roster::id_order(w.state.units),
    );
    lemma_cleanup(w);
    let ids = w.fallen();
    let len = ids.len() as int;
    assert(World::is_dead()(w.state.units[dead]));
    assert(ids.contains(dead));
    let k = choose|k: int| 0 <= k < ids.len() && ids[k] == dead;
    assert forall|i: int| 0 <= i < ids.len() implies w.has(#[trigger] ids[i]) && w.unit(ids[i]).hp
        <= 0 by {
        assert(World::is_dead()(w.state.units[ids[i]]));
    }
    assert forall|i: int| 0 <= i < k implies w.unit(#[trigger] ids[i]).melee_target != Some(
        dead,
    ) by {
        assert(World::is_dead()(w.state.units[ids[i]]));
        assert(w.has(ids[i]));
    }
    assert(w.cleanup().state.units.dom().contains(id));
    lemma_unreleased(w, ids, k, dead, k);
    lemma_after_burials(w, ids, k);
    lemma_release_lasts(w, ids, k + 1, len, id);
    lemma_release_lasts(w, ids, k, len, id);
    let before = w.after_burials(ids, k);
    assert(before.unit(dead) == w.unit(dead));
    assert(before.state.units.dom().contains(id));
}

} // verus!

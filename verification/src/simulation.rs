//! The fixed-tick simulation.
//!
//! One tick advances the world one step and returns the events produced:
//!   1. (inputs are drained by the match loop before the tick)
//!   2. resolve probabilistic movement
//!   3. check melee adjacency and form locks
//!   4. process melee damage (cooldowns, hits)
//!   5. process artillery fire (cooldowns, line of sight, shots)
//!   6. clean up dead units
//!   7. check win conditions

use crate::chance::draw_rolls;
use crate::config::SimulationConfig;
use crate::double::Double;
use crate::events::record;
pub use crate::events::GameEvent;
use crate::game_state::{
    EndReason, GameState, MatchStatus, Owner, StateView, Tile, Unit, UnitId, UnitKind, UnitState,
};
use crate::roster::{find_unit, has_id, put_unit, take_unit, unit_ids};
use crate::rules::World;
use rand::rngs::StdRng;
use std::collections::BTreeMap;
use vstd::prelude::*;

verus! {

/// The ids of the units that pass a test, lowest first.
fn select_ids(
    units: &BTreeMap<UnitId, Unit>,
    test: impl Fn(&Unit) -> bool,
    Ghost(p): Ghost<spec_fn(Unit) -> bool>,
) -> (r: Vec<UnitId>)
    requires
        forall|u: Unit| #[trigger] call_requires(test, (&u,)),
        forall|u: Unit, b: bool| #[trigger] call_ensures(test, (&u,), b) ==> b == p(u),
    ensures
        r@ == World::select(units@, p),
        forall|i: int|
            0 <= i < r@.len() ==> units@.dom().contains(#[trigger] r@[i]) && p(units@[r@[i]]),
        forall|id: UnitId| units@.dom().contains(id) && p(units@[id]) ==> #[trigger] r@.contains(id),
        forall|i: int, j: int| 0 <= i < j < r@.len() ==> r@[i] < r@[j],
{
    let ids = unit_ids(units);
    let mut r: Vec<UnitId> = Vec::new();
    let ghost q = |id: UnitId| p(units@[id]);
    for i in 0..ids.len()
        invariant
            crate::roster::lists_ids(ids@, units@),
            q == (|id: UnitId| p(units@[id])),
            r@ == ids@.take(i as int).filter(q),
            forall|u: Unit| #[trigger] call_requires(test, (&u,)),
            forall|u: Unit, b: bool| #[trigger] call_ensures(test, (&u,), b) ==> b == p(u),
    {
        let id = ids[i];
        proof {
            crate::rules::lemma_filter_take(ids@, i as int, q);
            assert(ids@.to_set().contains(id));
        }
        let u = find_unit(units, id).unwrap();
        if test(&u) {
            r.push(id);
        }
    }
    proof {
        assert(ids@.take(ids@.len() as int) =~= ids@);
        crate::rules::lemma_select(units@, p, ids@);
        assert(r@ == World::select(units@, p));
    }
    r
}

// ---------------------------------------------------------------------------
// 2. Probabilistic movement
// ---------------------------------------------------------------------------

fn has_queued_move(u: &Unit) -> (b: bool)
    ensures
        b == World::rolls_to_move()(*u),
{
    u.kind == UnitKind::Pawn && u.state != UnitState::Locked && u.pending_move.is_some()
}

/// The units that roll for their queued move this tick, in roll order.
pub fn moving_units(state: &GameState) -> (r: Vec<UnitId>)
    ensures
        r@ == (World { state: state@, events: Seq::empty() }).movers(),
        forall|i: int|
            0 <= i < r@.len() ==> state.units@.dom().contains(#[trigger] r@[i])
                && World::rolls_to_move()(state.units@[r@[i]]),
        forall|i: int, j: int| 0 <= i < j < r@.len() ==> r@[i] < r@[j],
{
    select_ids(&state.units, has_queued_move, Ghost(World::rolls_to_move()))
}

/// Whether a roll of 64 random bits resolves a move that has this chance.
pub fn roll_hits(chance: Double, roll: u64) -> (r: bool)
    ensures
        r == World::roll_succeeds(chance, roll),
{
    chance.is_above_53(roll / 2048)
}

/// Moves every unit whose roll succeeds; `rolls` holds one roll for each of
/// `moving_units`.
fn resolve_movement(
    state: &mut GameState,
    cfg: &SimulationConfig,
    chance: Double,
    rolls: &Vec<u64>,
    events: &mut Vec<GameEvent>,
)
    requires
        old(state).wf(),
        rolls@.len() == World::of(*old(state), old(events)@).movers().len(),
    ensures
        final(state).wf(),
        World::of(*final(state), final(events)@) == World::of(
            *old(state),
            old(events)@,
        ).movement(*cfg, chance, rolls@),
{
    let ids = moving_units(state);
    let ghost start = World::of(*state, events@);
    let ghost range = cfg.pawn_move_range;
    proof {
        assert(ids@ == start.movers());
    }
    for i in 0..ids.len()
        invariant
            state.wf(),
            range == cfg.pawn_move_range,
            rolls@.len() == ids@.len(),
            World::of(*state, events@) == start.after_moves(
                range,
                chance,
                ids@,
                rolls@,
                i as int,
            ),
            state.units@.dom() == start.state.units.dom(),
            forall|k: int|
                0 <= k < ids@.len() ==> start.state.units.dom().contains(#[trigger] ids@[k])
                    && World::rolls_to_move()(start.state.units[ids@[k]]),
            forall|k: int|
                i <= k < ids@.len() ==> state.units@[#[trigger] ids@[k]]
                    == start.state.units[ids@[k]],
            forall|k: int, m: int| 0 <= k < m < ids@.len() ==> ids@[k] < ids@[m],
    {
        let id = ids[i];
        if roll_hits(chance, rolls[i]) {
            let u = find_unit(&state.units, id).unwrap();
            let target = u.pending_move.unwrap();
            if target.chebyshev(u.pos) > cfg.pawn_move_range || !state.is_free(target) {
                // The path went stale while the move was queued.
                put_unit(
                    &mut state.units,
                    id,
                    Unit { pending_move: None, state: UnitState::Idle, ..u },
                );
                record(
                    events,
                    GameEvent::MoveBlocked {
                        unit: id,
                        by: u.owner,
                        to: target,
                        reason: "target occupied".to_owned(),
                    },
                );
            } else {
                put_unit(
                    &mut state.units,
                    id,
                    Unit { pos: target, pending_move: None, state: UnitState::Idle, ..u },
                );
                record(
                    events,
                    GameEvent::MoveResolved { unit: id, by: u.owner, from: u.pos, to: target },
                );
            }
            proof {
                assert(state.units@.dom() =~= start.state.units.dom());
            }
        }
    }
}

// ---------------------------------------------------------------------------
// 3. Melee locks
// ---------------------------------------------------------------------------

/// The index of the first unit after index `i` that the unit there locks with.
fn find_partner(
    units: &BTreeMap<UnitId, Unit>,
    ids: &Vec<UnitId>,
    locked: &Vec<UnitId>,
    i: usize,
    Ghost(w): Ghost<World>,
) -> (r: Option<usize>)
    requires
        w.state.units == units@,
        i < ids@.len(),
        forall|k: int| 0 <= k < ids@.len() ==> units@.dom().contains(#[trigger] ids@[k]),
    ensures
        match r {
            Some(j) => w.partner(locked@.to_set(), ids@, i as int) == Some(j as int) && i < j
                < ids@.len(),
            None => w.partner(locked@.to_set(), ids@, i as int) is None,
        },
{
    let a = ids[i];
    let ghost set = locked@.to_set();
    if has_id(locked, a) {
        return None;
    }
    let ua = find_unit(units, a).unwrap();
    if ua.state == UnitState::Locked {
        return None;
    }
    let n: usize = ids.len();
    let mut j: usize = i + 1;
    while j < n
        invariant
            n == ids@.len(),
            i < j <= n,
            a == ids@[i as int],
            set == locked@.to_set(),
            w.state.units == units@,
            ua == units@[a],
            !set.contains(a),
            ua.state != UnitState::Locked,
            forall|k: int| 0 <= k < ids@.len() ==> units@.dom().contains(#[trigger] ids@[k]),
            forall|k: int| i < k < j ==> !w.lockable(set, ids@[i as int], #[trigger] ids@[k]),
        decreases n - j,
    {
        let b = ids[j];
        let ub = find_unit(units, b).unwrap();
        if !has_id(locked, b) && ub.owner != ua.owner && ub.state != UnitState::Locked
            && ub.pos.chebyshev(ua.pos) == 1 {
            proof {
                assert(w.is_partner(set, ids@, i as int, j as int));
                let c = choose|c: int| w.is_partner(set, ids@, i as int, c);
                if c < j {
                    assert(w.lockable(set, ids@[i as int], ids@[c]));
                } else if j < c {
                    assert(!w.lockable(set, ids@[i as int], ids@[j as int]));
                }
            }
            return Some(j);
        }
        j = j + 1;
    }
    proof {
        assert forall|c: int| !w.is_partner(set, ids@, i as int, c) by {
            if w.is_partner(set, ids@, i as int, c) {
                assert(!w.lockable(set, ids@[i as int], ids@[c]));
            }
        }
    }
    None
}

/// Locks adjacent enemies in pairs: both stop moving and start swinging.
fn form_melee_locks(state: &mut GameState, cfg: &SimulationConfig, events: &mut Vec<GameEvent>)
    requires
        old(state).wf(),
    ensures
        final(state).wf(),
        World::of(*final(state), final(events)@) == World::of(*old(state), old(events)@).locking(
            *cfg,
        ),
{
    let ids = unit_ids(&state.units);
    let cooldown = cfg.melee_cooldown_ticks();
    let mut locked: Vec<UnitId> = Vec::new();
    let ghost start = World::of(*state, events@);
    proof {
        assert(locked@.to_set() =~= Set::<UnitId>::empty());
        assert forall|k: int| 0 <= k < ids@.len() implies start.state.units.dom().contains(
            #[trigger] ids@[k],
        ) by {
            assert(ids@.to_set().contains(ids@[k]));
        }
    }
    for i in 0..ids.len()
        invariant
            state.wf(),
            cooldown == cfg.melee_ticks(),
            World::of(*state, events@) == start.after_locks(cooldown, ids@, i as int).0,
            locked@.to_set() == start.after_locks(cooldown, ids@, i as int).1,
            state.units@.dom() == start.state.units.dom(),
            forall|k: int|
                0 <= k < ids@.len() ==> start.state.units.dom().contains(#[trigger] ids@[k]),
    {
        let ghost before = World::of(*state, events@);
        if let Some(j) = find_partner(&state.units, &ids, &locked, i, Ghost(before)) {
            let a = ids[i];
            let b = ids[j];
            let ua = find_unit(&state.units, a).unwrap();
            put_unit(
                &mut state.units,
                a,
                Unit {
                    state: UnitState::Locked,
                    melee_target: Some(b),
                    pending_move: None,
                    attack_cooldown: cooldown,
                    ..ua
                },
            );
            let ub = find_unit(&state.units, b).unwrap();
            put_unit(
                &mut state.units,
                b,
                Unit {
                    state: UnitState::Locked,
                    melee_target: Some(a),
                    pending_move: None,
                    attack_cooldown: cooldown,
                    ..ub
                },
            );
            let ghost was = locked@;
            locked.push(a);
            locked.push(b);
            record(events, GameEvent::MeleeLocked { a, b });
            proof {
                assert(locked@.to_set() =~= was.to_set().insert(a).insert(b)) by {
                    assert forall|x: UnitId| locked@.contains(x) <==> was.contains(x) || x == a || x
                        == b by {
                        assert(locked@ == was.push(a).push(b));
                        if was.contains(x) {
                            let k = choose|k: int| 0 <= k < was.len() && was[k] == x;
                            assert(locked@[k] == x);
                        }
                        assert(locked@[was.len() as int] == a);
                        assert(locked@[locked@.len() - 1] == b);
                    }
                }
                assert(state.units@.dom() =~= start.state.units.dom());
            }
        }
    }
    proof {
        assert(ids@ == start.ids());
    }
}

// ---------------------------------------------------------------------------
// 4. Melee damage
// ---------------------------------------------------------------------------

fn is_fighting(u: &Unit) -> (b: bool)
    ensures
        b == World::fights()(*u),
{
    u.state == UnitState::Locked && u.melee_target.is_some()
}

/// The bouts of the fighting units, in id order.
fn list_bouts(state: &GameState, Ghost(w): Ghost<World>) -> (r: Vec<(UnitId, UnitId)>)
    requires
        w.state == state@,
    ensures
        r@ == w.bouts(),
{
    let ids = select_ids(&state.units, is_fighting, Ghost(World::fights()));
    let mut r: Vec<(UnitId, UnitId)> = Vec::new();
    for i in 0..ids.len()
        invariant
            w.state == state@,
            ids@ == World::select(state.units@, World::fights()),
            forall|k: int|
                0 <= k < ids@.len() ==> state.units@.dom().contains(#[trigger] ids@[k])
                    && World::fights()(state.units@[ids@[k]]),
            r@.len() == i,
            forall|k: int| 0 <= k < i ==> r@[k] == w.bouts()[k],
    {
        let id = ids[i];
        let u = find_unit(&state.units, id).unwrap();
        let other = u.melee_target.unwrap();
        r.push(
            if id <= other {
                (id, other)
            } else {
                (other, id)
            },
        );
    }
    proof {
        assert(r@ =~= w.bouts());
    }
    r
}

/// One side of a bout. Returns whether the defender's health stayed
/// representable.
fn swing(
    state: &mut GameState,
    cfg: &SimulationConfig,
    attacker: UnitId,
    defender: UnitId,
    events: &mut Vec<GameEvent>,
) -> (ok: bool)
    requires
        old(state).wf(),
    ensures
        ok == World::of(*old(state), old(events)@).swing_fits(*cfg, attacker, defender),
        ok ==> final(state).wf(),
        ok ==> World::of(*final(state), final(events)@) == World::of(
            *old(state),
            old(events)@,
        ).swing(*cfg, attacker, defender),
{
    let ua = match find_unit(&state.units, attacker) {
        Some(u) => u,
        None => {
            return true;
        },
    };
    if ua.state != UnitState::Locked {
        return true;
    }
    if ua.attack_cooldown > 1 {
        put_unit(
            &mut state.units,
            attacker,
            Unit { attack_cooldown: ua.attack_cooldown - 1, ..ua },
        );
        return true;
    }
    let ud = match find_unit(&state.units, defender) {
        Some(u) => u,
        None => {
            put_unit(&mut state.units, attacker, Unit { attack_cooldown: 0, ..ua });
            return true;
        },
    };
    let left: i64 = ud.hp as i64 - cfg.melee_damage as i64;
    if left < i32::MIN as i64 || left > i32::MAX as i64 {
        return false;
    }
    let hp_left: i32 = left as i32;
    put_unit(&mut state.units, defender, Unit { hp: hp_left, ..ud });
    let again = find_unit(&state.units, attacker).unwrap();
    put_unit(
        &mut state.units,
        attacker,
        Unit { attack_cooldown: cfg.melee_cooldown_ticks(), ..again },
    );
    record(
        events,
        GameEvent::MeleeHit { attacker, defender, damage: cfg.melee_damage, hp_left },
    );
    true
}

fn seen_before(pairs: &Vec<(UnitId, UnitId)>, n: usize) -> (r: bool)
    requires
        n < pairs@.len(),
    ensures
        r == World::repeated(pairs@, n as int),
{
    for m in 0..n
        invariant
            n < pairs@.len(),
            forall|k: int| 0 <= k < m ==> pairs@[k] != pairs@[n as int],
    {
        if pairs[m].0 == pairs[n].0 && pairs[m].1 == pairs[n].1 {
            assert(pairs@[m as int] == pairs@[n as int]);
            return true;
        }
    }
    false
}

/// Fights every bout once: cooldowns tick down, and whoever reaches zero lands
/// a hit. Returns whether every health stayed representable.
fn process_melee_damage(
    state: &mut GameState,
    cfg: &SimulationConfig,
    events: &mut Vec<GameEvent>,
) -> (ok: bool)
    requires
        old(state).wf(),
    ensures
        ok == World::of(*old(state), old(events)@).melee_fits(*cfg),
        ok ==> final(state).wf(),
        ok ==> World::of(*final(state), final(events)@) == World::of(
            *old(state),
            old(events)@,
        ).melee(*cfg),
{
    let ghost start = World::of(*state, events@);
    let pairs = list_bouts(state, Ghost(start));
    for i in 0..pairs.len()
        invariant
            state.wf(),
            start == World::of(*old(state), old(events)@),
            pairs@ == start.bouts(),
            World::of(*state, events@) == start.after_bouts(*cfg, pairs@, i as int),
            forall|n: int|
                0 <= n < i && !World::repeated(pairs@, n) ==> #[trigger] start.after_bouts(
                    *cfg,
                    pairs@,
                    n,
                ).exchange_fits(*cfg, pairs@[n]),
    {
        if !seen_before(&pairs, i) {
            let (a, b) = pairs[i];
            let ghost before = World::of(*state, events@);
            let first = swing(state, cfg, a, b, events);
            if !first {
                assert(!before.exchange_fits(*cfg, pairs@[i as int]));
                return false;
            }
            let second = swing(state, cfg, b, a, events);
            if !second {
                assert(!before.exchange_fits(*cfg, pairs@[i as int]));
                return false;
            }
        }
    }
    true
}

// ---------------------------------------------------------------------------
// 5. Artillery
// ---------------------------------------------------------------------------

fn is_free_gun(u: &Unit) -> (b: bool)
    ensures
        b == World::mans_gun()(*u),
{
    u.kind == UnitKind::Artillery && u.state != UnitState::Locked
}

/// Every free gun cools down, or fires at the first enemy in sight. Returns
/// whether every health stayed representable.
fn process_artillery(
    state: &mut GameState,
    cfg: &SimulationConfig,
    events: &mut Vec<GameEvent>,
) -> (ok: bool)
    requires
        old(state).wf(),
    ensures
        ok == World::of(*old(state), old(events)@).artillery_fits(*cfg),
        ok ==> final(state).wf(),
        ok ==> World::of(*final(state), final(events)@) == World::of(
            *old(state),
            old(events)@,
        ).artillery(*cfg),
{
    let ghost start = World::of(*state, events@);
    let ids = select_ids(&state.units, is_free_gun, Ghost(World::mans_gun()));
    for i in 0..ids.len()
        invariant
            state.wf(),
            start == World::of(*old(state), old(events)@),
            ids@ == start.gunners(),
            state.units@.dom() == start.state.units.dom(),
            forall|k: int|
                0 <= k < ids@.len() ==> start.state.units.dom().contains(#[trigger] ids@[k]),
            World::of(*state, events@) == start.after_shots(*cfg, ids@, i as int),
            forall|n: int|
                0 <= n < i ==> #[trigger] start.after_shots(*cfg, ids@, n).shot_fits(
                    *cfg,
                    ids@[n],
                ),
    {
        let id = ids[i];
        let ghost before = World::of(*state, events@);
        let u = find_unit(&state.units, id).unwrap();
        if u.fire_cooldown > 1 {
            put_unit(&mut state.units, id, Unit { fire_cooldown: u.fire_cooldown - 1, ..u });
        } else if let Some((target, tile)) = state.scan_orthogonal_target(
            u.pos,
            cfg.artillery_range,
            u.owner,
        ) {
            proof {
                crate::game_state::lemma_scan_hits(
                    state@,
                    u.pos,
                    cfg.artillery_range,
                    u.owner,
                );
            }
            let t = find_unit(&state.units, target).unwrap();
            let left: i64 = t.hp as i64 - cfg.artillery_damage as i64;
            if left < i32::MIN as i64 || left > i32::MAX as i64 {
                assert(!before.shot_fits(*cfg, id));
                return false;
            }
            put_unit(&mut state.units, target, Unit { hp: left as i32, ..t });
            let again = find_unit(&state.units, id).unwrap();
            put_unit(
                &mut state.units,
                id,
                Unit { fire_cooldown: cfg.artillery_cooldown_ticks(), ..again },
            );
            record(
                events,
                GameEvent::ArtilleryFired {
                    unit: id,
                    from: u.pos,
                    to: tile,
                    target,
                    damage: cfg.artillery_damage,
                },
            );
        } else {
            put_unit(&mut state.units, id, Unit { fire_cooldown: 0, ..u });
        }
        proof {
            assert(state.units@.dom() =~= start.state.units.dom());
        }
    }
    true
}

// ---------------------------------------------------------------------------
// 6. Death cleanup
// ---------------------------------------------------------------------------

fn has_fallen(u: &Unit) -> (b: bool)
    ensures
        b == World::is_dead()(*u),
{
    !u.is_alive()
}

/// Removes the fallen and frees their opponents.
pub fn cleanup_dead(state: &mut GameState, events: &mut Vec<GameEvent>)
    ensures
        old(state).wf() ==> final(state).wf(),
        World::of(*final(state), final(events)@) == World::of(
            *old(state),
            old(events)@,
        ).cleanup(),
{
    let ghost start = World::of(*state, events@);
    let dead = select_ids(&state.units, has_fallen, Ghost(World::is_dead()));
    for i in 0..dead.len()
        invariant
            old(state).wf() ==> state.wf(),
            dead@ == start.fallen(),
            World::of(*state, events@) == start.after_burials(dead@, i as int),
            forall|k: int, m: int| 0 <= k < m < dead@.len() ==> dead@[k] < dead@[m],
            forall|k: int|
                i <= k < dead@.len() ==> state.units@.dom().contains(#[trigger] dead@[k]),
    {
        let id = dead[i];
        let unit = take_unit(&mut state.units, id).unwrap();
        record(events, GameEvent::UnitDied { unit: id, owner: unit.owner, at: unit.pos });
        // Break the partner's grapple so it can fight and move again.
        if let Some(partner_id) = unit.melee_target {
            if let Some(partner) = find_unit(&state.units, partner_id) {
                put_unit(
                    &mut state.units,
                    partner_id,
                    Unit {
                        melee_target: None,
                        state: UnitState::Idle,
                        attack_cooldown: 0,
                        ..partner
                    },
                );
            }
        }
    }
}

// ---------------------------------------------------------------------------
// 7. Win conditions
// ---------------------------------------------------------------------------

fn finish(
    state: &mut GameState,
    winner: Option<Owner>,
    reason: EndReason,
    events: &mut Vec<GameEvent>,
)
    requires
        old(state).wf(),
    ensures
        final(state).wf(),
        World::of(*final(state), final(events)@) == (World {
            state: StateView {
                status: MatchStatus::Finished,
                winner,
                end_reason: Some(reason),
                ..old(state)@
            },
            events: crate::events::event_views(old(events)@),
        }).with_event(crate::events::EventView::MatchOver { winner, reason }),
{
    state.status = MatchStatus::Finished;
    state.winner = winner;
    state.end_reason = Some(reason);
    record(events, GameEvent::MatchOver { winner, reason });
}

/// Ends an active match once a side is gone or the time is up.
fn check_win(state: &mut GameState, cfg: &SimulationConfig, events: &mut Vec<GameEvent>)
    requires
        old(state).wf(),
    ensures
        final(state).wf(),
        World::of(*final(state), final(events)@) == World::of(*old(state), old(events)@).verdict(
            *cfg,
        ),
{
    if state.status != MatchStatus::Active {
        return;
    }
    let white = state.alive_count(Owner::White);
    let black = state.alive_count(Owner::Black);
    if white == 0 || black == 0 {
        if white == 0 && black == 0 {
            finish(state, None, EndReason::MutualAnnihilation, events);
        } else if white == 0 {
            finish(state, Some(Owner::Black), EndReason::Annihilation, events);
        } else {
            finish(state, Some(Owner::White), EndReason::Annihilation, events);
        }
        return;
    }
    if state.tick >= cfg.match_timeout_ticks() {
        if white > black {
            finish(state, Some(Owner::White), EndReason::Timeout, events);
        } else if white < black {
            finish(state, Some(Owner::Black), EndReason::Timeout, events);
        } else {
            finish(state, None, EndReason::Draw, events);
        }
    }
}

// ---------------------------------------------------------------------------
// The tick
// ---------------------------------------------------------------------------

/// Runs a tick in place. `None` where the clock or a health would leave its
/// range; the state is then abandoned halfway.
fn run_tick(
    state: &mut GameState,
    cfg: &SimulationConfig,
    chance: Double,
    rolls: &Vec<u64>,
) -> (r: Option<Vec<GameEvent>>)
    requires
        old(state).wf(),
        rolls@.len() == World::rolls_needed(old(state)@),
    ensures
        r is Some <==> World::tick_fits(old(state)@, *cfg, chance, rolls@),
        r matches Some(events) ==> final(state).wf() && World::of(*final(state), events@)
            == World::tick(old(state)@, *cfg, chance, rolls@),
{
    let mut events: Vec<GameEvent> = Vec::new();
    proof {
        assert(crate::events::event_views(events@) =~= Seq::empty());
    }
    if state.status != MatchStatus::Active {
        return Some(events);
    }
    if state.tick == u64::MAX {
        return None;
    }
    state.tick = state.tick + 1;
    proof {
        assert(World::of(*state, events@) == World::dawn(old(state)@));
    }
    resolve_movement(state, cfg, chance, rolls, &mut events);
    form_melee_locks(state, cfg, &mut events);
    if !process_melee_damage(state, cfg, &mut events) {
        return None;
    }
    if !process_artillery(state, cfg, &mut events) {
        return None;
    }
    cleanup_dead(state, &mut events);
    check_win(state, cfg, &mut events);
    Some(events)
}

/// How many rolls a tick of this state takes.
pub fn rolls_for_tick(state: &GameState) -> (r: usize)
    ensures
        r == World::rolls_needed(state@),
{
    if state.status == MatchStatus::Active {
        moving_units(state).len()
    } else {
        0
    }
}

/// Advances the world by one tick with the given rolls and returns the events.
pub fn tick_with_rolls(
    state: &mut GameState,
    cfg: &SimulationConfig,
    chance: Double,
    rolls: &Vec<u64>,
) -> (events: Vec<GameEvent>)
    requires
        old(state).wf(),
        rolls@.len() == World::rolls_needed(old(state)@),
        World::tick_fits(old(state)@, *cfg, chance, rolls@),
    ensures
        final(state).wf(),
        World::of(*final(state), events@) == World::tick(old(state)@, *cfg, chance, rolls@),
{
    run_tick(state, cfg, chance, rolls).unwrap()
}

/// Advances the world by one tick with the given rolls. Where the clock or a
/// health would leave its range, nothing changes and there is no result.
pub fn try_tick_with_rolls(
    state: &mut GameState,
    cfg: &SimulationConfig,
    chance: Double,
    rolls: &Vec<u64>,
) -> (r: Option<Vec<GameEvent>>)
    requires
        old(state).wf(),
        rolls@.len() == World::rolls_needed(old(state)@),
    ensures
        final(state).wf(),
        r is Some <==> World::tick_fits(old(state)@, *cfg, chance, rolls@),
        r is None ==> final(state)@ == old(state)@,
        r matches Some(events) ==> World::of(*final(state), events@) == World::tick(
            old(state)@,
            *cfg,
            chance,
            rolls@,
        ),
{
    let mut next = state.clone();
    match run_tick(&mut next, cfg, chance, rolls) {
        Some(events) => {
            *state = next;
            Some(events)
        },
        None => None,
    }
}

/// Advances the world by exactly one tick and returns the events. `chance` is
/// the probability that a queued move resolves in this tick; the dice come
/// from `rng`, which is left alone where nothing is to be rolled for.
pub fn tick(
    state: &mut GameState,
    cfg: &SimulationConfig,
    chance: Double,
    rng: &mut StdRng,
) -> (events: Vec<GameEvent>)
    requires
        old(state).wf(),
        forall|rolls: Seq<u64>|
            rolls.len() == World::rolls_needed(old(state)@) ==> #[trigger] World::tick_fits(
                old(state)@,
                *cfg,
                chance,
                rolls,
            ),
    ensures
        final(state).wf(),
        exists|rolls: Seq<u64>|
            rolls.len() == World::rolls_needed(old(state)@) && World::of(*final(state), events@)
                == #[trigger] World::tick(old(state)@, *cfg, chance, rolls),
        old(state).status != MatchStatus::Active ==> *final(rng) == *old(rng),
        World::rolls_needed(old(state)@) == 0 ==> *final(rng) == *old(rng),
{
    let n = rolls_for_tick(state);
    let rolls = draw_rolls(rng, n);
    tick_with_rolls(state, cfg, chance, &rolls)
}

/// As `tick`, for any state: where the clock or a health would leave its range,
/// nothing changes and there is no result.
pub fn try_tick(
    state: &mut GameState,
    cfg: &SimulationConfig,
    chance: Double,
    rng: &mut StdRng,
) -> (r: Option<Vec<GameEvent>>)
    requires
        old(state).wf(),
    ensures
        final(state).wf(),
        r is None ==> final(state)@ == old(state)@,
        exists|rolls: Seq<u64>|
            rolls.len() == World::rolls_needed(old(state)@) && (r is Some
                <==> #[trigger] World::tick_fits(old(state)@, *cfg, chance, rolls)) && (
            r matches Some(events) ==> World::of(*final(state), events@) == World::tick(
                old(state)@,
                *cfg,
                chance,
                rolls,
            )),
        old(state).status != MatchStatus::Active ==> *final(rng) == *old(rng),
        World::rolls_needed(old(state)@) == 0 ==> *final(rng) == *old(rng),
{
    let n = rolls_for_tick(state);
    let rolls = draw_rolls(rng, n);
    try_tick_with_rolls(state, cfg, chance, &rolls)
}

} // verus!

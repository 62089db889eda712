//! The rhythm of fights and guns over several ticks.

use crate::config::SimulationConfig;
use crate::double::Double;
use crate::events::EventView;
use crate::game_state::{StateView, Unit, UnitId, UnitKind, UnitState};
use crate::rules::World;
use vstd::prelude::*;

verus! {

impl EventView {
    /// A melee hit by this unit.
    pub open spec fn is_hit_by(self, id: UnitId) -> bool {
        self matches EventView::MeleeHit { attacker, .. } && attacker == id
    }

    /// A shot by this gun.
    pub open spec fn is_shot_by(self, id: UnitId) -> bool {
        self matches EventView::ArtilleryFired { unit, .. } && unit == id
    }
}

/// A unit lands a melee hit.
pub open spec fn struck(events: Seq<EventView>, id: UnitId) -> bool {
    exists|i: int| 0 <= i < events.len() && (#[trigger] events[i]).is_hit_by(id)
}

/// A gun fires.
pub open spec fn fired(events: Seq<EventView>, id: UnitId) -> bool {
    exists|i: int| 0 <= i < events.len() && (#[trigger] events[i]).is_shot_by(id)
}

proof fn lemma_one_more(events: Seq<EventView>, e: EventView, id: UnitId)
    ensures
        struck(events.push(e), id) <==> struck(events, id) || e.is_hit_by(id),
        fired(events.push(e), id) <==> fired(events, id) || e.is_shot_by(id),
{
    let more = events.push(e);
    assert(more[events.len() as int] == e);
    if struck(events, id) {
        let i = choose|i: int| 0 <= i < events.len() && (#[trigger] events[i]).is_hit_by(id);
        assert(more[i].is_hit_by(id));
    }
    if fired(events, id) {
        let i = choose|i: int| 0 <= i < events.len() && (#[trigger] events[i]).is_shot_by(id);
        assert(more[i].is_shot_by(id));
    }
    if struck(more, id) {
        let i = choose|i: int| 0 <= i < more.len() && (#[trigger] more[i]).is_hit_by(id);
        if i < events.len() {
            assert(events[i].is_hit_by(id));
        }
    }
    if fired(more, id) {
        let i = choose|i: int| 0 <= i < more.len() && (#[trigger] more[i]).is_shot_by(id);
        if i < events.len() {
            assert(events[i].is_shot_by(id));
        }
    }
}

proof fn lemma_other_phase(before: Seq<EventView>, after: Seq<EventView>, phase: int, id: UnitId)
    requires
        crate::progress::adds(before, after, phase),
    ensures
        phase != 4 ==> (struck(after, id) <==> struck(before, id)),
        phase != 5 ==> (fired(after, id) <==> fired(before, id)),
{
    if struck(before, id) {
        let i = choose|i: int| 0 <= i < before.len() && (#[trigger] before[i]).is_hit_by(id);
        assert(after[i].is_hit_by(id));
    }
    if fired(before, id) {
        let i = choose|i: int| 0 <= i < before.len() && (#[trigger] before[i]).is_shot_by(id);
        assert(after[i].is_shot_by(id));
    }
    if struck(after, id) {
        let i = choose|i: int| 0 <= i < after.len() && (#[trigger] after[i]).is_hit_by(id);
        if i < before.len() {
            assert(before[i].is_hit_by(id));
        }
    }
    if fired(after, id) {
        let i = choose|i: int| 0 <= i < after.len() && (#[trigger] after[i]).is_shot_by(id);
        if i < before.len() {
            assert(before[i].is_shot_by(id));
        }
    }
}

// ---------------------------------------------------------------------------
// Melee
// ---------------------------------------------------------------------------

/// A cooldown one tick on: it restarts when it has run out.
pub open spec fn next_cooldown(c: u32, full: u32) -> int {
    if c <= 1 {
        full as int
    } else {
        c - 1
    }
}

/// Two units are locked on each other, and nobody else is on either of them.
pub open spec fn duel(units: Map<UnitId, Unit>, a: UnitId, b: UnitId) -> bool {
    &&& a != b
    &&& units.dom().contains(a) && units.dom().contains(b)
    &&& units[a].state == UnitState::Locked && units[b].state == UnitState::Locked
    &&& units[a].melee_target == Some(b) && units[b].melee_target == Some(a)
    &&& forall|x: UnitId| #[trigger]
        units.dom().contains(x) && x != a && x != b ==> units[x].melee_target != Some(a)
            && units[x].melee_target != Some(b)
}

/// Every fight is a duel where records are consistent and locked units fight in
/// pairs.
pub proof fn law_fights_are_duels(units: Map<UnitId, Unit>, a: UnitId, b: UnitId)
    requires
        crate::laws_tick::all_sound(units),
        crate::laws_tick::paired(units),
        units.dom().contains(a),
        units[a].melee_target == Some(b),
    ensures
        duel(units, a, b),
{
    crate::laws_tick::lemma_only_opponent(units, a, b);
    assert forall|x: UnitId| #[trigger]
        units.dom().contains(x) && x != a && x != b implies units[x].melee_target != Some(a)
        && units[x].melee_target != Some(b) by {
        if units[x].melee_target is Some {
            crate::laws_tick::lemma_only_opponent(units, x, units[x].melee_target->0);
        }
    }
}

/// What one swing leaves of a locked unit's rhythm.
proof fn lemma_swing_rhythm(w: World, cfg: SimulationConfig, x: UnitId, y: UnitId, a: UnitId)
    requires
        w.has(a),
        w.unit(a).state == UnitState::Locked,
        x == a ==> w.has(y),
    ensures
        ({
            let v = w.swing(cfg, x, y);
            let c = w.unit(a).attack_cooldown;
            &&& v.state.units.dom() == w.state.units.dom()
            &&& v.unit(a).state == UnitState::Locked
            &&& v.unit(a).attack_cooldown == (if x == a {
                next_cooldown(c, cfg.melee_ticks())
            } else {
                c as int
            })
            &&& struck(v.events, a) <==> struck(w.events, a) || x == a && c <= 1
        }),
{
    let v = w.swing(cfg, x, y);
    assert(v.state.units.dom() =~= w.state.units.dom());
    if w.lands(x, y) {
        lemma_one_more(w.events, v.events.last(), a);
        assert(v.events == w.events.push(v.events.last()));
    }
}

/// The bout `p` is among the first `n`.
pub open spec fn met(pairs: Seq<(UnitId, UnitId)>, p: (UnitId, UnitId), n: int) -> bool {
    exists|m: int| 0 <= m < n && #[trigger] pairs[m] == p
}

/// What the bouts leave of a unit that is in one of them only.
proof fn lemma_bout_rhythm(
    w: World,
    cfg: SimulationConfig,
    pairs: Seq<(UnitId, UnitId)>,
    n: int,
    a: UnitId,
    b: UnitId,
)
    requires
        0 <= n <= pairs.len(),
        w.has(a),
        w.has(b),
        a != b,
        w.unit(a).state == UnitState::Locked,
        forall|k: int|
            0 <= k < pairs.len() && ((#[trigger] pairs[k]).0 == a || pairs[k].1 == a) ==> pairs[k]
                == World::bout(a, b),
    ensures
        ({
            let v = w.after_bouts(cfg, pairs, n);
            let c = w.unit(a).attack_cooldown;
            let fought = met(pairs, World::bout(a, b), n);
            &&& v.state.units.dom() == w.state.units.dom()
            &&& v.unit(a).state == UnitState::Locked
            &&& v.unit(a).attack_cooldown == (if fought {
                next_cooldown(c, cfg.melee_ticks())
            } else {
                c as int
            })
            &&& struck(v.events, a) <==> struck(w.events, a) || fought && c <= 1
        }),
    decreases n,
{
    if n > 0 {
        lemma_bout_rhythm(w, cfg, pairs, n - 1, a, b);
        let before = w.after_bouts(cfg, pairs, n - 1);
        let p = World::bout(a, b);
        let q = pairs[n - 1];
        assert(met(pairs, p, n) <==> met(pairs, p, n - 1) || q == p) by {
            if met(pairs, p, n - 1) {
                let m = choose|m: int| 0 <= m < n - 1 && #[trigger] pairs[m] == p;
                assert(pairs[m] == p);
            }
        }
        if World::repeated(pairs, n - 1) {
            if q == p {
                let m = choose|m: int| 0 <= m < n - 1 && #[trigger] pairs[m] == q;
                assert(pairs[m] == p);
                assert(met(pairs, p, n - 1));
            }
        } else {
            if q == p && met(pairs, p, n - 1) {
                let m = choose|m: int| 0 <= m < n - 1 && #[trigger] pairs[m] == p;
                assert(World::repeated(pairs, n - 1));
            }
            assert(before.has(a) && before.has(b));
            lemma_swing_rhythm(before, cfg, q.0, q.1, a);
            lemma_swing_rhythm(before.swing(cfg, q.0, q.1), cfg, q.1, q.0, a);
        }
    }
}

/// What the melee phase leaves of a fight's rhythm.
proof fn lemma_melee_rhythm(w: World, cfg: SimulationConfig, a: UnitId, b: UnitId)
    requires
        duel(w.state.units, a, b),
    ensures
        ({
            let v = w.melee(cfg);
            let c = w.unit(a).attack_cooldown;
            &&& v.unit(a).attack_cooldown == next_cooldown(c, cfg.melee_ticks())
            &&& struck(v.events, a) <==> struck(w.events, a) || c <= 1
        }),
{
    let units = w.state.units;
    crate::roster::lemma_id_order(units);
    crate::rules::lemma_select(units, World::fights(), crate::roster::id_order(units));
    let ids = World::select(units, World::fights());
    let pairs = w.bouts();
    let p = World::bout(a, b);
    assert forall|k: int|
        0 <= k < pairs.len() && ((#[trigger] pairs[k]).0 == a || pairs[k].1 == a) implies pairs[k]
        == p by {
        let id = ids[k];
        assert(units.dom().contains(ids[k]) && World::fights()(units[ids[k]]));
        let other = units[id].melee_target->0;
        assert(pairs[k] == World::bout(id, other));
    }
    assert(World::fights()(units[a]));
    assert(ids.contains(a));
    let k = choose|k: int| 0 <= k < ids.len() && ids[k] == a;
    assert(pairs[k] == p);
    assert(met(pairs, p, pairs.len() as int));
    lemma_bout_rhythm(w, cfg, pairs, pairs.len() as int, a, b);
}

/// A duel lasts through movement and locks.
proof fn lemma_duel_after_locks(
    w0: World,
    w1: World,
    w2: World,
    cfg: SimulationConfig,
    a: UnitId,
    b: UnitId,
)
    requires
        duel(w0.state.units, a, b),
        crate::progress::moved(w0, w1, cfg.pawn_move_range),
        crate::progress::locked(w1, w2, cfg.melee_ticks()),
    ensures
        duel(w2.state.units, a, b),
        w2.unit(a) == w0.unit(a),
        w2.unit(b) == w0.unit(b),
{
    assert forall|x: UnitId| #[trigger] w0.state.units.dom().contains(x) implies (w0.unit(x).state
        == UnitState::Locked ==> w1.unit(x) == w0.unit(x) && w2.unit(x) == w0.unit(x)) && (w2.unit(
        x,
    ).melee_target == w0.unit(x).melee_target || exists|other: UnitId|
        w2.unit(x).melee_target == Some(other) && w1.unit(other).state != UnitState::Locked) by {
        assert(crate::progress::may_move(
            w0.state,
            cfg.pawn_move_range,
            w0.unit(x),
            w1.unit(x),
        ));
        assert(w1.state.units.dom().contains(x));
        assert(crate::progress::may_lock(w1, w2, cfg.melee_ticks(), x));
    }
    assert(w0.state.units.dom().contains(a) && w0.state.units.dom().contains(b));
    assert forall|x: UnitId| #[trigger]
        w2.state.units.dom().contains(x) && x != a && x != b implies w2.unit(x).melee_target
        != Some(a) && w2.unit(x).melee_target != Some(b) by {
        assert(w0.state.units.dom().contains(x));
    }
}

/// A duel lasts through a phase of fighting.
proof fn lemma_duel_after_fighting(
    w: World,
    v: World,
    cfg: SimulationConfig,
    phase: int,
    a: UnitId,
    b: UnitId,
)
    requires
        duel(w.state.units, a, b),
        crate::progress::fought(w, v, cfg, phase),
    ensures
        duel(v.state.units, a, b),
{
    assert(w.state.units.dom().contains(a) && w.state.units.dom().contains(b));
    assert(v.unit(a).state == w.unit(a).state && v.unit(b).state == w.unit(b).state);
    assert forall|x: UnitId| #[trigger]
        v.state.units.dom().contains(x) && x != a && x != b implies v.unit(x).melee_target != Some(a)
        && v.unit(x).melee_target != Some(b) by {
        assert(w.state.units.dom().contains(x));
    }
}

/// A duel lasts through the cleanup if both live.
proof fn lemma_duel_after_cleanup(w: World, v: World, a: UnitId, b: UnitId)
    requires
        duel(w.state.units, a, b),
        crate::progress::cleaned(w, v),
        v.has(a),
        v.has(b),
    ensures
        duel(v.state.units, a, b),
        v.unit(a) == w.unit(a),
        v.unit(b) == w.unit(b),
{
    assert(v.state.units.dom().contains(a) && v.state.units.dom().contains(b));
    assert forall|dead: UnitId| #[trigger] w.has(dead) && w.unit(dead).hp <= 0 implies w.unit(
        dead,
    ).melee_target != Some(a) && w.unit(dead).melee_target != Some(b) by {
        assert(w.state.units.dom().contains(dead));
    }
    assert forall|x: UnitId| #[trigger]
        v.state.units.dom().contains(x) && x != a && x != b implies v.unit(x).melee_target != Some(a)
        && v.unit(x).melee_target != Some(b) by {
        assert(w.state.units.dom().contains(x));
    }
}

/// A fight goes on: in a tick, each side's cooldown ticks down, and the hit
/// lands if and only if it runs out. While both live they stay locked on each
/// other, on their tiles.
pub proof fn law_fights_go_on(
    s: StateView,
    cfg: SimulationConfig,
    chance: Double,
    rolls: Seq<u64>,
    a: UnitId,
    b: UnitId,
)
    requires
        crate::laws_tick::playable(s, cfg, chance, rolls),
        duel(s.units, a, b),
    ensures
        ({
            let t = World::tick(s, cfg, chance, rolls);
            let c = s.units[a].attack_cooldown;
            &&& struck(t.events, a) <==> c <= 1
            &&& t.has(a) && t.has(b) ==> duel(t.state.units, a, b) && t.unit(a).attack_cooldown
                == next_cooldown(c, cfg.melee_ticks()) && t.unit(a).pos == s.units[a].pos
        }),
{
    let w0 = World::dawn(s);
    let w1 = w0.movement(cfg, chance, rolls);
    let w2 = w1.locking(cfg);
    let w3 = w2.melee(cfg);
    let w4 = w3.artillery(cfg);
    let w5 = w4.cleanup();
    let t = World::tick(s, cfg, chance, rolls);
    crate::laws_tick::lemma_phases(s, cfg, chance, rolls);
    lemma_duel_after_locks(w0, w1, w2, cfg, a, b);
    lemma_melee_rhythm(w2, cfg, a, b);
    lemma_duel_after_fighting(w2, w3, cfg, 4, a, b);
    lemma_duel_after_fighting(w3, w4, cfg, 5, a, b);
    assert(!struck(w0.events, a));
    lemma_other_phase(w0.events, w1.events, 2, a);
    lemma_other_phase(w1.events, w2.events, 3, a);
    lemma_other_phase(w3.events, w4.events, 5, a);
    lemma_other_phase(w4.events, w5.events, 6, a);
    lemma_other_phase(w5.events, t.events, 7, a);
    assert(w2.state.units.dom().contains(a));
    assert(w3.state.units.dom().contains(a));
    assert(w4.unit(a).attack_cooldown == w3.unit(a).attack_cooldown);
    assert(w4.unit(a).pos == w3.unit(a).pos && w3.unit(a).pos == w2.unit(a).pos);
    if t.has(a) && t.has(b) {
        lemma_duel_after_cleanup(w4, w5, a, b);
    }
}

// ---------------------------------------------------------------------------
// Runs of ticks
// ---------------------------------------------------------------------------

/// A run of ticks: `states[k + 1]` is what a tick with `rolls[k]` makes of
/// `states[k]`.
pub struct Run {
    pub cfg: SimulationConfig,
    pub chance: Double,
    pub states: Seq<StateView>,
    pub rolls: Seq<Seq<u64>>,
}

impl Run {
    /// The world after tick `k`, with the events of that tick.
    pub open spec fn world(self, k: int) -> World {
        World::tick(self.states[k], self.cfg, self.chance, self.rolls[k])
    }

    /// Tick `k` can be taken and leads to the next state.
    pub open spec fn ticks(self, k: int) -> bool {
        &&& crate::laws_tick::playable(self.states[k], self.cfg, self.chance, self.rolls[k])
        &&& self.states[k + 1] == self.world(k).state
    }

    /// Both units are on the board before tick `k`.
    pub open spec fn both(self, k: int, a: UnitId, b: UnitId) -> bool {
        self.states[k].units.dom().contains(a) && self.states[k].units.dom().contains(b)
    }
}

/// The state of a running fight `k - i` ticks after a hit.
proof fn lemma_running_fight(run: Run, a: UnitId, b: UnitId, i: int, k: int)
    requires
        i < k,
        forall|m: int| i <= m < k ==> #[trigger] run.ticks(m),
        forall|m: int| i <= m <= k ==> #[trigger] run.both(m, a, b),
        duel(run.states[i].units, a, b),
        struck(run.world(i).events, a),
    ensures
        duel(run.states[k].units, a, b),
        k - i <= run.cfg.melee_ticks() ==> run.states[k].units[a].attack_cooldown
            == run.cfg.melee_ticks() - (k - i - 1),
    decreases k - i,
{
    if k - 1 > i {
        lemma_running_fight(run, a, b, i, k - 1);
    }
    assert(run.ticks(k - 1));
    assert(run.both(k - 1, a, b) && run.both(k, a, b));
    law_fights_go_on(
        run.states[k - 1],
        run.cfg,
        run.chance,
        run.rolls[k - 1],
        a,
        b,
    );
}

/// Hits keep their interval: in a duel, two successive hits of a unit lie
/// exactly the melee cooldown apart, whatever else goes on on the board.
pub proof fn law_hits_are_a_cooldown_apart(run: Run, a: UnitId, b: UnitId, i: int, j: int)
    requires
        i < j,
        forall|k: int| i <= k <= j ==> #[trigger] run.ticks(k),
        forall|k: int| i <= k <= j ==> #[trigger] run.both(k, a, b),
        duel(run.states[i].units, a, b),
        struck(run.world(i).events, a),
        struck(run.world(j).events, a),
        forall|k: int| i < k < j ==> !struck((#[trigger] run.world(k)).events, a),
    ensures
        j - i == run.cfg.melee_ticks(),
{
    let full = run.cfg.melee_ticks() as int;
    lemma_running_fight(run, a, b, i, j);
    assert(run.ticks(j) && run.both(j, a, b));
    law_fights_go_on(run.states[j], run.cfg, run.chance, run.rolls[j], a, b);
    if j - i > full {
        let k = i + full;
        lemma_running_fight(run, a, b, i, k);
        assert(run.ticks(k) && run.both(k, a, b));
        law_fights_go_on(run.states[k], run.cfg, run.chance, run.rolls[k], a, b);
        assert(struck(run.world(k).events, a));
    }
}

/// Level fights stay level: two units in a duel whose cooldowns are equal land
/// their hits in the same ticks, for as long as both live, and their cooldowns
/// stay equal.
pub proof fn law_level_fights_stay_level(run: Run, a: UnitId, b: UnitId, i: int, k: int)
    requires
        i <= k,
        forall|m: int| i <= m <= k ==> #[trigger] run.ticks(m),
        forall|m: int| i <= m <= k ==> #[trigger] run.both(m, a, b),
        duel(run.states[i].units, a, b),
        run.states[i].units[a].attack_cooldown == run.states[i].units[b].attack_cooldown,
    ensures
        duel(run.states[k].units, a, b),
        run.states[k].units[a].attack_cooldown == run.states[k].units[b].attack_cooldown,
        struck(run.world(k).events, a) <==> struck(run.world(k).events, b),
    decreases k - i,
{
    assert(run.ticks(k) && run.both(k, a, b));
    if k > i {
        law_level_fights_stay_level(run, a, b, i, k - 1);
        assert(run.ticks(k - 1) && run.both(k - 1, a, b));
        let s = run.states[k - 1];
        law_fights_go_on(s, run.cfg, run.chance, run.rolls[k - 1], a, b);
        law_fights_go_on(s, run.cfg, run.chance, run.rolls[k - 1], b, a);
    }
    law_fights_go_on(run.states[k], run.cfg, run.chance, run.rolls[k], a, b);
    law_fights_go_on(run.states[k], run.cfg, run.chance, run.rolls[k], b, a);
}

/// A lock begins a level duel, whatever the kinds of the two: both or neither
/// land a hit in the tick in which they lock, and if both live through it they
/// are in a duel with equal cooldowns.
pub proof fn law_locks_begin_level_duels(
    s: StateView,
    cfg: SimulationConfig,
    chance: Double,
    rolls: Seq<u64>,
    a: UnitId,
    b: UnitId,
)
    requires
        crate::laws_tick::playable(s, cfg, chance, rolls),
        crate::laws_tick::all_sound(s.units),
        crate::laws_tick::paired(s.units),
        ({
            let moved = World::dawn(s).movement(cfg, chance, rolls);
            crate::laws_phases::lock_up(moved, moved.locking(cfg), a, b)
        }),
    ensures
        ({
            let t = World::tick(s, cfg, chance, rolls);
            &&& struck(t.events, a) <==> struck(t.events, b)
            &&& t.has(a) && t.has(b) ==> duel(t.state.units, a, b) && t.unit(a).attack_cooldown
                == t.unit(b).attack_cooldown
        }),
{
    let w0 = World::dawn(s);
    let w1 = w0.movement(cfg, chance, rolls);
    let w2 = w1.locking(cfg);
    let w3 = w2.melee(cfg);
    let w4 = w3.artillery(cfg);
    let w5 = w4.cleanup();
    let t = World::tick(s, cfg, chance, rolls);
    crate::laws_tick::lemma_phases(s, cfg, chance, rolls);
    crate::laws_tick::lemma_sound_before_deaths(s, cfg, chance, rolls);
    crate::laws_phases::law_locks_start_level(w1, cfg, a, b);
    assert(w2.state.units.dom().contains(a) && w2.state.units.dom().contains(b));
    law_fights_are_duels(w2.state.units, a, b);
    law_fights_are_duels(w2.state.units, b, a);
    lemma_melee_rhythm(w2, cfg, a, b);
    lemma_melee_rhythm(w2, cfg, b, a);
    lemma_duel_after_fighting(w2, w3, cfg, 4, a, b);
    lemma_duel_after_fighting(w3, w4, cfg, 5, a, b);
    assert(!struck(w0.events, a) && !struck(w0.events, b));
    lemma_other_phase(w0.events, w1.events, 2, a);
    lemma_other_phase(w1.events, w2.events, 3, a);
    lemma_other_phase(w3.events, w4.events, 5, a);
    lemma_other_phase(w4.events, w5.events, 6, a);
    lemma_other_phase(w5.events, t.events, 7, a);
    lemma_other_phase(w0.events, w1.events, 2, b);
    lemma_other_phase(w1.events, w2.events, 3, b);
    lemma_other_phase(w3.events, w4.events, 5, b);
    lemma_other_phase(w4.events, w5.events, 6, b);
    lemma_other_phase(w5.events, t.events, 7, b);
    assert(w3.state.units.dom().contains(a) && w3.state.units.dom().contains(b));
    assert(w4.unit(a).attack_cooldown == w3.unit(a).attack_cooldown);
    assert(w4.unit(b).attack_cooldown == w3.unit(b).attack_cooldown);
    if t.has(a) && t.has(b) {
        lemma_duel_after_cleanup(w4, w5, a, b);
    }
}

// ---------------------------------------------------------------------------
// Guns
// ---------------------------------------------------------------------------

/// A gun's cooldown one tick on: it restarts with a shot, and waits at zero for
/// a target.
pub open spec fn next_load(c: u32, sees: bool, full: u32) -> int {
    if c > 1 {
        c - 1
    } else if sees {
        full as int
    } else {
        0
    }
}

/// An enemy of the gun is in its line of sight.
pub open spec fn sees(w: World, cfg: SimulationConfig, gun: UnitId) -> bool {
    w.state.scan(w.unit(gun).pos, cfg.artillery_range, w.unit(gun).owner) is Some
}

/// What the turns of the guns leave of one of them.
proof fn lemma_gun_rhythm(w: World, cfg: SimulationConfig, ids: Seq<UnitId>, n: int, gun: UnitId)
    requires
        0 <= n <= ids.len(),
        w.state.keyed(),
        w.has(gun),
        forall|i: int, j: int| 0 <= i < j < ids.len() ==> ids[i] < ids[j],
        forall|i: int| 0 <= i < ids.len() ==> w.has(#[trigger] ids[i]),
    ensures
        ({
            let v = w.after_shots(cfg, ids, n);
            let c = w.unit(gun).fire_cooldown;
            let acted = ids.take(n).contains(gun);
            &&& crate::laws_board::same_figures(w.state, v.state)
            &&& v.state.keyed()
            &&& v.unit(gun).fire_cooldown == (if acted {
                next_load(c, sees(w, cfg, gun), cfg.artillery_ticks())
            } else {
                c as int
            })
            &&& fired(v.events, gun) <==> fired(w.events, gun) || acted && c <= 1 && sees(
                w,
                cfg,
                gun,
            )
        }),
    decreases n,
{
    if n > 0 {
        lemma_gun_rhythm(w, cfg, ids, n - 1, gun);
        let before = w.after_shots(cfg, ids, n - 1);
        let v = w.after_shots(cfg, ids, n);
        let id = ids[n - 1];
        let u = before.unit(id);
        let done = ids.take(n - 1);
        assert(before.state.units.dom().contains(id));
        crate::game_state::lemma_scan_hits(before.state, u.pos, cfg.artillery_range, u.owner);
        crate::laws_board::law_sight_depends_on_figures(
            w.state,
            before.state,
            w.unit(gun).pos,
            cfg.artillery_range,
            w.unit(gun).owner,
        );
        assert(v.state.units.dom() =~= before.state.units.dom());
        assert(ids.take(n) =~= done.push(id));
        assert(ids.take(n).contains(gun) <==> done.contains(gun) || id == gun) by {
            if done.contains(gun) {
                let k = choose|k: int| 0 <= k < done.len() && done[k] == gun;
                assert(ids.take(n)[k] == gun);
            }
            assert(ids.take(n)[n - 1] == id);
        }
        if id == gun && done.contains(gun) {
            let k = choose|k: int| 0 <= k < done.len() && done[k] == gun;
            assert(ids[k] == gun);
        }
        if before.aim(cfg, id) is Some {
            lemma_one_more(before.events, v.events.last(), gun);
            assert(v.events == before.events.push(v.events.last()));
        }
        assert(w.state.units.dom().contains(gun));
    }
}

/// A gun keeps its rhythm: while it is free its cooldown ticks down, and it
/// fires if and only if the cooldown has run out and an enemy is in sight. In a
/// fight it neither cools down nor fires.
pub proof fn law_guns_fire_when_loaded(
    s: StateView,
    cfg: SimulationConfig,
    chance: Double,
    rolls: Seq<u64>,
    gun: UnitId,
)
    requires
        crate::laws_tick::playable(s, cfg, chance, rolls),
        s.units.dom().contains(gun),
        s.units[gun].kind == UnitKind::Artillery,
    ensures
        ({
            let w = World::before_melee(s, cfg, chance, rolls);
            let t = World::tick(s, cfg, chance, rolls);
            let c = s.units[gun].fire_cooldown;
            let free = w.unit(gun).state != UnitState::Locked;
            let seen = sees(w, cfg, gun);
            &&& fired(t.events, gun) <==> free && c <= 1 && seen
            &&& t.has(gun) ==> t.unit(gun).fire_cooldown == (if free {
                next_load(c, seen, cfg.artillery_ticks())
            } else {
                c as int
            })
        }),
{
    let w0 = World::dawn(s);
    let w1 = w0.movement(cfg, chance, rolls);
    let w2 = w1.locking(cfg);
    let w3 = w2.melee(cfg);
    let w4 = w3.artillery(cfg);
    let w5 = w4.cleanup();
    let t = World::tick(s, cfg, chance, rolls);
    crate::laws_tick::lemma_phases(s, cfg, chance, rolls);
    assert(w0.state.units.dom().contains(gun));
    assert(w1.state.units.dom().contains(gun));
    assert(w2.state.units.dom().contains(gun));
    assert(w3.state.units.dom().contains(gun));
    assert(crate::progress::may_move(w0.state, cfg.pawn_move_range, w0.unit(gun), w1.unit(gun)));
    assert(crate::progress::may_lock(w1, w2, cfg.melee_ticks(), gun));
    assert(w3.unit(gun).fire_cooldown == s.units[gun].fire_cooldown);
    assert(w3.unit(gun).kind == UnitKind::Artillery);
    assert(crate::laws_board::same_figures(w2.state, w3.state));
    crate::laws_board::law_sight_depends_on_figures(
        w2.state,
        w3.state,
        w2.unit(gun).pos,
        cfg.artillery_range,
        w2.unit(gun).owner,
    );
    let units = w3.state.units;
    crate::roster::lemma_id_order(units);
    crate::rules::lemma_select(units, World::mans_gun(), crate::roster::id_order(units));
    let ids = w3.gunners();
    lemma_gun_rhythm(w3, cfg, ids, ids.len() as int, gun);
    assert(ids.take(ids.len() as int) =~= ids);
    assert(ids.contains(gun) <==> w3.unit(gun).state != UnitState::Locked) by {
        if ids.contains(gun) {
            let k = choose|k: int| 0 <= k < ids.len() && ids[k] == gun;
            assert(World::mans_gun()(units[ids[k]]));
        }
        if w3.unit(gun).state != UnitState::Locked {
            assert(World::mans_gun()(units[gun]));
        }
    }
    assert(!fired(w0.events, gun));
    lemma_other_phase(w0.events, w1.events, 2, gun);
    lemma_other_phase(w1.events, w2.events, 3, gun);
    lemma_other_phase(w2.events, w3.events, 4, gun);
    lemma_other_phase(w4.events, w5.events, 6, gun);
    lemma_other_phase(w5.events, t.events, 7, gun);
    if t.has(gun) {
        assert(w5.state.units.dom().contains(gun));
        assert(w5.unit(gun).fire_cooldown == w4.unit(gun).fire_cooldown);
    }
}

impl Run {
    /// The gun is on the board before tick `k`.
    pub open spec fn armed(self, k: int, gun: UnitId) -> bool {
        &&& self.states[k].units.dom().contains(gun)
        &&& self.states[k].units[gun].kind == UnitKind::Artillery
    }

    /// In tick `k` the gun is in no fight and has an enemy in sight.
    pub open spec fn engaged(self, k: int, gun: UnitId) -> bool {
        let w = World::before_melee(self.states[k], self.cfg, self.chance, self.rolls[k]);
        w.unit(gun).state != UnitState::Locked && sees(w, self.cfg, gun)
    }
}

/// A gun's cooldown `k - i` ticks after a shot.
proof fn lemma_reloading(run: Run, gun: UnitId, i: int, k: int)
    requires
        i < k,
        forall|m: int| i <= m < k ==> #[trigger] run.ticks(m),
        forall|m: int| i <= m <= k ==> #[trigger] run.armed(m, gun),
        fired(run.world(i).events, gun),
    ensures
        k - i <= run.cfg.artillery_ticks() ==> run.states[k].units[gun].fire_cooldown
            >= run.cfg.artillery_ticks() - (k - i - 1),
        k - i <= run.cfg.artillery_ticks() && (forall|m: int|
            i < m < k ==> #[trigger] run.engaged(m, gun)) ==> run.states[k].units[gun].fire_cooldown
            == run.cfg.artillery_ticks() - (k - i - 1),
    decreases k - i,
{
    if k - 1 > i {
        lemma_reloading(run, gun, i, k - 1);
    }
    assert(run.ticks(k - 1));
    assert(run.armed(k - 1, gun) && run.armed(k, gun));
    law_guns_fire_when_loaded(
        run.states[k - 1],
        run.cfg,
        run.chance,
        run.rolls[k - 1],
        gun,
    );
    if forall|m: int| i < m < k ==> #[trigger] run.engaged(m, gun) {
        if k - 1 > i {
            assert(run.engaged(k - 1, gun));
        }
    }
}

/// Shots keep their interval: two successive shots of a gun lie at least the
/// artillery cooldown apart, and exactly that far where the gun is in no fight
/// and has an enemy in sight all the while.
pub proof fn law_shots_are_a_cooldown_apart(run: Run, gun: UnitId, i: int, j: int)
    requires
        i < j,
        forall|k: int| i <= k <= j ==> #[trigger] run.ticks(k),
        forall|k: int| i <= k <= j ==> #[trigger] run.armed(k, gun),
        fired(run.world(i).events, gun),
        fired(run.world(j).events, gun),
        forall|k: int| i < k < j ==> !fired((#[trigger] run.world(k)).events, gun),
    ensures
        j - i >= run.cfg.artillery_ticks(),
        (forall|k: int| i < k < j ==> #[trigger] run.engaged(k, gun)) ==> j - i
            == run.cfg.artillery_ticks(),
{
    let full = run.cfg.artillery_ticks() as int;
    lemma_reloading(run, gun, i, j);
    assert(run.ticks(j) && run.armed(j, gun));
    law_guns_fire_when_loaded(run.states[j], run.cfg, run.chance, run.rolls[j], gun);
    if j - i > full && (forall|k: int| i < k < j ==> #[trigger] run.engaged(k, gun)) {
        let k = i + full;
        lemma_reloading(run, gun, i, k);
        assert(run.ticks(k) && run.armed(k, gun));
        assert(run.engaged(k, gun));
        law_guns_fire_when_loaded(run.states[k], run.cfg, run.chance, run.rolls[k], gun);
        assert(fired(run.world(k).events, gun));
    }
}

} // verus!

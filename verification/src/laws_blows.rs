//! What the blows of a tick come to: melee, artillery, deaths and the outcome.

use crate::config::SimulationConfig;
use crate::double::Double;
use crate::events::EventView;
use crate::game_state::{
    EndReason, MatchStatus, Owner, StateView, Tile, Unit, UnitId, UnitKind, UnitState,
};
use crate::rules::World;
use vstd::prelude::*;

verus! {

// ---------------------------------------------------------------------------
// Melee
// ---------------------------------------------------------------------------

/// One swing: a unit that is not there, or in no fight, does nothing. One whose
/// cooldown is still running has it run down by one. One whose cooldown has run
/// out hits whoever it swings at, who loses the melee damage, and starts a new
/// cooldown; with nobody to hit it waits at zero.
pub proof fn law_swing(w: World, cfg: SimulationConfig, a: UnitId, b: UnitId)
    requires
        a != b,
    ensures
        ({
            let v = w.swing(cfg, a, b);
            let c = w.state.units[a].attack_cooldown;
            let swings = w.state.units.dom().contains(a) && w.state.units[a].state
                == UnitState::Locked;
            let hits = swings && c <= 1 && w.state.units.dom().contains(b);
            let hp = (w.state.units[b].hp - cfg.melee_damage) as i32;
            &&& crate::laws_phases::only_units(w, v)
            &&& v.state.units.dom() == w.state.units.dom()
            &&& forall|o: UnitId| o != a && o != b ==> #[trigger] v.state.units[o]
                == w.state.units[o]
            &&& !swings ==> v == w
            &&& swings ==> v.state.units[a] == (Unit {
                attack_cooldown: if c > 1 {
                    (c - 1) as u32
                } else if hits {
                    cfg.melee_cooldown_secs.ticks(cfg.tick_rate) as u32
                } else {
                    0
                },
                ..w.state.units[a]
            })
            &&& !hits ==> v.state.units[b] == w.state.units[b] && v.events == w.events
            &&& hits ==> v.state.units[b] == (Unit { hp, ..w.state.units[b] }) && v.events
                == w.events.push(
                EventView::MeleeHit {
                    attacker: a,
                    defender: b,
                    damage: cfg.melee_damage,
                    hp_left: hp,
                },
            )
        }),
{
    let v = w.swing(cfg, a, b);
    crate::laws_time::law_cooldowns_and_timeout(cfg);
    assert(v.state.units.dom() =~= w.state.units.dom());
}

/// What a bout leaves of a unit: its own cooldown runs down, or starts anew
/// after its hit; and it has lost the melee damage if its opponent's cooldown
/// had run out.
pub open spec fn traded(u: Unit, foe: Unit, cfg: SimulationConfig) -> Unit {
    Unit {
        attack_cooldown: if u.attack_cooldown > 1 {
            (u.attack_cooldown - 1) as u32
        } else {
            cfg.melee_cooldown_secs.ticks(cfg.tick_rate) as u32
        },
        hp: if foe.attack_cooldown > 1 {
            u.hp
        } else {
            (u.hp - cfg.melee_damage) as i32
        },
        ..u
    }
}

proof fn lemma_exchange(w: World, cfg: SimulationConfig, a: UnitId, b: UnitId)
    requires
        a != b,
        w.has(a),
        w.has(b),
        w.unit(a).state == UnitState::Locked,
        w.unit(b).state == UnitState::Locked,
    ensures
        ({
            let v = w.exchange(cfg, (a, b));
            let first = EventView::MeleeHit {
                attacker: a,
                defender: b,
                damage: cfg.melee_damage,
                hp_left: (w.unit(b).hp - cfg.melee_damage) as i32,
            };
            let second = EventView::MeleeHit {
                attacker: b,
                defender: a,
                damage: cfg.melee_damage,
                hp_left: (w.unit(a).hp - cfg.melee_damage) as i32,
            };
            let mid = if w.unit(a).attack_cooldown <= 1 {
                w.events.push(first)
            } else {
                w.events
            };
            &&& v.unit(a) == traded(w.unit(a), w.unit(b), cfg)
            &&& v.unit(b) == traded(w.unit(b), w.unit(a), cfg)
            &&& v.state.units.dom() == w.state.units.dom()
            &&& forall|o: UnitId| o != a && o != b ==> #[trigger] v.unit(o) == w.unit(o)
            &&& v.events == (if w.unit(b).attack_cooldown <= 1 {
                mid.push(second)
            } else {
                mid
            })
        }),
{
    law_swing(w, cfg, a, b);
    law_swing(w.swing(cfg, a, b), cfg, b, a);
}

/// What the bouts leave of two units that fight only each other.
proof fn lemma_bout_result(
    w: World,
    cfg: SimulationConfig,
    pairs: Seq<(UnitId, UnitId)>,
    n: int,
    a: UnitId,
    b: UnitId,
)
    requires
        0 <= n <= pairs.len(),
        a < b,
        w.has(a),
        w.has(b),
        w.unit(a).state == UnitState::Locked,
        w.unit(b).state == UnitState::Locked,
        forall|k: int|
            0 <= k < pairs.len() && ((#[trigger] pairs[k]).0 == a || pairs[k].1 == a || pairs[k].0
                == b || pairs[k].1 == b) ==> pairs[k] == (a, b),
    ensures
        ({
            let v = w.after_bouts(cfg, pairs, n);
            let fought = crate::laws_fight::met(pairs, (a, b), n);
            &&& v.has(a) && v.has(b)
            &&& v.unit(a) == (if fought {
                traded(w.unit(a), w.unit(b), cfg)
            } else {
                w.unit(a)
            })
            &&& v.unit(b) == (if fought {
                traded(w.unit(b), w.unit(a), cfg)
            } else {
                w.unit(b)
            })
        }),
    decreases n,
{
    if n > 0 {
        lemma_bout_result(w, cfg, pairs, n - 1, a, b);
        let before = w.after_bouts(cfg, pairs, n - 1);
        let p = (a, b);
        let q = pairs[n - 1];
        assert(crate::laws_fight::met(pairs, p, n) <==> crate::laws_fight::met(pairs, p, n - 1) || q
            == p) by {
            if crate::laws_fight::met(pairs, p, n - 1) {
                let m = choose|m: int| 0 <= m < n - 1 && #[trigger] pairs[m] == p;
                assert(pairs[m] == p);
            }
        }
        if World::repeated(pairs, n - 1) {
            if q == p {
                let m = choose|m: int| 0 <= m < n - 1 && #[trigger] pairs[m] == q;
                assert(pairs[m] == p);
                assert(crate::laws_fight::met(pairs, p, n - 1));
            }
        } else {
            if q == p {
                if crate::laws_fight::met(pairs, p, n - 1) {
                    let m = choose|m: int| 0 <= m < n - 1 && #[trigger] pairs[m] == p;
                    assert(World::repeated(pairs, n - 1));
                }
                lemma_exchange(before, cfg, a, b);
            } else {
                assert(q.0 != a && q.1 != a && q.0 != b && q.1 != b);
                lemma_aside(before, cfg, q.0, q.1, a);
                lemma_aside(before, cfg, q.0, q.1, b);
                lemma_aside(before.swing(cfg, q.0, q.1), cfg, q.1, q.0, a);
                lemma_aside(before.swing(cfg, q.0, q.1), cfg, q.1, q.0, b);
            }
        }
    }
}

/// A swing leaves everyone else alone.
proof fn lemma_aside(w: World, cfg: SimulationConfig, x: UnitId, y: UnitId, o: UnitId)
    requires
        o != x,
        o != y,
    ensures
        w.swing(cfg, x, y).unit(o) == w.unit(o),
        w.swing(cfg, x, y).has(o) == w.has(o),
{
}

/// Whoever is in none of the bouts is left alone by them.
proof fn lemma_bystander(
    w: World,
    cfg: SimulationConfig,
    pairs: Seq<(UnitId, UnitId)>,
    n: int,
    o: UnitId,
)
    requires
        0 <= n <= pairs.len(),
        forall|k: int| 0 <= k < pairs.len() ==> (#[trigger] pairs[k]).0 != o && pairs[k].1 != o,
    ensures
        w.after_bouts(cfg, pairs, n).unit(o) == w.unit(o),
    decreases n,
{
    if n > 0 {
        lemma_bystander(w, cfg, pairs, n - 1, o);
        let before = w.after_bouts(cfg, pairs, n - 1);
        let q = pairs[n - 1];
        lemma_aside(before, cfg, q.0, q.1, o);
        lemma_aside(before.swing(cfg, q.0, q.1), cfg, q.1, q.0, o);
    }
}

/// The bouts: one entry for each unit in a fight, by ascending id, with the lower
/// id of the two first.
pub proof fn law_bouts(w: World)
    ensures
        ({
            let units = w.state.units;
            let ids = World::select(units, World::fights());
            let pairs = w.bouts();
            &&& pairs.len() == ids.len()
            &&& forall|i: int, j: int| 0 <= i < j < ids.len() ==> ids[i] < ids[j]
            &&& forall|i: int|
                0 <= i < pairs.len() ==> {
                    let o = units[ids[i]].melee_target->0;
                    &&& units.dom().contains(ids[i])
                    &&& units[ids[i]].state == UnitState::Locked
                    &&& units[ids[i]].melee_target is Some
                    &&& #[trigger] pairs[i] == (if ids[i] <= o {
                        (ids[i], o)
                    } else {
                        (o, ids[i])
                    })
                }
            &&& forall|id: UnitId| #[trigger]
                units.dom().contains(id) && units[id].state == UnitState::Locked
                    && units[id].melee_target is Some ==> ids.contains(id)
        }),
{
    let units = w.state.units;
    crate::roster::lemma_id_order(units);
    crate::rules::lemma_select(units, World::fights(), crate::roster::id_order(units));
    let ids = World::select(units, World::fights());
    let pairs = w.bouts();
    assert forall|i: int| 0 <= i < pairs.len() implies {
        let o = units[ids[i]].melee_target->0;
        &&& units.dom().contains(ids[i])
        &&& units[ids[i]].state == UnitState::Locked
        &&& units[ids[i]].melee_target is Some
        &&& #[trigger] pairs[i] == (if ids[i] <= o {
            (ids[i], o)
        } else {
            (o, ids[i])
        })
    } by {
        assert(World::fights()(units[ids[i]]));
        assert(units.dom().contains(ids[i]));
    }
    assert forall|id: UnitId| #[trigger]
        units.dom().contains(id) && units[id].state == UnitState::Locked && units[id].melee_target
            is Some implies ids.contains(id) by {
        assert(World::fights()(units[id]));
    }
}

/// The melee phase takes the bouts in order and fights each of them once: in a
/// bout the lower id swings at the higher, and then the higher at the lower.
pub proof fn law_melee_in_turns(w: World, cfg: SimulationConfig, n: int)
    requires
        0 <= n < w.bouts().len(),
    ensures
        ({
            let pairs = w.bouts();
            let before = w.after_bouts(cfg, pairs, n);
            let after = w.after_bouts(cfg, pairs, n + 1);
            let (a, b) = pairs[n];
            &&& w.after_bouts(cfg, pairs, 0) == w
            &&& (exists|m: int| 0 <= m < n && pairs[m] == pairs[n]) ==> after == before
            &&& (forall|m: int| 0 <= m < n ==> pairs[m] != pairs[n]) ==> after == before.swing(
                cfg,
                a,
                b,
            ).swing(cfg, b, a)
            &&& w.melee(cfg) == w.after_bouts(cfg, pairs, pairs.len() as int)
        }),
{
}

/// A fight trades blows: of two units that fight only each other, each hits the
/// other if and only if its own cooldown has run out, whatever happens to it in
/// the same bout.
pub proof fn law_fights_trade_blows(w: World, cfg: SimulationConfig, a: UnitId, b: UnitId)
    requires
        crate::laws_fight::duel(w.state.units, a, b),
    ensures
        w.melee(cfg).state.units[a] == traded(w.state.units[a], w.state.units[b], cfg),
        w.melee(cfg).state.units[b] == traded(w.state.units[b], w.state.units[a], cfg),
{
    law_bouts(w);
    let units = w.state.units;
    let pairs = w.bouts();
    let ids = World::select(units, World::fights());
    let (lo, hi) = if a < b {
        (a, b)
    } else {
        (b, a)
    };
    assert forall|k: int|
        0 <= k < pairs.len() && ((#[trigger] pairs[k]).0 == lo || pairs[k].1 == lo || pairs[k].0
            == hi || pairs[k].1 == hi) implies pairs[k] == (lo, hi) by {
        assert(units.dom().contains(ids[k]));
    }
    assert(ids.contains(a));
    let k = choose|k: int| 0 <= k < ids.len() && ids[k] == a;
    assert(pairs[k] == (lo, hi));
    assert(crate::laws_fight::met(pairs, (lo, hi), pairs.len() as int));
    lemma_bout_result(w, cfg, pairs, pairs.len() as int, lo, hi);
}

/// Melee hurts nobody outside the fights: a unit that is in no fight, and that
/// no unit in a fight is locked on, stays as it is.
pub proof fn law_melee_spares_the_rest(w: World, cfg: SimulationConfig, id: UnitId)
    requires
        w.state.units.dom().contains(id),
        w.state.units[id].state != UnitState::Locked || w.state.units[id].melee_target is None,
        forall|o: UnitId| #[trigger]
            w.state.units.dom().contains(o) && w.state.units[o].state == UnitState::Locked
                ==> w.state.units[o].melee_target != Some(id),
    ensures
        w.melee(cfg).state.units[id] == w.state.units[id],
{
    law_bouts(w);
    let pairs = w.bouts();
    let ids = World::select(w.state.units, World::fights());
    assert forall|k: int| 0 <= k < pairs.len() implies (#[trigger] pairs[k]).0 != id && pairs[k].1
        != id by {
        assert(pairs[k].0 == ids[k] || pairs[k].1 == ids[k]);
        assert(w.state.units.dom().contains(ids[k]));
    }
    lemma_bystander(w, cfg, pairs, pairs.len() as int, id);
}

/// A unit lands a hit this tick: it is in a fight and its cooldown has run out.
pub open spec fn lands_a_hit(w: World, a: UnitId, b: UnitId) -> bool {
    &&& w.state.units.dom().contains(a)
    &&& w.state.units[a].state == UnitState::Locked
    &&& w.state.units[a].melee_target == Some(b)
    &&& w.state.units[a].attack_cooldown <= 1
}

/// The report of a hit.
pub open spec fn hit_report(w: World, cfg: SimulationConfig, a: UnitId, b: UnitId) -> EventView {
    EventView::MeleeHit {
        attacker: a,
        defender: b,
        damage: cfg.melee_damage,
        hp_left: (w.state.units[b].hp - cfg.melee_damage) as i32,
    }
}

/// Hits are reported fight by fight, by the lower id of the two who fight; in a
/// fight the lower id hits first.
pub open spec fn comes_before(e: EventView, f: EventView) -> bool {
    match (e, f) {
        (
            EventView::MeleeHit { attacker: a, defender: b, .. },
            EventView::MeleeHit { attacker: c, defender: d, .. },
        ) => {
            let x = if a < b {
                a
            } else {
                b
            };
            let y = if c < d {
                c
            } else {
                d
            };
            x < y || x == y && a < c
        },
        _ => false,
    }
}

spec fn hits_so_far(w: World, cfg: SimulationConfig, n: int) -> bool {
    let pairs = w.bouts();
    let x = w.after_bouts(cfg, pairs, n);
    &&& w.events.len() <= x.events.len()
    &&& forall|i: int| 0 <= i < w.events.len() ==> #[trigger] x.events[i] == w.events[i]
    &&& forall|i: int|
        w.events.len() <= i < x.events.len() ==> (#[trigger] x.events[i] matches
            EventView::MeleeHit { attacker, defender, .. } && lands_a_hit(w, attacker, defender)
            && x.events[i] == hit_report(w, cfg, attacker, defender) && (exists|m: int|
            0 <= m < n && pairs[m] == World::bout(attacker, defender)))
    &&& forall|i: int, j: int|
        w.events.len() <= i < j < x.events.len() ==> comes_before(
            #[trigger] x.events[i],
            #[trigger] x.events[j],
        )
    &&& forall|a: UnitId, b: UnitId| #[trigger]
        lands_a_hit(w, a, b) && (exists|m: int| 0 <= m < n && pairs[m] == World::bout(a, b))
            ==> exists|i: int|
            w.events.len() <= i < x.events.len() && #[trigger] x.events[i] == hit_report(
                w,
                cfg,
                a,
                b,
            )
}

proof fn lemma_hits_so_far(w: World, cfg: SimulationConfig, n: int)
    requires
        crate::laws_tick::all_sound(w.state.units),
        crate::laws_tick::paired(w.state.units),
        0 <= n <= w.bouts().len(),
    ensures
        hits_so_far(w, cfg, n),
    decreases n,
{
    let pairs = w.bouts();
    let units = w.state.units;
    if n > 0 {
        lemma_hits_so_far(w, cfg, n - 1);
        law_bouts(w);
        let ids = World::select(units, World::fights());
        let before = w.after_bouts(cfg, pairs, n - 1);
        let x = w.after_bouts(cfg, pairs, n);
        let q = pairs[n - 1];
        let me = ids[n - 1];
        let other = units[me].melee_target->0;
        assert(pairs[n - 1] == World::bout(me, other));
        assert(units.dom().contains(me));
        crate::laws_tick::lemma_only_opponent(units, me, other);
        crate::laws_fight::law_fights_are_duels(units, me, other);
        let (a, b) = q;
        assert(a < b);
        assert(crate::laws_tick::opponents(units, a, b) || crate::laws_tick::opponents(units, b, a));
        if World::repeated(pairs, n - 1) {
            let m0 = choose|m: int| 0 <= m < n - 1 && #[trigger] pairs[m] == q;
            assert(x == before);
            assert forall|i: int| w.events.len() <= i < x.events.len() implies (
            #[trigger] x.events[i] matches EventView::MeleeHit { attacker, defender, .. }
                && lands_a_hit(w, attacker, defender) && x.events[i] == hit_report(
                w,
                cfg,
                attacker,
                defender,
            ) && (exists|m: int| 0 <= m < n && pairs[m] == World::bout(attacker, defender))) by {
                assert(before.events[i] == x.events[i]);
                let at = before.events[i]->MeleeHit_attacker;
                let de = before.events[i]->MeleeHit_defender;
                let m = choose|m: int| 0 <= m < n - 1 && pairs[m] == World::bout(at, de);
                assert(pairs[m] == World::bout(at, de));
            }
            assert forall|c: UnitId, d: UnitId| #[trigger]
                lands_a_hit(w, c, d) && (exists|m: int|
                    0 <= m < n && pairs[m] == World::bout(c, d)) implies exists|i: int|
                w.events.len() <= i < x.events.len() && #[trigger] x.events[i] == hit_report(
                    w,
                    cfg,
                    c,
                    d,
                ) by {
                let m = choose|m: int| 0 <= m < n && pairs[m] == World::bout(c, d);
                let m1 = if m == n - 1 {
                    m0
                } else {
                    m
                };
                assert(pairs[m1] == World::bout(c, d));
                let i = choose|i: int|
                    w.events.len() <= i < before.events.len() && #[trigger] before.events[i]
                        == hit_report(w, cfg, c, d);
                assert(x.events[i] == before.events[i]);
            }
        } else {
            assert(me == a) by {
                if me == b {
                    assert(units.dom().contains(a));
                    assert(ids.contains(a));
                    let k = choose|k: int| 0 <= k < ids.len() && ids[k] == a;
                    assert(k < n - 1) by {
                        if k > n - 1 {
                            assert(ids[n - 1] < ids[k]);
                        }
                    }
                    assert(pairs[k] == World::bout(a, b));
                    assert(World::repeated(pairs, n - 1));
                }
            }
            assert forall|k: int|
                0 <= k < pairs.len() && ((#[trigger] pairs[k]).0 == a || pairs[k].1 == a
                    || pairs[k].0 == b || pairs[k].1 == b) implies pairs[k] == (a, b) by {
                assert(units.dom().contains(ids[k]));
            }
            assert(!crate::laws_fight::met(pairs, (a, b), n - 1)) by {
                if crate::laws_fight::met(pairs, (a, b), n - 1) {
                    let m = choose|m: int| 0 <= m < n - 1 && #[trigger] pairs[m] == (a, b);
                    assert(World::repeated(pairs, n - 1));
                }
            }
            lemma_bout_result(w, cfg, pairs, n - 1, a, b);
            lemma_exchange(before, cfg, a, b);
            let len = before.events.len() as int;
            assert forall|i: int| len <= i < x.events.len() implies (#[trigger] x.events[i])
                == hit_report(w, cfg, a, b) && lands_a_hit(w, a, b) || x.events[i] == hit_report(
                w,
                cfg,
                b,
                a,
            ) && lands_a_hit(w, b, a) by {}
            assert forall|i: int| w.events.len() <= i < x.events.len() implies (
            #[trigger] x.events[i] matches EventView::MeleeHit { attacker, defender, .. }
                && lands_a_hit(w, attacker, defender) && x.events[i] == hit_report(
                w,
                cfg,
                attacker,
                defender,
            ) && (exists|m: int| 0 <= m < n && pairs[m] == World::bout(attacker, defender))) by {
                if i < len {
                    assert(before.events[i] == x.events[i]);
                    let at = before.events[i]->MeleeHit_attacker;
                    let de = before.events[i]->MeleeHit_defender;
                    let m = choose|m: int| 0 <= m < n - 1 && pairs[m] == World::bout(at, de);
                    assert(pairs[m] == World::bout(at, de));
                } else {
                    assert(pairs[n - 1] == World::bout(a, b) && pairs[n - 1] == World::bout(b, a));
                }
            }
            assert forall|i: int, j: int|
                w.events.len() <= i < j < x.events.len() implies comes_before(
                #[trigger] x.events[i],
                #[trigger] x.events[j],
            ) by {
                if j < len {
                    assert(before.events[i] == x.events[i] && before.events[j] == x.events[j]);
                } else if i < len {
                    assert(before.events[i] == x.events[i]);
                    let at = before.events[i]->MeleeHit_attacker;
                    let de = before.events[i]->MeleeHit_defender;
                    let m = choose|m: int| 0 <= m < n - 1 && pairs[m] == World::bout(at, de);
                    assert(pairs[m].0 <= ids[m]);
                    assert(ids[m] < ids[n - 1]);
                    crate::laws_tick::lemma_only_opponent(units, at, de);
                }
            }
            assert forall|c: UnitId, d: UnitId| #[trigger]
                lands_a_hit(w, c, d) && (exists|m: int|
                    0 <= m < n && pairs[m] == World::bout(c, d)) implies exists|i: int|
                w.events.len() <= i < x.events.len() && #[trigger] x.events[i] == hit_report(
                    w,
                    cfg,
                    c,
                    d,
                ) by {
                let m = choose|m: int| 0 <= m < n && pairs[m] == World::bout(c, d);
                if m < n - 1 {
                    let i = choose|i: int|
                        w.events.len() <= i < before.events.len() && #[trigger] before.events[i]
                            == hit_report(w, cfg, c, d);
                    assert(x.events[i] == before.events[i]);
                } else if c == a {
                    assert(d == b);
                    assert(x.events[len] == hit_report(w, cfg, a, b));
                } else {
                    assert(c == b && d == a);
                    assert(x.events[x.events.len() - 1] == hit_report(w, cfg, b, a));
                }
            }
        }
    }
}

/// The hits of a tick: where records are consistent and locked units fight in
/// pairs, each unit in a fight whose cooldown has run out is reported to hit its
/// opponent, once; each report says the melee damage and the health it leaves,
/// and no other hit is reported.
pub proof fn law_melee_events(w: World, cfg: SimulationConfig)
    requires
        crate::laws_tick::all_sound(w.state.units),
        crate::laws_tick::paired(w.state.units),
    ensures
        ({
            let v = w.melee(cfg);
            &&& w.events.len() <= v.events.len()
            &&& forall|i: int| 0 <= i < w.events.len() ==> #[trigger] v.events[i] == w.events[i]
            &&& forall|i: int|
                w.events.len() <= i < v.events.len() ==> (#[trigger] v.events[i] matches
                    EventView::MeleeHit { attacker, defender, .. } && lands_a_hit(
                    w,
                    attacker,
                    defender,
                ) && v.events[i] == hit_report(w, cfg, attacker, defender))
            &&& forall|i: int, j: int|
                w.events.len() <= i < j < v.events.len() ==> comes_before(
                    #[trigger] v.events[i],
                    #[trigger] v.events[j],
                )
            &&& forall|a: UnitId, b: UnitId| #[trigger]
                lands_a_hit(w, a, b) ==> exists|i: int|
                    w.events.len() <= i < v.events.len() && #[trigger] v.events[i] == hit_report(
                        w,
                        cfg,
                        a,
                        b,
                    )
        }),
{
    let pairs = w.bouts();
    lemma_hits_so_far(w, cfg, pairs.len() as int);
    law_bouts(w);
    let ids = World::select(w.state.units, World::fights());
    let v = w.melee(cfg);
    assert forall|a: UnitId, b: UnitId| #[trigger] lands_a_hit(w, a, b) implies exists|i: int|
        w.events.len() <= i < v.events.len() && #[trigger] v.events[i] == hit_report(
            w,
            cfg,
            a,
            b,
        ) by {
        assert(ids.contains(a));
        let k = choose|k: int| 0 <= k < ids.len() && ids[k] == a;
        assert(pairs[k] == World::bout(a, b));
    }
}

// ---------------------------------------------------------------------------
// Artillery
// ---------------------------------------------------------------------------

/// A gun that may act: artillery in no fight.
pub open spec fn is_gun(w: World, id: UnitId) -> bool {
    &&& w.state.units.dom().contains(id)
    &&& w.state.units[id].kind == UnitKind::Artillery
    &&& w.state.units[id].state != UnitState::Locked
}

/// The guns that may act, each once, by ascending id.
pub proof fn law_guns_in_order(w: World)
    ensures
        forall|i: int| 0 <= i < w.gunners().len() ==> is_gun(w, #[trigger] w.gunners()[i]),
        forall|id: UnitId| #[trigger] is_gun(w, id) ==> w.gunners().contains(id),
        forall|i: int, j: int| 0 <= i < j < w.gunners().len() ==> w.gunners()[i] < w.gunners()[j],
{
    let units = w.state.units;
    crate::roster::lemma_id_order(units);
    crate::rules::lemma_select(units, World::mans_gun(), crate::roster::id_order(units));
    assert forall|i: int| 0 <= i < w.gunners().len() implies is_gun(
        w,
        #[trigger] w.gunners()[i],
    ) by {
        assert(World::mans_gun()(units[w.gunners()[i]]));
    }
    assert forall|id: UnitId| #[trigger] is_gun(w, id) implies w.gunners().contains(id) by {
        assert(World::mans_gun()(units[id]));
    }
}

/// What a gun has in its sights.
pub open spec fn sights(w: World, cfg: SimulationConfig, gun: UnitId) -> Option<(UnitId, Tile)> {
    w.state.scan(w.state.units[gun].pos, cfg.artillery_range, w.state.units[gun].owner)
}

/// The unit that a gun has in its sights.
pub open spec fn sighted(w: World, cfg: SimulationConfig, gun: UnitId) -> UnitId {
    let hit = sights(w, cfg, gun)->0;
    hit.0
}

/// The tile on which that unit is.
pub open spec fn sighted_on(w: World, cfg: SimulationConfig, gun: UnitId) -> Tile {
    let hit = sights(w, cfg, gun)->0;
    hit.1
}

/// A gun fires: its cooldown has run out and it has an enemy in its sights.
pub open spec fn fires(w: World, cfg: SimulationConfig, gun: UnitId) -> bool {
    w.state.units[gun].fire_cooldown <= 1 && sights(w, cfg, gun) is Some
}

/// The report of a shot.
pub open spec fn shot_report(w: World, cfg: SimulationConfig, gun: UnitId) -> EventView {
    EventView::ArtilleryFired {
        unit: gun,
        from: w.state.units[gun].pos,
        to: sighted_on(w, cfg, gun),
        target: sighted(w, cfg, gun),
        damage: cfg.artillery_damage,
    }
}

/// How many of the first `n` guns fire at a unit.
pub open spec fn shots_at(
    w: World,
    cfg: SimulationConfig,
    guns: Seq<UnitId>,
    n: int,
    id: UnitId,
) -> int
    decreases n,
{
    if n <= 0 {
        0
    } else {
        shots_at(w, cfg, guns, n - 1, id) + (if fires(w, cfg, guns[n - 1]) && sighted(
            w,
            cfg,
            guns[n - 1],
        ) == id {
            1int
        } else {
            0
        })
    }
}

/// The reports of the first `n` guns' shots.
pub open spec fn volley(w: World, cfg: SimulationConfig, guns: Seq<UnitId>, n: int) -> Seq<
    EventView,
>
    decreases n,
{
    if n <= 0 {
        Seq::empty()
    } else if fires(w, cfg, guns[n - 1]) {
        volley(w, cfg, guns, n - 1).push(shot_report(w, cfg, guns[n - 1]))
    } else {
        volley(w, cfg, guns, n - 1)
    }
}

/// A gun's cooldown after its turn: it runs down by one; once it has run out it
/// starts anew with a shot, and without a target waits at zero.
pub open spec fn reloaded(w: World, cfg: SimulationConfig, gun: UnitId) -> int {
    let c = w.state.units[gun].fire_cooldown;
    if c > 1 {
        c - 1
    } else if sights(w, cfg, gun) is Some {
        cfg.artillery_cooldown_secs.ticks(cfg.tick_rate)
    } else {
        0
    }
}

proof fn lemma_volley(w: World, cfg: SimulationConfig, n: int)
    requires
        w.state.keyed(),
        0 <= n <= w.gunners().len(),
        forall|k: int|
            0 <= k < n ==> #[trigger] w.after_shots(cfg, w.gunners(), k).shot_fits(
                cfg,
                w.gunners()[k],
            ),
    ensures
        ({
            let guns = w.gunners();
            let x = w.after_shots(cfg, guns, n);
            &&& crate::laws_board::same_figures(w.state, x.state)
            &&& x.state.keyed()
            &&& crate::laws_phases::only_units(w, x)
            &&& x.events == w.events + volley(w, cfg, guns, n)
            &&& forall|id: UnitId| #[trigger]
                w.state.units.dom().contains(id) ==> x.unit(id) == (Unit {
                    hp: x.unit(id).hp,
                    fire_cooldown: x.unit(id).fire_cooldown,
                    ..w.unit(id)
                }) && x.unit(id).hp == w.unit(id).hp - cfg.artillery_damage * shots_at(
                    w,
                    cfg,
                    guns,
                    n,
                    id,
                ) && x.unit(id).fire_cooldown == (if guns.take(n).contains(id) {
                    reloaded(w, cfg, id)
                } else {
                    w.unit(id).fire_cooldown as int
                })
        }),
    decreases n,
{
    let guns = w.gunners();
    let d = cfg.artillery_damage as int;
    assert(d * 0 == 0) by (nonlinear_arith);
    if n <= 0 {
        assert(w.events + volley(w, cfg, guns, 0) =~= w.events);
    } else {
        lemma_volley(w, cfg, n - 1);
        law_guns_in_order(w);
        crate::laws_time::law_cooldowns_and_timeout(cfg);
        let before = w.after_shots(cfg, guns, n - 1);
        let x = w.after_shots(cfg, guns, n);
        let gun = guns[n - 1];
        let done = guns.take(n - 1);
        assert(is_gun(w, guns[n - 1]));
        assert(w.state.units.dom().contains(gun));
        assert(before.shot_fits(cfg, gun));
        assert(!done.contains(gun)) by {
            if done.contains(gun) {
                let k = choose|k: int| 0 <= k < done.len() && done[k] == gun;
                assert(guns[k] < guns[n - 1]);
            }
        }
        assert(before.unit(gun).fire_cooldown == w.unit(gun).fire_cooldown);
        crate::laws_board::law_sight_depends_on_figures(
            w.state,
            before.state,
            w.unit(gun).pos,
            cfg.artillery_range,
            w.unit(gun).owner,
        );
        crate::game_state::lemma_scan_hits(
            w.state,
            w.unit(gun).pos,
            cfg.artillery_range,
            w.unit(gun).owner,
        );
        assert(x.state.units.dom() =~= before.state.units.dom());
        assert(guns.take(n) =~= done.push(gun));
        assert forall|id: UnitId| guns.take(n).contains(id) <==> done.contains(id) || id == gun by {
            if done.contains(id) {
                let k = choose|k: int| 0 <= k < done.len() && done[k] == id;
                assert(guns.take(n)[k] == id);
            }
            assert(guns.take(n)[n - 1] == gun);
        }
        assert(x.events =~= w.events + volley(w, cfg, guns, n));
        assert forall|id: UnitId| #[trigger] w.state.units.dom().contains(id) implies x.unit(id)
            == (Unit {
            hp: x.unit(id).hp,
            fire_cooldown: x.unit(id).fire_cooldown,
            ..w.unit(id)
        }) && x.unit(id).hp == w.unit(id).hp - cfg.artillery_damage * shots_at(
            w,
            cfg,
            guns,
            n,
            id,
        ) && x.unit(id).fire_cooldown == (if guns.take(n).contains(id) {
            reloaded(w, cfg, id)
        } else {
            w.unit(id).fire_cooldown as int
        }) by {
            let k = shots_at(w, cfg, guns, n - 1, id);
            assert(d * (k + 1) == d * k + d) by (nonlinear_arith);
        }
    }
}

/// Artillery, unit by unit: every gun has its turn, by ascending id. What it has
/// in its sights does not depend on who fired before it. Each shot costs its
/// target the artillery damage; nothing else costs anyone health, and nothing
/// but health and the guns' cooldowns changes. Every shot is reported, in the
/// order of the guns.
pub proof fn law_artillery(w: World, cfg: SimulationConfig)
    requires
        w.state.keyed(),
        w.artillery_fits(cfg),
    ensures
        ({
            let guns = w.gunners();
            let n = guns.len() as int;
            let v = w.artillery(cfg);
            &&& crate::laws_phases::only_units(w, v)
            &&& v.state.units.dom() == w.state.units.dom()
            &&& v.events == w.events + volley(w, cfg, guns, n)
            &&& forall|id: UnitId| #[trigger]
                w.state.units.dom().contains(id) ==> {
                    let u = w.state.units[id];
                    let x = v.state.units[id];
                    &&& x == (Unit { hp: x.hp, fire_cooldown: x.fire_cooldown, ..u })
                    &&& x.hp == u.hp - cfg.artillery_damage * shots_at(w, cfg, guns, n, id)
                    &&& x.fire_cooldown == (if is_gun(w, id) {
                        reloaded(w, cfg, id)
                    } else {
                        u.fire_cooldown as int
                    })
                }
        }),
{
    let guns = w.gunners();
    let n = guns.len() as int;
    let v = w.artillery(cfg);
    lemma_volley(w, cfg, n);
    law_guns_in_order(w);
    assert(guns.take(n) =~= guns);
    assert forall|id: UnitId| #[trigger] w.state.units.dom().contains(id) implies {
        let u = w.state.units[id];
        let x = v.state.units[id];
        &&& x == (Unit { hp: x.hp, fire_cooldown: x.fire_cooldown, ..u })
        &&& x.hp == u.hp - cfg.artillery_damage * shots_at(w, cfg, guns, n, id)
        &&& x.fire_cooldown == (if is_gun(w, id) {
            reloaded(w, cfg, id)
        } else {
            u.fire_cooldown as int
        })
    } by {
        if guns.contains(id) {
            let k = choose|k: int| 0 <= k < guns.len() && guns[k] == id;
            assert(is_gun(w, guns[k]));
        }
        if is_gun(w, id) {
            assert(guns.contains(id));
        }
    }
}

/// A shot fits if and only if there is none, or it leaves the target a health
/// that can be represented.
pub proof fn law_shots_fit(w: World, cfg: SimulationConfig, gun: UnitId)
    ensures
        w.shot_fits(cfg, gun) <==> (fires(w, cfg, gun) ==> i32::MIN
            <= w.state.units[sighted(w, cfg, gun)].hp - cfg.artillery_damage <= i32::MAX),
{
}

/// A swing fits if and only if it hits nobody, or leaves the opponent a health
/// that can be represented.
pub proof fn law_swings_fit(w: World, cfg: SimulationConfig, a: UnitId, b: UnitId)
    ensures
        w.swing_fits(cfg, a, b) <==> (w.state.units.dom().contains(a) && w.state.units[a].state
            == UnitState::Locked && w.state.units[a].attack_cooldown <= 1
            && w.state.units.dom().contains(b) ==> i32::MIN <= w.state.units[b].hp
            - cfg.melee_damage <= i32::MAX),
{
}

// ---------------------------------------------------------------------------
// Deaths
// ---------------------------------------------------------------------------

/// The deaths of a tick, event by event: each unit without health is reported
/// dead once, with its side and tile, by ascending id, and nobody else is.
pub proof fn law_death_events(w: World)
    ensures
        ({
            let v = w.cleanup();
            let n = w.events.len() as int;
            &&& n <= v.events.len()
            &&& forall|i: int| 0 <= i < n ==> #[trigger] v.events[i] == w.events[i]
            &&& forall|i: int|
                n <= i < v.events.len() ==> (#[trigger] v.events[i] matches EventView::UnitDied {
                    unit,
                    owner,
                    at,
                } && w.state.units.dom().contains(unit) && w.state.units[unit].hp <= 0 && owner
                    == w.state.units[unit].owner && at == w.state.units[unit].pos)
            &&& forall|i: int, j: int|
                n <= i < j < v.events.len() ==> (#[trigger] v.events[i])->UnitDied_unit < (
                #[trigger] v.events[j])->UnitDied_unit
            &&& forall|id: UnitId| #[trigger]
                w.state.units.dom().contains(id) && w.state.units[id].hp <= 0 ==> exists|i: int|
                    n <= i < v.events.len() && (#[trigger] v.events[i])
                        == (EventView::UnitDied {
                        unit: id,
                        owner: w.state.units[id].owner,
                        at: w.state.units[id].pos,
                    })
        }),
{
    let v = w.cleanup();
    let dead = w.fallen();
    let n = w.events.len() as int;
    crate::laws_tick::law_cleanup(w);
    assert(v.events == w.events + crate::progress::obituaries(w, dead));
    assert forall|i: int| n <= i < v.events.len() implies (#[trigger] v.events[i]
        matches EventView::UnitDied { unit, owner, at } && w.state.units.dom().contains(unit)
        && w.state.units[unit].hp <= 0 && owner == w.state.units[unit].owner && at
        == w.state.units[unit].pos && unit == dead[i - n]) by {
        assert(dead.contains(dead[i - n]));
    }
    assert forall|i: int, j: int| n <= i < j < v.events.len() implies (
    #[trigger] v.events[i])->UnitDied_unit < (#[trigger] v.events[j])->UnitDied_unit by {
        assert(dead[i - n] < dead[j - n]);
    }
    assert forall|id: UnitId| #[trigger]
        w.state.units.dom().contains(id) && w.state.units[id].hp <= 0 implies exists|i: int|
        n <= i < v.events.len() && (#[trigger] v.events[i]) == (EventView::UnitDied {
            unit: id,
            owner: w.state.units[id].owner,
            at: w.state.units[id].pos,
        }) by {
        assert(dead.contains(id));
        let k = choose|k: int| 0 <= k < dead.len() && dead[k] == id;
        assert(v.events[n + k] == (EventView::UnitDied {
            unit: id,
            owner: w.state.units[id].owner,
            at: w.state.units[id].pos,
        }));
    }
}

/// A burial: the unit leaves the board and is reported dead, and whoever it was
/// locked on, if still on the board, stands idle with no opponent and no
/// cooldown. Nobody else changes.
pub proof fn law_burial(w: World, id: UnitId)
    requires
        w.state.units.dom().contains(id),
    ensures
        ({
            let v = w.bury(id);
            let u = w.state.units[id];
            &&& crate::laws_phases::only_units(w, v)
            &&& v.state.units.dom() == w.state.units.dom().remove(id)
            &&& v.events == w.events.push(
                EventView::UnitDied { unit: id, owner: u.owner, at: u.pos },
            )
            &&& forall|o: UnitId| #[trigger]
                v.state.units.dom().contains(o) ==> v.state.units[o] == (if u.melee_target == Some(
                    o,
                ) {
                    Unit {
                        state: UnitState::Idle,
                        melee_target: None,
                        attack_cooldown: 0,
                        ..w.state.units[o]
                    }
                } else {
                    w.state.units[o]
                })
        }),
{
    let v = w.bury(id);
    assert(v.state.units.dom() =~= w.state.units.dom().remove(id));
}

/// The cleanup buries the units without health one by one, by ascending id.
pub proof fn law_burials_in_turn(w: World, n: int)
    requires
        0 <= n < w.fallen().len(),
    ensures
        w.after_burials(w.fallen(), 0) == w,
        w.after_burials(w.fallen(), n + 1) == w.after_burials(w.fallen(), n).bury(w.fallen()[n]),
        w.cleanup() == w.after_burials(w.fallen(), w.fallen().len() as int),
        w.state.units.dom().contains(w.fallen()[n]) && w.state.units[w.fallen()[n]].hp <= 0,
{
    crate::laws_tick::law_cleanup(w);
    assert(w.fallen().contains(w.fallen()[n]));
}

/// Survivors, field by field: where opponents look back, a survivor whose
/// opponent fell stands idle with no opponent and no cooldown, and otherwise as
/// it was; every other survivor is unchanged. Nothing else of the state changes.
pub proof fn law_survivors(w: World, id: UnitId)
    requires
        crate::laws_tick::mutual(w.state.units),
        w.state.units.dom().contains(id),
    ensures
        ({
            let v = w.cleanup();
            let u = w.state.units[id];
            let widowed = u.melee_target is Some && w.state.units[u.melee_target->0].hp <= 0;
            &&& crate::laws_phases::only_units(w, v)
            &&& v.state.units.dom().contains(id) <==> u.hp > 0
            &&& u.hp > 0 && !widowed ==> v.state.units[id] == u
            &&& u.hp > 0 && widowed ==> {
                &&& v.state.units[id].state == UnitState::Idle
                &&& v.state.units[id].melee_target is None
                &&& v.state.units[id].attack_cooldown == 0
                &&& v.state.units[id] == (Unit {
                    state: UnitState::Idle,
                    melee_target: None,
                    attack_cooldown: 0,
                    ..u
                })
            }
        }),
{
    crate::laws_tick::law_cleanup(w);
    assert(w.cleanup().state.units.dom().contains(id) <==> w.unit(id).hp > 0);
}

// ---------------------------------------------------------------------------
// Outcome
// ---------------------------------------------------------------------------

/// How many units on the board belong to a side, of whatever kind.
pub open spec fn headcount(w: World, side: Owner) -> int {
    w.state.units.dom().filter(|id: UnitId| w.state.units[id].owner == side).len() as int
}

/// The outcome of an active match: undecided while both sides have units and
/// time is left. A side alone on the board has won by annihilation; with nobody
/// left both have lost. When time is up the side with more units wins, and
/// equal numbers draw. An outcome finishes the match and is reported once; no
/// unit changes. A match that is not active is left alone.
pub proof fn law_outcome(w: World, cfg: SimulationConfig)
    ensures
        w.state.status != MatchStatus::Active ==> w.verdict(cfg) == w,
        w.state.status == MatchStatus::Active ==> ({
            let v = w.verdict(cfg);
            let white = headcount(w, Owner::White);
            let black = headcount(w, Owner::Black);
            let late = w.state.tick >= cfg.match_timeout_secs.ticks(cfg.tick_rate);
            let over = white == 0 || black == 0 || late;
            let winner = if white > black {
                Some(Owner::White)
            } else if black > white {
                Some(Owner::Black)
            } else {
                None
            };
            let reason = if white == 0 && black == 0 {
                EndReason::MutualAnnihilation
            } else if white == 0 || black == 0 {
                EndReason::Annihilation
            } else if white == black {
                EndReason::Draw
            } else {
                EndReason::Timeout
            };
            &&& !over ==> v == w
            &&& over ==> {
                &&& v.state.status == MatchStatus::Finished
                &&& v.state.winner == winner
                &&& v.state.end_reason == Some(reason)
                &&& v.state == (StateView {
                    status: v.state.status,
                    winner: v.state.winner,
                    end_reason: v.state.end_reason,
                    ..w.state
                })
                &&& v.events == w.events.push(EventView::MatchOver { winner, reason })
            }
        }),
{
    crate::laws_time::law_cooldowns_and_timeout(cfg);
    crate::laws_units::law_sides_count_every_unit(w.state.units);
    assert forall|side: Owner| #[trigger] headcount(w, side) == w.strength(side) by {
        assert(w.state.units.dom().filter(|id: UnitId| w.state.units[id].owner == side)
            =~= crate::game_state::army(w.state.units, side));
    }
    assert(headcount(w, Owner::White) == w.strength(Owner::White));
    assert(headcount(w, Owner::Black) == w.strength(Owner::Black));
}

/// The order of a tick: the clock advances by one; queued moves are rolled for;
/// facing enemies lock; fights trade blows; guns fire; the fallen leave; the
/// outcome is decided. A match that is not active does none of it.
pub proof fn law_order_of_a_tick(
    s: StateView,
    cfg: SimulationConfig,
    chance: Double,
    rolls: Seq<u64>,
)
    ensures
        s.status != MatchStatus::Active ==> World::tick(s, cfg, chance, rolls) == (World {
            state: s,
            events: Seq::empty(),
        }),
        s.status == MatchStatus::Active && s.tick < u64::MAX ==> {
            let start = World {
                state: StateView { tick: (s.tick + 1) as u64, ..s },
                events: Seq::empty(),
            };
            World::tick(s, cfg, chance, rolls) == start.movement(cfg, chance, rolls).locking(
                cfg,
            ).melee(cfg).artillery(cfg).cleanup().verdict(cfg)
        },
{
}

/// A tick can be taken if and only if the clock can advance and every blow of
/// the melee and every shot leaves a health that can be represented.
#[verifier::spinoff_prover]
pub proof fn law_ticks_that_fit(s: StateView, cfg: SimulationConfig, chance: Double, rolls: Seq<u64>)
    ensures
        World::tick_fits(s, cfg, chance, rolls) <==> (s.status == MatchStatus::Active ==> {
            let start = World {
                state: StateView { tick: (s.tick + 1) as u64, ..s },
                events: Seq::empty(),
            };
            let w = start.movement(cfg, chance, rolls).locking(cfg);
            let pairs = w.bouts();
            let x = w.melee(cfg);
            let guns = x.gunners();
            &&& s.tick < u64::MAX
            &&& forall|n: int|
                0 <= n < pairs.len() && (forall|m: int| 0 <= m < n ==> pairs[m] != pairs[n])
                    ==> #[trigger] w.after_bouts(cfg, pairs, n).swing_fits(
                    cfg,
                    pairs[n].0,
                    pairs[n].1,
                ) && w.after_bouts(cfg, pairs, n).swing(cfg, pairs[n].0, pairs[n].1).swing_fits(
                    cfg,
                    pairs[n].1,
                    pairs[n].0,
                )
            &&& forall|n: int|
                0 <= n < guns.len() ==> #[trigger] x.after_shots(cfg, guns, n).shot_fits(
                    cfg,
                    guns[n],
                )
        }),
{
    let start = World {
        state: StateView { tick: (s.tick + 1) as u64, ..s },
        events: Seq::empty(),
    };
    let w = start.movement(cfg, chance, rolls).locking(cfg);
    let pairs = w.bouts();
    assert forall|n: int| 0 <= n < pairs.len() implies (World::repeated(pairs, n) <==> !(forall|
        m: int,
    |
        0 <= m < n ==> pairs[m] != pairs[n])) by {}
    if World::tick_fits(s, cfg, chance, rolls) && s.status == MatchStatus::Active {
        assert forall|n: int|
            0 <= n < pairs.len() && (forall|m: int| 0 <= m < n ==> pairs[m] != pairs[n]) implies
            #[trigger] w.after_bouts(cfg, pairs, n).swing_fits(cfg, pairs[n].0, pairs[n].1)
            && w.after_bouts(cfg, pairs, n).swing(cfg, pairs[n].0, pairs[n].1).swing_fits(
            cfg,
            pairs[n].1,
            pairs[n].0,
        ) by {
            assert(!World::repeated(pairs, n));
            assert(w.after_bouts(cfg, pairs, n).exchange_fits(cfg, pairs[n]));
        }
    }
    if forall|n: int|
        0 <= n < pairs.len() && (forall|m: int| 0 <= m < n ==> pairs[m] != pairs[n])
            ==> #[trigger] w.after_bouts(cfg, pairs, n).swing_fits(cfg, pairs[n].0, pairs[n].1)
            && w.after_bouts(cfg, pairs, n).swing(cfg, pairs[n].0, pairs[n].1).swing_fits(
            cfg,
            pairs[n].1,
            pairs[n].0,
        ) {
        assert forall|n: int| 0 <= n < pairs.len() && !World::repeated(pairs, n) implies
            #[trigger] w.after_bouts(cfg, pairs, n).exchange_fits(cfg, pairs[n]) by {
            assert forall|m: int| 0 <= m < n implies pairs[m] != pairs[n] by {}
            assert(w.after_bouts(cfg, pairs, n).swing_fits(cfg, pairs[n].0, pairs[n].1));
        }
        assert(w.melee_fits(cfg));
    }
}

} // verus!

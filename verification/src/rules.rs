//! The rules of a tick, stated on mathematical worlds.
//!
//! Each phase of a tick is a function from world to world. Where a phase takes
//! units in turn, the function says what the world is after the first `n`
//! turns.

use crate::config::SimulationConfig;
use crate::double::Double;
use crate::events::{EventView, GameEvent};
use crate::game_state::{
    EndReason, GameState, MatchStatus, Owner, StateView, Tile, Unit, UnitId, UnitKind, UnitState,
};
use vstd::prelude::*;

verus! {

/// A world in the middle of a tick: the state and the events so far.
#[verifier::ext_equal]
pub struct World {
    pub state: StateView,
    pub events: Seq<EventView>,
}

impl World {
    /// The world with one unit replaced.
    pub open spec fn with_unit(self, id: UnitId, unit: Unit) -> World {
        World {
            state: StateView { units: self.state.units.insert(id, unit), ..self.state },
            ..self
        }
    }

    /// The world with one more event.
    pub open spec fn with_event(self, event: EventView) -> World {
        World { events: self.events.push(event), ..self }
    }

    pub open spec fn has(self, id: UnitId) -> bool {
        self.state.units.dom().contains(id)
    }

    pub open spec fn unit(self, id: UnitId) -> Unit {
        self.state.units[id]
    }
}

impl World {
    /// The world that a state and a list of events make up.
    pub open spec fn of(state: GameState, events: Seq<GameEvent>) -> World {
        World { state: state@, events: crate::events::event_views(events) }
    }

    /// The ids of all units, lowest first.
    pub open spec fn ids(self) -> Seq<UnitId> {
        crate::roster::id_order(self.state.units)
    }

    /// The ids of the units that satisfy `p`, lowest first.
    pub open spec fn select(units: Map<UnitId, Unit>, p: spec_fn(Unit) -> bool) -> Seq<UnitId> {
        crate::roster::id_order(units).filter(|id: UnitId| p(units[id]))
    }
}

// ---------------------------------------------------------------------------
// 2. Probabilistic movement
// ---------------------------------------------------------------------------

impl World {
    /// A unit rolls for its queued move.
    pub open spec fn rolls_to_move() -> spec_fn(Unit) -> bool {
        |u: Unit|
            u.kind == UnitKind::Pawn && u.state != UnitState::Locked && u.pending_move is Some
    }

    /// The units that roll this tick, in the order of their rolls.
    pub open spec fn movers(self) -> Seq<UnitId> {
        World::select(self.state.units, World::rolls_to_move())
    }

    /// A roll of 64 random bits resolves a move: the top 53 bits, as a fraction
    /// of one, lie below `chance`.
    pub open spec fn roll_succeeds(chance: Double, roll: u64) -> bool {
        chance.above_53((roll / 2048) as int)
    }

    /// A unit whose roll succeeded arrives, or finds its path gone stale.
    pub open spec fn resolve_move(self, range: u8, id: UnitId) -> World {
        let u = self.unit(id);
        let target = u.pending_move->0;
        if target.distance(u.pos) > range || !self.state.free(target) {
            self.with_unit(
                id,
                Unit { pending_move: None, state: UnitState::Idle, ..u },
            ).with_event(
                EventView::MoveBlocked {
                    unit: id,
                    by: u.owner,
                    to: target,
                    reason: "target occupied"@,
                },
            )
        } else {
            self.with_unit(
                id,
                Unit { pos: target, pending_move: None, state: UnitState::Idle, ..u },
            ).with_event(
                EventView::MoveResolved { unit: id, by: u.owner, from: u.pos, to: target },
            )
        }
    }

    /// The world after the first `n` of the rolling units had their turn.
    pub open spec fn after_moves(
        self,
        range: u8,
        chance: Double,
        ids: Seq<UnitId>,
        rolls: Seq<u64>,
        n: int,
    ) -> World
        decreases n,
    {
        if n <= 0 {
            self
        } else {
            let before = self.after_moves(range, chance, ids, rolls, n - 1);
            if World::roll_succeeds(chance, rolls[n - 1]) {
                before.resolve_move(range, ids[n - 1])
            } else {
                before
            }
        }
    }

    /// The movement phase of a tick.
    pub open spec fn movement(
        self,
        cfg: SimulationConfig,
        chance: Double,
        rolls: Seq<u64>,
    ) -> World {
        let ids = self.movers();
        self.after_moves(cfg.pawn_move_range, chance, ids, rolls, ids.len() as int)
    }
}

// ---------------------------------------------------------------------------
// 3. Melee locks
// ---------------------------------------------------------------------------

impl World {
    /// A unit grappled with `other`: it stops moving and starts swinging.
    pub open spec fn grappled(u: Unit, other: UnitId, cooldown: u32) -> Unit {
        Unit {
            state: UnitState::Locked,
            melee_target: Some(other),
            pending_move: None,
            attack_cooldown: cooldown,
            ..u
        }
    }

    /// Two units lock: both are grappled with each other.
    pub open spec fn lock(self, a: UnitId, b: UnitId, cooldown: u32) -> World {
        let half = self.with_unit(a, World::grappled(self.unit(a), b, cooldown));
        half.with_unit(b, World::grappled(half.unit(b), a, cooldown)).with_event(
            EventView::MeleeLocked { a, b },
        )
    }

    /// `a` can lock with `b`: an adjacent enemy that is in no fight yet.
    pub open spec fn lockable(self, locked: Set<UnitId>, a: UnitId, b: UnitId) -> bool {
        &&& !locked.contains(b)
        &&& self.unit(b).owner != self.unit(a).owner
        &&& self.unit(b).state != UnitState::Locked
        &&& self.unit(b).pos.distance(self.unit(a).pos) == 1
    }

    /// The unit at index `j` is the first after index `i` to lock with.
    pub open spec fn is_partner(
        self,
        locked: Set<UnitId>,
        ids: Seq<UnitId>,
        i: int,
        j: int,
    ) -> bool {
        &&& i < j < ids.len()
        &&& self.lockable(locked, ids[i], ids[j])
        &&& forall|k: int| i < k < j ==> !self.lockable(locked, ids[i], #[trigger] ids[k])
    }

    /// Whom the unit at index `i` locks with, by index. A unit in a fight looks
    /// for no other.
    pub open spec fn partner(self, locked: Set<UnitId>, ids: Seq<UnitId>, i: int) -> Option<int> {
        if !locked.contains(ids[i]) && self.unit(ids[i]).state != UnitState::Locked && exists|
            j: int,
        |
            self.is_partner(locked, ids, i, j) {
            Some(choose|j: int| self.is_partner(locked, ids, i, j))
        } else {
            None
        }
    }

    /// The world, and who locked so far, after the first `n` units looked for
    /// an opponent.
    pub open spec fn after_locks(self, cooldown: u32, ids: Seq<UnitId>, n: int) -> (
        World,
        Set<UnitId>,
    )
        decreases n,
    {
        if n <= 0 {
            (self, Set::empty())
        } else {
            let (before, locked) = self.after_locks(cooldown, ids, n - 1);
            match before.partner(locked, ids, n - 1) {
                Some(j) => (
                    before.lock(ids[n - 1], ids[j], cooldown),
                    locked.insert(ids[n - 1]).insert(ids[j]),
                ),
                None => (before, locked),
            }
        }
    }

    /// The lock phase of a tick.
    pub open spec fn locking(self, cfg: SimulationConfig) -> World {
        self.after_locks(cfg.melee_ticks(), self.ids(), self.ids().len() as int).0
    }
}

// ---------------------------------------------------------------------------
// 4. Melee damage
// ---------------------------------------------------------------------------

impl World {
    /// A unit is in a fight.
    pub open spec fn fights() -> spec_fn(Unit) -> bool {
        |u: Unit| u.state == UnitState::Locked && u.melee_target is Some
    }

    /// A unit and its opponent, lower id first.
    pub open spec fn bout(a: UnitId, b: UnitId) -> (UnitId, UnitId) {
        if a <= b {
            (a, b)
        } else {
            (b, a)
        }
    }

    /// The bout of each fighting unit, in id order. A bout occurs once for each
    /// of its units that looks at the other.
    pub open spec fn bouts(self) -> Seq<(UnitId, UnitId)> {
        World::select(self.state.units, World::fights()).map_values(
            |id: UnitId| World::bout(id, self.unit(id).melee_target->0),
        )
    }

    /// `attacker` is about to hit `defender`: its cooldown runs out.
    pub open spec fn lands(self, attacker: UnitId, defender: UnitId) -> bool {
        &&& self.has(attacker)
        &&& self.unit(attacker).state == UnitState::Locked
        &&& self.unit(attacker).attack_cooldown <= 1
        &&& self.has(defender)
    }

    /// One side of a bout: the cooldown ticks down; when it reaches zero the hit
    /// lands and the cooldown restarts. With nobody to hit it stays at zero.
    pub open spec fn swing(self, cfg: SimulationConfig, attacker: UnitId, defender: UnitId) -> World {
        if !self.has(attacker) || self.unit(attacker).state != UnitState::Locked {
            self
        } else if self.unit(attacker).attack_cooldown > 1 {
            let u = self.unit(attacker);
            self.with_unit(
                attacker,
                Unit { attack_cooldown: (u.attack_cooldown - 1) as u32, ..u },
            )
        } else if !self.has(defender) {
            self.with_unit(attacker, Unit { attack_cooldown: 0, ..self.unit(attacker) })
        } else {
            let d = self.unit(defender);
            let hp_left = (d.hp - cfg.melee_damage) as i32;
            let hit = self.with_unit(defender, Unit { hp: hp_left, ..d });
            hit.with_unit(
                attacker,
                Unit { attack_cooldown: cfg.melee_ticks(), ..hit.unit(attacker) },
            ).with_event(
                EventView::MeleeHit { attacker, defender, damage: cfg.melee_damage, hp_left },
            )
        }
    }

    /// Health after a hit is representable, if the hit lands.
    pub open spec fn swing_fits(
        self,
        cfg: SimulationConfig,
        attacker: UnitId,
        defender: UnitId,
    ) -> bool {
        self.lands(attacker, defender) ==> i32::MIN <= self.unit(defender).hp - cfg.melee_damage
            <= i32::MAX
    }

    /// Both sides of a bout swing, the lower id first.
    pub open spec fn exchange(self, cfg: SimulationConfig, pair: (UnitId, UnitId)) -> World {
        self.swing(cfg, pair.0, pair.1).swing(cfg, pair.1, pair.0)
    }

    pub open spec fn exchange_fits(self, cfg: SimulationConfig, pair: (UnitId, UnitId)) -> bool {
        &&& self.swing_fits(cfg, pair.0, pair.1)
        &&& self.swing(cfg, pair.0, pair.1).swing_fits(cfg, pair.1, pair.0)
    }

    /// Index `n` is not the first occurrence of its bout.
    pub open spec fn repeated(pairs: Seq<(UnitId, UnitId)>, n: int) -> bool {
        exists|m: int| 0 <= m < n && pairs[m] == pairs[n]
    }

    /// The world after the first `n` listed bouts; each bout is fought once.
    pub open spec fn after_bouts(
        self,
        cfg: SimulationConfig,
        pairs: Seq<(UnitId, UnitId)>,
        n: int,
    ) -> World
        decreases n,
    {
        if n <= 0 {
            self
        } else {
            let before = self.after_bouts(cfg, pairs, n - 1);
            if World::repeated(pairs, n - 1) {
                before
            } else {
                before.exchange(cfg, pairs[n - 1])
            }
        }
    }

    /// The melee phase of a tick.
    pub open spec fn melee(self, cfg: SimulationConfig) -> World {
        self.after_bouts(cfg, self.bouts(), self.bouts().len() as int)
    }

    /// Every hit of the melee phase leaves a representable health.
    pub open spec fn melee_fits(self, cfg: SimulationConfig) -> bool {
        forall|n: int|
            0 <= n < self.bouts().len() && !World::repeated(self.bouts(), n)
                ==> #[trigger] self.after_bouts(cfg, self.bouts(), n).exchange_fits(
                cfg,
                self.bouts()[n],
            )
    }
}

// ---------------------------------------------------------------------------
// 5. Artillery
// ---------------------------------------------------------------------------

impl World {
    /// Artillery that is free to act.
    pub open spec fn mans_gun() -> spec_fn(Unit) -> bool {
        |u: Unit| u.kind == UnitKind::Artillery && u.state != UnitState::Locked
    }

    /// The artillery that acts this tick, in id order.
    pub open spec fn gunners(self) -> Seq<UnitId> {
        World::select(self.state.units, World::mans_gun())
    }

    /// What a gun aims at when its cooldown runs out.
    pub open spec fn aim(self, cfg: SimulationConfig, id: UnitId) -> Option<(UnitId, Tile)> {
        let u = self.unit(id);
        if u.fire_cooldown > 1 {
            None
        } else {
            self.state.scan(u.pos, cfg.artillery_range, u.owner)
        }
    }

    /// One gun's turn: the cooldown ticks down; when it reaches zero the gun
    /// fires at the first enemy in sight and the cooldown restarts. Without an
    /// enemy in sight the gun waits at zero.
    pub open spec fn shoot(self, cfg: SimulationConfig, id: UnitId) -> World {
        let u = self.unit(id);
        if u.fire_cooldown > 1 {
            self.with_unit(id, Unit { fire_cooldown: (u.fire_cooldown - 1) as u32, ..u })
        } else if let Some((target, tile)) = self.aim(cfg, id) {
            let t = self.unit(target);
            let hit = self.with_unit(
                target,
                Unit { hp: (t.hp - cfg.artillery_damage) as i32, ..t },
            );
            hit.with_unit(
                id,
                Unit { fire_cooldown: cfg.artillery_ticks(), ..hit.unit(id) },
            ).with_event(
                EventView::ArtilleryFired {
                    unit: id,
                    from: u.pos,
                    to: tile,
                    target,
                    damage: cfg.artillery_damage,
                },
            )
        } else {
            self.with_unit(id, Unit { fire_cooldown: 0, ..u })
        }
    }

    /// Health after a shot is representable, if one is fired.
    pub open spec fn shot_fits(self, cfg: SimulationConfig, id: UnitId) -> bool {
        self.aim(cfg, id) matches Some(aimed) ==> i32::MIN <= self.unit(aimed.0).hp
            - cfg.artillery_damage <= i32::MAX
    }

    /// The world after the first `n` guns had their turn.
    pub open spec fn after_shots(self, cfg: SimulationConfig, ids: Seq<UnitId>, n: int) -> World
        decreases n,
    {
        if n <= 0 {
            self
        } else {
            self.after_shots(cfg, ids, n - 1).shoot(cfg, ids[n - 1])
        }
    }

    /// The artillery phase of a tick.
    pub open spec fn artillery(self, cfg: SimulationConfig) -> World {
        self.after_shots(cfg, self.gunners(), self.gunners().len() as int)
    }

    /// Every shot of the artillery phase leaves a representable health.
    pub open spec fn artillery_fits(self, cfg: SimulationConfig) -> bool {
        forall|n: int|
            0 <= n < self.gunners().len() ==> #[trigger] self.after_shots(
                cfg,
                self.gunners(),
                n,
            ).shot_fits(cfg, self.gunners()[n])
    }
}

// ---------------------------------------------------------------------------
// 6. Death cleanup
// ---------------------------------------------------------------------------

impl World {
    /// A unit has no health left.
    pub open spec fn is_dead() -> spec_fn(Unit) -> bool {
        |u: Unit| u.hp <= 0
    }

    /// The fallen, in id order.
    pub open spec fn fallen(self) -> Seq<UnitId> {
        World::select(self.state.units, World::is_dead())
    }

    /// A unit freed from its grapple, so that it can fight and move again.
    pub open spec fn released(u: Unit) -> Unit {
        Unit { melee_target: None, state: UnitState::Idle, attack_cooldown: 0, ..u }
    }

    /// A fallen unit leaves the board and releases its opponent.
    pub open spec fn bury(self, id: UnitId) -> World {
        let u = self.unit(id);
        let gone = World {
            state: StateView { units: self.state.units.remove(id), ..self.state },
            ..self
        }.with_event(EventView::UnitDied { unit: id, owner: u.owner, at: u.pos });
        match u.melee_target {
            Some(partner) => if gone.has(partner) {
                gone.with_unit(partner, World::released(gone.unit(partner)))
            } else {
                gone
            },
            None => gone,
        }
    }

    /// The world after the first `n` of the fallen were buried.
    pub open spec fn after_burials(self, ids: Seq<UnitId>, n: int) -> World
        decreases n,
    {
        if n <= 0 {
            self
        } else {
            self.after_burials(ids, n - 1).bury(ids[n - 1])
        }
    }

    /// The cleanup phase of a tick.
    pub open spec fn cleanup(self) -> World {
        self.after_burials(self.fallen(), self.fallen().len() as int)
    }
}

// ---------------------------------------------------------------------------
// 7. Win conditions
// ---------------------------------------------------------------------------

impl World {
    /// How many units a side has left.
    pub open spec fn strength(self, owner: Owner) -> int {
        crate::game_state::army(self.state.units, owner).len() as int
    }

    /// The outcome that the board and the clock decide, if any.
    pub open spec fn outcome(self, cfg: SimulationConfig) -> Option<(Option<Owner>, EndReason)> {
        let white = self.strength(Owner::White);
        let black = self.strength(Owner::Black);
        if white == 0 && black == 0 {
            Some((None, EndReason::MutualAnnihilation))
        } else if white == 0 {
            Some((Some(Owner::Black), EndReason::Annihilation))
        } else if black == 0 {
            Some((Some(Owner::White), EndReason::Annihilation))
        } else if self.state.tick >= cfg.timeout_ticks() {
            if white > black {
                Some((Some(Owner::White), EndReason::Timeout))
            } else if white < black {
                Some((Some(Owner::Black), EndReason::Timeout))
            } else {
                Some((None, EndReason::Draw))
            }
        } else {
            None
        }
    }

    /// An active match ends once there is an outcome.
    pub open spec fn verdict(self, cfg: SimulationConfig) -> World {
        if self.state.status != MatchStatus::Active {
            self
        } else {
            match self.outcome(cfg) {
                Some((winner, reason)) => World {
                    state: StateView {
                        status: MatchStatus::Finished,
                        winner,
                        end_reason: Some(reason),
                        ..self.state
                    },
                    ..self
                }.with_event(EventView::MatchOver { winner, reason }),
                None => self,
            }
        }
    }
}

// ---------------------------------------------------------------------------
// The tick
// ---------------------------------------------------------------------------

impl World {
    /// A tick begins: the clock advances and no event has happened yet.
    pub open spec fn dawn(state: StateView) -> World {
        World {
            state: StateView { tick: (state.tick + 1) as u64, ..state },
            events: Seq::empty(),
        }
    }

    /// Movement and locks of a tick.
    pub open spec fn before_melee(
        state: StateView,
        cfg: SimulationConfig,
        chance: Double,
        rolls: Seq<u64>,
    ) -> World {
        World::dawn(state).movement(cfg, chance, rolls).locking(cfg)
    }

    /// The world one tick later, and the events of the tick. Only an active
    /// match moves.
    pub open spec fn tick(
        state: StateView,
        cfg: SimulationConfig,
        chance: Double,
        rolls: Seq<u64>,
    ) -> World {
        if state.status != MatchStatus::Active {
            World { state, events: Seq::empty() }
        } else {
            World::before_melee(state, cfg, chance, rolls).melee(cfg).artillery(
                cfg,
            ).cleanup().verdict(cfg)
        }
    }

    /// The clock and every health of the tick stay representable.
    pub open spec fn tick_fits(
        state: StateView,
        cfg: SimulationConfig,
        chance: Double,
        rolls: Seq<u64>,
    ) -> bool {
        state.status == MatchStatus::Active ==> {
            &&& state.tick < u64::MAX
            &&& World::before_melee(state, cfg, chance, rolls).melee_fits(cfg)
            &&& World::before_melee(state, cfg, chance, rolls).melee(cfg).artillery_fits(cfg)
        }
    }

    /// How many rolls a tick takes.
    pub open spec fn rolls_needed(state: StateView) -> int {
        if state.status == MatchStatus::Active {
            World { state, events: Seq::empty() }.movers().len() as int
        } else {
            0
        }
    }
}

// ---------------------------------------------------------------------------
// Filtered listings
// ---------------------------------------------------------------------------

pub proof fn lemma_filter_take(s: Seq<UnitId>, n: int, p: spec_fn(UnitId) -> bool)
    requires
        0 <= n < s.len(),
    ensures
        s.take(n + 1).filter(p) == (if p(s[n]) {
            s.take(n).filter(p).push(s[n])
        } else {
            s.take(n).filter(p)
        }),
{
    reveal(Seq::filter);
    assert(s.take(n + 1).drop_last() =~= s.take(n));
}

/// Every filtered id satisfies the filter and comes from the list.
pub proof fn lemma_filter_members(s: Seq<UnitId>, p: spec_fn(UnitId) -> bool)
    ensures
        forall|i: int|
            0 <= i < s.filter(p).len() ==> p(#[trigger] s.filter(p)[i]) && s.contains(
                s.filter(p)[i],
            ),
        forall|x: UnitId| s.contains(x) && p(x) ==> #[trigger] s.filter(p).contains(x),
        (forall|i: int, j: int| 0 <= i < j < s.len() ==> s[i] < s[j]) ==> (forall|i: int, j: int|
            0 <= i < j < s.filter(p).len() ==> s.filter(p)[i] < s.filter(p)[j]),
    decreases s.len(),
{
    reveal(Seq::filter);
    if s.len() > 0 {
        let t = s.drop_last();
        lemma_filter_members(t, p);
        assert forall|x: UnitId| s.contains(x) && p(x) implies #[trigger] s.filter(p).contains(
            x,
        ) by {
            if t.contains(x) {
                assert(t.filter(p).contains(x));
                let i = choose|i: int| 0 <= i < t.filter(p).len() && t.filter(p)[i] == x;
                assert(s.filter(p)[i] == x);
            } else {
                let k = choose|k: int| 0 <= k < s.len() && s[k] == x;
                assert(k == s.len() - 1) by {
                    if k < s.len() - 1 {
                        assert(t[k] == x);
                    }
                }
                assert(s.filter(p)[s.filter(p).len() - 1] == x);
            }
        }
        assert forall|i: int| 0 <= i < s.filter(p).len() implies p(#[trigger] s.filter(p)[i])
            && s.contains(s.filter(p)[i]) by {
            if i < t.filter(p).len() {
                let x = t.filter(p)[i];
                assert(t.contains(x));
                let k = choose|k: int| 0 <= k < t.len() && t[k] == x;
                assert(s[k] == x);
            } else {
                assert(s[s.len() - 1] == s.last());
            }
        }
        if forall|i: int, j: int| 0 <= i < j < s.len() ==> s[i] < s[j] {
            assert(forall|i: int, j: int| 0 <= i < j < t.len() ==> t[i] < t[j]);
            assert forall|i: int, j: int| 0 <= i < j < s.filter(p).len() implies s.filter(p)[i]
                < s.filter(p)[j] by {
                if j == t.filter(p).len() {
                    let x = t.filter(p)[i];
                    assert(t.contains(x));
                    let k = choose|k: int| 0 <= k < t.len() && t[k] == x;
                    assert(s[k] == x);
                }
            }
        }
    }
}

/// What a selection holds: exactly the units that satisfy the test, ascending.
pub proof fn lemma_select(units: Map<UnitId, Unit>, p: spec_fn(Unit) -> bool, ids: Seq<UnitId>)
    requires
        crate::roster::lists_ids(ids, units),
    ensures
        forall|i: int|
            0 <= i < World::select(units, p).len() ==> units.dom().contains(
                #[trigger] World::select(units, p)[i],
            ) && p(units[World::select(units, p)[i]]),
        forall|id: UnitId|
            units.dom().contains(id) && p(units[id]) ==> #[trigger] World::select(
                units,
                p,
            ).contains(id),
        forall|i: int, j: int|
            0 <= i < j < World::select(units, p).len() ==> World::select(units, p)[i]
                < World::select(units, p)[j],
{
    crate::roster::lemma_id_order_unique(ids, units);
    let q = |id: UnitId| p(units[id]);
    lemma_filter_members(ids, q);
    let chosen = World::select(units, p);
    assert(chosen == ids.filter(q));
    assert forall|i: int| 0 <= i < chosen.len() implies units.dom().contains(#[trigger] chosen[i])
        && p(units[chosen[i]]) by {
        assert(q(ids.filter(q)[i]));
        assert(ids.to_set().contains(chosen[i]));
    }
    assert forall|id: UnitId| units.dom().contains(id) && p(units[id]) implies
        #[trigger] chosen.contains(id) by {
        assert(ids.to_set().contains(id));
        assert(q(id));
    }
}

} // verus!

//! Client command validation.
//!
//! Commands are applied to the queued layer of the game state, never straight
//! into the world: moves are enqueued and resolve later on the simulation's
//! dice. Everything is validated here: ownership, unit kind, match status,
//! range and legality.

use crate::config::SimulationConfig;
use crate::events::{record, EventView, GameEvent};
use crate::game_state::{
    ArtilleryType, GameState, MatchStatus, Owner, StateView, Tile, Unit, UnitId, UnitKind,
    UnitState,
};
use crate::network::ClientMessage;
use crate::roster::{find_unit, put_unit};
use crate::rules::World;
use crate::text::{number_text, to_decimal};
use vstd::prelude::*;
use vstd::string::*;

verus! {

/// Why a command was refused.
#[derive(Debug, PartialEq, Eq)]
pub enum CommandError {
    MatchNotActive,
    NotAPlayer,
    UnknownUnit(UnitId),
    NotOwned(UnitId),
    NotMovable(UnitId),
    IllegalTarget { to: Tile, reason: String },
    NotUpgradable(UnitId),
    UnknownArtilleryType,
}

/// What a `CommandError` says.
pub enum Fault {
    MatchNotActive,
    NotAPlayer,
    UnknownUnit(UnitId),
    NotOwned(UnitId),
    NotMovable(UnitId),
    IllegalTarget { to: Tile, reason: Seq<char> },
    NotUpgradable(UnitId),
    UnknownArtilleryType,
}

impl View for CommandError {
    type V = Fault;

    open spec fn view(&self) -> Fault {
        match *self {
            CommandError::MatchNotActive => Fault::MatchNotActive,
            CommandError::NotAPlayer => Fault::NotAPlayer,
            CommandError::UnknownUnit(id) => Fault::UnknownUnit(id),
            CommandError::NotOwned(id) => Fault::NotOwned(id),
            CommandError::NotMovable(id) => Fault::NotMovable(id),
            CommandError::IllegalTarget { to, reason } => Fault::IllegalTarget {
                to,
                reason: reason@,
            },
            CommandError::NotUpgradable(id) => Fault::NotUpgradable(id),
            CommandError::UnknownArtilleryType => Fault::UnknownArtilleryType,
        }
    }
}

impl Clone for CommandError {
    fn clone(&self) -> (r: Self)
        ensures
            r@ == self@,
    {
        match self {
            CommandError::MatchNotActive => CommandError::MatchNotActive,
            CommandError::NotAPlayer => CommandError::NotAPlayer,
            CommandError::UnknownUnit(id) => CommandError::UnknownUnit(*id),
            CommandError::NotOwned(id) => CommandError::NotOwned(*id),
            CommandError::NotMovable(id) => CommandError::NotMovable(*id),
            CommandError::IllegalTarget { to, reason } => CommandError::IllegalTarget {
                to: *to,
                reason: reason.clone(),
            },
            CommandError::NotUpgradable(id) => CommandError::NotUpgradable(*id),
            CommandError::UnknownArtilleryType => CommandError::UnknownArtilleryType,
        }
    }
}

impl Fault {
    /// The machine-readable code of a refusal.
    pub open spec fn code(self) -> Seq<char> {
        match self {
            Fault::MatchNotActive => "match_not_active"@,
            Fault::NotAPlayer => "not_a_player"@,
            Fault::UnknownUnit(_) => "unknown_unit"@,
            Fault::NotOwned(_) => "not_owned"@,
            Fault::NotMovable(_) => "not_movable"@,
            Fault::IllegalTarget { .. } => "illegal_target"@,
            Fault::NotUpgradable(_) => "not_upgradable"@,
            Fault::UnknownArtilleryType => "unknown_artillery_type"@,
        }
    }

    /// The sentence shown to people.
    pub open spec fn text(self) -> Seq<char> {
        match self {
            Fault::MatchNotActive => "match is not active"@,
            Fault::NotAPlayer => "spectators cannot send commands"@,
            Fault::UnknownUnit(id) => crate::text::with_number(
                "unit "@,
                id as nat,
                " does not exist"@,
            ),
            Fault::NotOwned(id) => crate::text::with_number(
                "unit "@,
                id as nat,
                " is not yours"@,
            ),
            Fault::NotMovable(id) => crate::text::with_number(
                "unit "@,
                id as nat,
                " cannot move (locked, artillery or dead)"@,
            ),
            Fault::IllegalTarget { to, reason } => crate::text::with_number(
                "illegal target "@,
                to.x as nat,
                "-"@,
            ) + crate::text::decimal(to.y as nat) + ", "@ + reason,
            Fault::NotUpgradable(id) => crate::text::with_number(
                "unit "@,
                id as nat,
                " cannot be upgraded right now (must be an idle pawn)"@,
            ),
            Fault::UnknownArtilleryType => "unknown artillery type"@,
        }
    }
}

impl CommandError {
    /// Stable machine-readable code sent to clients in `error` messages.
    pub fn code(&self) -> (r: &'static str)
        ensures
            r@ == self@.code(),
    {
        match self {
            CommandError::MatchNotActive => "match_not_active",
            CommandError::NotAPlayer => "not_a_player",
            CommandError::UnknownUnit(_) => "unknown_unit",
            CommandError::NotOwned(_) => "not_owned",
            CommandError::NotMovable(_) => "not_movable",
            CommandError::IllegalTarget { .. } => "illegal_target",
            CommandError::NotUpgradable(_) => "not_upgradable",
            CommandError::UnknownArtilleryType => "unknown_artillery_type",
        }
    }

    /// The refusal as a sentence.
    pub fn message(&self) -> (r: String)
        ensures
            r@ == self@.text(),
    {
        match self {
            CommandError::MatchNotActive => "match is not active".to_owned(),
            CommandError::NotAPlayer => "spectators cannot send commands".to_owned(),
            CommandError::UnknownUnit(id) => number_text("unit ", *id as u64, " does not exist"),
            CommandError::NotOwned(id) => number_text("unit ", *id as u64, " is not yours"),
            CommandError::NotMovable(id) => number_text(
                "unit ",
                *id as u64,
                " cannot move (locked, artillery or dead)",
            ),
            CommandError::IllegalTarget { to, reason } => {
                let mut r = number_text("illegal target ", to.x as u64, "-");
                let y = to_decimal(to.y as u64);
                r.append(y.as_str());
                r.append(", ");
                r.append(reason.as_str());
                r
            },
            CommandError::NotUpgradable(id) => number_text(
                "unit ",
                *id as u64,
                " cannot be upgraded right now (must be an idle pawn)",
            ),
            CommandError::UnknownArtilleryType => "unknown artillery type".to_owned(),
        }
    }
}

// ---------------------------------------------------------------------------
// What each command asks for
// ---------------------------------------------------------------------------

impl Fault {
    /// A side commands only units that exist and are its own.
    pub open spec fn of_ownership(s: StateView, owner: Owner, id: UnitId) -> Option<Fault> {
        if !s.units.dom().contains(id) {
            Some(Fault::UnknownUnit(id))
        } else if s.units[id].owner != owner {
            Some(Fault::NotOwned(id))
        } else {
            None
        }
    }

    /// A move needs an active match, a pawn that is not locked, and a free tile
    /// of the board within range.
    pub open spec fn of_move(
        s: StateView,
        owner: Owner,
        id: UnitId,
        target: Tile,
        range: u8,
    ) -> Option<Fault> {
        let u = s.units[id];
        if s.status != MatchStatus::Active {
            Some(Fault::MatchNotActive)
        } else if Fault::of_ownership(s, owner, id) is Some {
            Fault::of_ownership(s, owner, id)
        } else if u.kind != UnitKind::Pawn || u.state == UnitState::Locked {
            Some(Fault::NotMovable(id))
        } else if !s.inside(target) {
            Some(Fault::IllegalTarget { to: target, reason: "outside the board"@ })
        } else if target.distance(u.pos) > range {
            Some(
                Fault::IllegalTarget {
                    to: target,
                    reason: crate::text::with_number("move range is "@, range as nat, " tile(s)"@),
                },
            )
        } else if s.walls.contains(target) {
            Some(Fault::IllegalTarget { to: target, reason: "wall"@ })
        } else if s.unit_at(target) is Some {
            Some(Fault::IllegalTarget { to: target, reason: "tile occupied"@ })
        } else {
            None
        }
    }

    /// An upgrade needs an active match and an idle pawn with no queued move.
    pub open spec fn of_upgrade(s: StateView, owner: Owner, id: UnitId) -> Option<Fault> {
        let u = s.units[id];
        if s.status != MatchStatus::Active {
            Some(Fault::MatchNotActive)
        } else if Fault::of_ownership(s, owner, id) is Some {
            Fault::of_ownership(s, owner, id)
        } else if u.kind != UnitKind::Pawn || u.state != UnitState::Idle || u.pending_move is Some {
            Some(Fault::NotUpgradable(id))
        } else {
            None
        }
    }

    /// What is wrong with a message, if anything.
    pub open spec fn of_message(
        s: StateView,
        owner: Owner,
        msg: ClientMessage,
        cfg: SimulationConfig,
    ) -> Option<Fault> {
        match msg {
            ClientMessage::Select { unit_id } => Fault::of_ownership(s, owner, unit_id),
            ClientMessage::Move { unit_id, target } => Fault::of_move(
                s,
                owner,
                unit_id,
                target,
                cfg.pawn_move_range,
            ),
            ClientMessage::Upgrade { unit_id, .. } => Fault::of_upgrade(s, owner, unit_id),
            ClientMessage::Ping => None,
        }
    }
}

impl World {
    /// A move is queued, not applied: the simulation's dice decide when.
    pub open spec fn queue_move(self, owner: Owner, id: UnitId, target: Tile) -> World {
        let u = self.unit(id);
        self.with_unit(
            id,
            Unit { pending_move: Some(target), state: UnitState::Moving, ..u },
        ).with_event(EventView::MoveQueued { unit: id, by: owner, from: u.pos, to: target })
    }

    /// A pawn becomes artillery and starts loading.
    pub open spec fn promote(self, id: UnitId, cooldown: u32) -> World {
        let u = self.unit(id);
        self.with_unit(
            id,
            Unit {
                kind: UnitKind::Artillery,
                state: UnitState::Idle,
                pending_move: None,
                fire_cooldown: cooldown,
                ..u
            },
        ).with_event(
            EventView::UnitUpgraded { unit: id, at: u.pos, kind: UnitKind::Artillery },
        )
    }

    /// The world once a side's message has been handled. A refused message
    /// changes nothing.
    pub open spec fn commanded(
        self,
        owner: Owner,
        msg: ClientMessage,
        cfg: SimulationConfig,
    ) -> World {
        if Fault::of_message(self.state, owner, msg, cfg) is Some {
            self
        } else {
            match msg {
                ClientMessage::Select { .. } => self,
                ClientMessage::Move { unit_id, target } => self.queue_move(owner, unit_id, target),
                ClientMessage::Upgrade { unit_id, .. } => self.promote(
                    unit_id,
                    cfg.artillery_ticks(),
                ),
                ClientMessage::Ping => self,
            }
        }
    }
}

// ---------------------------------------------------------------------------
// Handlers
// ---------------------------------------------------------------------------

/// Validates a client message and applies it to the queued layer of `state`. On
/// success, the events it gives rise to (such as `MoveQueued`) are appended.
pub fn handle_message(
    state: &mut GameState,
    owner: Owner,
    msg: ClientMessage,
    cfg: &SimulationConfig,
    events: &mut Vec<GameEvent>,
) -> (r: Result<(), CommandError>)
    ensures
        r is Ok <==> Fault::of_message(old(state)@, owner, msg, *cfg) is None,
        r matches Err(e) ==> Fault::of_message(old(state)@, owner, msg, *cfg) == Some(e@),
        World::of(*final(state), final(events)@) == World::of(
            *old(state),
            old(events)@,
        ).commanded(owner, msg, *cfg),
        old(state).wf() ==> final(state).wf(),
        final(state).walls == old(state).walls,
{
    match msg {
        ClientMessage::Select { unit_id } => handle_select(state, owner, unit_id),
        ClientMessage::Move { unit_id, target } => handle_move(
            state,
            owner,
            unit_id,
            target,
            cfg,
            events,
        ),
        ClientMessage::Upgrade { unit_id, artillery_type } => handle_upgrade(
            state,
            owner,
            unit_id,
            artillery_type,
            cfg,
            events,
        ),
        // Answered on the connection; here it is a no-op.
        ClientMessage::Ping => Ok(()),
    }
}

fn owned_unit(state: &GameState, owner: Owner, unit_id: UnitId) -> (r: Result<(), CommandError>)
    ensures
        r is Ok <==> Fault::of_ownership(state@, owner, unit_id) is None,
        r matches Err(e) ==> Fault::of_ownership(state@, owner, unit_id) == Some(e@),
{
    match find_unit(&state.units, unit_id) {
        None => Err(CommandError::UnknownUnit(unit_id)),
        Some(u) => if u.owner != owner {
            Err(CommandError::NotOwned(unit_id))
        } else {
            Ok(())
        },
    }
}

/// Selection is the client's own presentation; only ownership is checked.
pub fn handle_select(state: &GameState, owner: Owner, unit_id: UnitId) -> (r: Result<
    (),
    CommandError,
>)
    ensures
        r is Ok <==> Fault::of_ownership(state@, owner, unit_id) is None,
        r matches Err(e) ==> Fault::of_ownership(state@, owner, unit_id) == Some(e@),
{
    owned_unit(state, owner, unit_id)
}

fn illegal(to: Tile, reason: &str) -> (r: Result<(), CommandError>)
    ensures
        r matches Err(e) && e@ == (Fault::IllegalTarget { to, reason: reason@ }),
{
    Err(CommandError::IllegalTarget { to, reason: reason.to_owned() })
}

/// Queues a move of one of the side's units.
pub fn handle_move(
    state: &mut GameState,
    owner: Owner,
    unit_id: UnitId,
    target: Tile,
    cfg: &SimulationConfig,
    events: &mut Vec<GameEvent>,
) -> (r: Result<(), CommandError>)
    ensures
        ({
            let fault = Fault::of_move(old(state)@, owner, unit_id, target, cfg.pawn_move_range);
            let before = World::of(*old(state), old(events)@);
            let after = World::of(*final(state), final(events)@);
            &&& r is Ok <==> fault is None
            &&& r matches Err(e) ==> fault == Some(e@)
            &&& r is Ok ==> after == before.queue_move(owner, unit_id, target)
            &&& r is Err ==> after == before
        }),
        old(state).wf() ==> final(state).wf(),
        final(state).walls == old(state).walls,
{
    if state.status != MatchStatus::Active {
        return Err(CommandError::MatchNotActive);
    }
    let owned = owned_unit(state, owner, unit_id);
    if owned.is_err() {
        return owned;
    }
    let unit = find_unit(&state.units, unit_id).unwrap();
    if unit.kind != UnitKind::Pawn {
        return Err(CommandError::NotMovable(unit_id));
    }
    if unit.state == UnitState::Locked {
        return Err(CommandError::NotMovable(unit_id));
    }
    if !state.is_inside(target) {
        return illegal(target, "outside the board");
    }
    if target.chebyshev(unit.pos) > cfg.pawn_move_range {
        let reason = number_text("move range is ", cfg.pawn_move_range as u64, " tile(s)");
        return illegal(target, reason.as_str());
    }
    if state.has_wall(target) {
        return illegal(target, "wall");
    }
    if state.unit_at(target).is_some() {
        return illegal(target, "tile occupied");
    }
    // The move is legal: queue it. The simulation rolls the dice on each tick
    // until it resolves or goes stale.

    put_unit(
        &mut state.units,
        unit_id,
        Unit { pending_move: Some(target), state: UnitState::Moving, ..unit },
    );
    record(
        events,
        GameEvent::MoveQueued { unit: unit_id, by: owner, from: unit.pos, to: target },
    );
    Ok(())
}

/// Turns one of the side's idle pawns into artillery.
pub fn handle_upgrade(
    state: &mut GameState,
    owner: Owner,
    unit_id: UnitId,
    artillery_type: ArtilleryType,
    cfg: &SimulationConfig,
    events: &mut Vec<GameEvent>,
) -> (r: Result<(), CommandError>)
    ensures
        ({
            let fault = Fault::of_upgrade(old(state)@, owner, unit_id);
            let before = World::of(*old(state), old(events)@);
            let after = World::of(*final(state), final(events)@);
            &&& r is Ok <==> fault is None
            &&& r matches Err(e) ==> fault == Some(e@)
            &&& r is Ok ==> after == before.promote(unit_id, cfg.artillery_ticks())
            &&& r is Err ==> after == before
        }),
        old(state).wf() ==> final(state).wf(),
        final(state).walls == old(state).walls,
{
    if state.status != MatchStatus::Active {
        return Err(CommandError::MatchNotActive);
    }
    let owned = owned_unit(state, owner, unit_id);
    if owned.is_err() {
        return owned;
    }
    let unit = find_unit(&state.units, unit_id).unwrap();
    if unit.kind != UnitKind::Pawn {
        return Err(CommandError::NotUpgradable(unit_id));
    }
    if unit.state != UnitState::Idle || unit.pending_move.is_some() {
        return Err(CommandError::NotUpgradable(unit_id));
    }
    // There is a single cannon variant; the type only travels on the wire.

    let _ = artillery_type;
    put_unit(
        &mut state.units,
        unit_id,
        Unit {
            kind: UnitKind::Artillery,
            state: UnitState::Idle,
            pending_move: None,
            fire_cooldown: cfg.artillery_cooldown_ticks(),
            ..unit
        },
    );
    record(
        events,
        GameEvent::UnitUpgraded { unit: unit_id, at: unit.pos, kind: UnitKind::Artillery },
    );
    Ok(())
}

} // verus!

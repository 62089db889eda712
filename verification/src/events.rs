//! Game events broadcast to clients for visual and audio feedback.

use crate::game_state::{EndReason, Owner, Tile, UnitId, UnitKind};
use vstd::prelude::*;

verus! {

/// Something that happened in a match.
#[allow(inconsistent_fields)]
#[derive(Debug)]
pub enum GameEvent {
    MatchStarted,
    MoveQueued { unit: UnitId, by: Owner, from: Tile, to: Tile },
    MoveResolved { unit: UnitId, by: Owner, from: Tile, to: Tile },
    MoveBlocked { unit: UnitId, by: Owner, to: Tile, reason: String },
    MeleeLocked { a: UnitId, b: UnitId },
    MeleeHit { attacker: UnitId, defender: UnitId, damage: i32, hp_left: i32 },
    ArtilleryFired { unit: UnitId, from: Tile, to: Tile, target: UnitId, damage: i32 },
    UnitUpgraded { unit: UnitId, at: Tile, kind: UnitKind },
    UnitDied { unit: UnitId, owner: Owner, at: Tile },
    MatchOver { winner: Option<Owner>, reason: EndReason },
}

/// What a `GameEvent` says.
#[allow(inconsistent_fields)]
pub enum EventView {
    MatchStarted,
    MoveQueued { unit: UnitId, by: Owner, from: Tile, to: Tile },
    MoveResolved { unit: UnitId, by: Owner, from: Tile, to: Tile },
    MoveBlocked { unit: UnitId, by: Owner, to: Tile, reason: Seq<char> },
    MeleeLocked { a: UnitId, b: UnitId },
    MeleeHit { attacker: UnitId, defender: UnitId, damage: i32, hp_left: i32 },
    ArtilleryFired { unit: UnitId, from: Tile, to: Tile, target: UnitId, damage: i32 },
    UnitUpgraded { unit: UnitId, at: Tile, kind: UnitKind },
    UnitDied { unit: UnitId, owner: Owner, at: Tile },
    MatchOver { winner: Option<Owner>, reason: EndReason },
}

impl View for GameEvent {
    type V = EventView;

    open spec fn view(&self) -> EventView {
        match *self {
            GameEvent::MatchStarted => EventView::MatchStarted,
            GameEvent::MoveQueued { unit, by, from, to } => EventView::MoveQueued {
                unit,
                by,
                from,
                to,
            },
            GameEvent::MoveResolved { unit, by, from, to } => EventView::MoveResolved {
                unit,
                by,
                from,
                to,
            },
            GameEvent::MoveBlocked { unit, by, to, reason } => EventView::MoveBlocked {
                unit,
                by,
                to,
                reason: reason@,
            },
            GameEvent::MeleeLocked { a, b } => EventView::MeleeLocked { a, b },
            GameEvent::MeleeHit { attacker, defender, damage, hp_left } => EventView::MeleeHit {
                attacker,
                defender,
                damage,
                hp_left,
            },
            GameEvent::ArtilleryFired { unit, from, to, target, damage } =>
                EventView::ArtilleryFired { unit, from, to, target, damage },
            GameEvent::UnitUpgraded { unit, at, kind } => EventView::UnitUpgraded {
                unit,
                at,
                kind,
            },
            GameEvent::UnitDied { unit, owner, at } => EventView::UnitDied { unit, owner, at },
            GameEvent::MatchOver { winner, reason } => EventView::MatchOver { winner, reason },
        }
    }
}

impl Clone for GameEvent {
    fn clone(&self) -> (r: Self)
        ensures
            r@ == self@,
    {
        match self {
            GameEvent::MatchStarted => GameEvent::MatchStarted,
            GameEvent::MoveQueued { unit, by, from, to } => GameEvent::MoveQueued {
                unit: *unit,
                by: *by,
                from: *from,
                to: *to,
            },
            GameEvent::MoveResolved { unit, by, from, to } => GameEvent::MoveResolved {
                unit: *unit,
                by: *by,
                from: *from,
                to: *to,
            },
            GameEvent::MoveBlocked { unit, by, to, reason } => GameEvent::MoveBlocked {
                unit: *unit,
                by: *by,
                to: *to,
                reason: reason.clone(),
            },
            GameEvent::MeleeLocked { a, b } => GameEvent::MeleeLocked { a: *a, b: *b },
            GameEvent::MeleeHit { attacker, defender, damage, hp_left } => GameEvent::MeleeHit {
                attacker: *attacker,
                defender: *defender,
                damage: *damage,
                hp_left: *hp_left,
            },
            GameEvent::ArtilleryFired { unit, from, to, target, damage } =>
                GameEvent::ArtilleryFired {
                    unit: *unit,
                    from: *from,
                    to: *to,
                    target: *target,
                    damage: *damage,
                },
            GameEvent::UnitUpgraded { unit, at, kind } => GameEvent::UnitUpgraded {
                unit: *unit,
                at: *at,
                kind: *kind,
            },
            GameEvent::UnitDied { unit, owner, at } => GameEvent::UnitDied {
                unit: *unit,
                owner: *owner,
                at: *at,
            },
            GameEvent::MatchOver { winner, reason } => GameEvent::MatchOver {
                winner: *winner,
                reason: *reason,
            },
        }
    }
}

impl EventView {
    /// The event is about this unit.
    pub open spec fn touches(self, id: UnitId) -> bool {
        match self {
            EventView::MoveQueued { unit, .. } => unit == id,
            EventView::MoveResolved { unit, .. } => unit == id,
            EventView::MoveBlocked { unit, .. } => unit == id,
            EventView::MeleeLocked { a, b } => a == id || b == id,
            EventView::MeleeHit { attacker, defender, .. } => attacker == id || defender == id,
            EventView::ArtilleryFired { unit, target, .. } => unit == id || target == id,
            EventView::UnitUpgraded { unit, .. } => unit == id,
            EventView::UnitDied { unit, .. } => unit == id,
            EventView::MatchStarted | EventView::MatchOver { .. } => false,
        }
    }
}

/// Some event is about this unit.
pub open spec fn touched(events: Seq<EventView>, id: UnitId) -> bool {
    exists|i: int| 0 <= i < events.len() && (#[trigger] events[i]).touches(id)
}

/// The units that died, in the order of the events.
pub open spec fn deaths(events: Seq<EventView>) -> Seq<UnitId>
    decreases events.len(),
{
    if events.len() == 0 {
        Seq::empty()
    } else {
        let before = deaths(events.drop_last());
        match events.last() {
            EventView::UnitDied { unit, .. } => before.push(unit),
            _ => before,
        }
    }
}

/// What a list of events says.
pub open spec fn event_views(events: Seq<GameEvent>) -> Seq<EventView> {
    events.map_values(|e: GameEvent| e@)
}

/// Appends an event.
pub fn record(events: &mut Vec<GameEvent>, event: GameEvent)
    ensures
        event_views(final(events)@) == event_views(old(events)@).push(event@),
        final(events)@ == old(events)@.push(event),
{
    events.push(event);
    proof {
        assert(event_views(events@) =~= event_views(old(events)@).push(event@));
    }
}

} // verus!

//! Models say what values hold: nothing is left out and nothing is added.

use crate::config::Config;
use crate::events::{EventView, GameEvent};
use crate::game_state::{
    EndReason, GameState, MatchStatus, Owner, StateDelta, Tile, UnitId, UnitKind,
};
use crate::input::{CommandError, Fault};
use crate::match_manager::MatchInner;
use crate::network::{MessageView, ServerMessage};
use vstd::prelude::*;

verus! {

/// The model of a state has its clock, board, outcome and units, and a wall
/// wherever the state lists one.
pub proof fn law_states(s: GameState, t: Tile)
    ensures
        s@.tick == s.tick,
        s@.board_size == s.board_size,
        s@.status == s.status,
        s@.winner == s.winner,
        s@.end_reason == s.end_reason,
        s@.units == s.units@,
        s@.next_unit_id == s.next_unit_id,
        s@.walls.contains(t) <==> s.walls@.contains(t),
{
}

/// A state is well formed if and only if every unit is kept under its own id,
/// every id has been given out, and no wall is listed twice.
pub proof fn law_well_formed_states(s: GameState)
    ensures
        s.wf() <==> (forall|id: UnitId| #[trigger]
            s.units@.dom().contains(id) ==> s.units@[id].id == id && id < s.next_unit_id) && (
        forall|i: int, j: int| 0 <= i < j < s.walls@.len() ==> s.walls@[i] != s.walls@[j]),
{
    if forall|i: int, j: int| 0 <= i < j < s.walls@.len() ==> s.walls@[i] != s.walls@[j] {
        assert(s.walls@.no_duplicates());
    }
}

/// The model of a configuration has every setting.
pub proof fn law_configurations(c: Config)
    ensures
        c@.host == c.server.host@,
        c@.port == c.server.port,
        c@.max_matches == c.server.max_matches,
        c@.board == c.board,
        c@.simulation == c.simulation,
        c@.lifecycle == c.lifecycle,
{
}

/// The model of a match has its configuration, state, seats, times and dice.
pub proof fn law_matches(m: MatchInner)
    ensures
        m@.cfg == m.cfg@,
        m@.state == m.state@,
        m@.white_token is Some <==> m.white_token is Some,
        m.white_token matches Some(t) ==> m@.white_token == Some(t@),
        m@.black_token is Some <==> m.black_token is Some,
        m.black_token matches Some(t) ==> m@.black_token == Some(t@),
        m@.created_at == m.created_at,
        m@.finished_at == m.finished_at,
        m@.rng == m.rng,
{
}

/// The model of an event is the event.
pub proof fn law_events(
    a: UnitId,
    b: UnitId,
    side: Owner,
    from: Tile,
    to: Tile,
    text: String,
    n: i32,
    m: i32,
    kind: UnitKind,
    winner: Option<Owner>,
    end: EndReason,
)
    ensures
        GameEvent::MatchStarted@ == EventView::MatchStarted,
        (GameEvent::MoveQueued { unit: a, by: side, from, to })@ == (EventView::MoveQueued {
            unit: a,
            by: side,
            from,
            to,
        }),
        (GameEvent::MoveResolved { unit: a, by: side, from, to })@ == (EventView::MoveResolved {
            unit: a,
            by: side,
            from,
            to,
        }),
        (GameEvent::MoveBlocked { unit: a, by: side, to, reason: text })@ == (
        EventView::MoveBlocked { unit: a, by: side, to, reason: text@ }),
        (GameEvent::MeleeLocked { a, b })@ == (EventView::MeleeLocked { a, b }),
        (GameEvent::MeleeHit { attacker: a, defender: b, damage: n, hp_left: m })@ == (
        EventView::MeleeHit { attacker: a, defender: b, damage: n, hp_left: m }),
        (GameEvent::ArtilleryFired { unit: a, from, to, target: b, damage: n })@ == (
        EventView::ArtilleryFired { unit: a, from, to, target: b, damage: n }),
        (GameEvent::UnitUpgraded { unit: a, at: to, kind })@ == (EventView::UnitUpgraded {
            unit: a,
            at: to,
            kind,
        }),
        (GameEvent::UnitDied { unit: a, owner: side, at: to })@ == (EventView::UnitDied {
            unit: a,
            owner: side,
            at: to,
        }),
        (GameEvent::MatchOver { winner, reason: end })@ == (EventView::MatchOver {
            winner,
            reason: end,
        }),
{
}

/// The model of a list of events, or of messages, has each of them in its place.
pub proof fn law_lists(events: Seq<GameEvent>, messages: Seq<ServerMessage>)
    ensures
        crate::events::event_views(events).len() == events.len(),
        forall|i: int|
            0 <= i < events.len() ==> #[trigger] crate::events::event_views(events)[i]
                == events[i]@,
        crate::network::message_views(messages).len() == messages.len(),
        forall|i: int|
            0 <= i < messages.len() ==> #[trigger] crate::network::message_views(messages)[i]
                == messages[i]@,
{
}

/// The model of a message is the message.
pub proof fn law_messages(
    id: String,
    you: Option<Owner>,
    status: MatchStatus,
    tick: u64,
    state: GameState,
    delta: StateDelta,
    event: GameEvent,
    code: String,
    detail: String,
)
    ensures
        (ServerMessage::Welcome { match_id: id, you, status, tick })@ == (MessageView::Welcome {
            match_id: id@,
            you,
            status,
            tick,
        }),
        (ServerMessage::StateSnapshot { state })@ == (MessageView::StateSnapshot { state: state@ }),
        (ServerMessage::StateDelta { delta })@ == (MessageView::StateDelta { delta: delta@ }),
        delta@.tick == delta.tick,
        delta@.status == delta.status,
        delta@.winner == delta.winner,
        delta@.end_reason == delta.end_reason,
        delta@.updated == delta.updated@,
        delta@.removed == delta.removed@,
        (ServerMessage::Event { event })@ == (MessageView::Event { event: event@ }),
        (ServerMessage::Error { to: you, code, detail })@ == (MessageView::Error {
            to: you,
            code: code@,
            detail: detail@,
        }),
        (ServerMessage::Pong { tick })@ == (MessageView::Pong { tick }),
{
}

/// The model of a refusal is the refusal.
pub proof fn law_refusals(id: UnitId, to: Tile, reason: String)
    ensures
        CommandError::MatchNotActive@ == Fault::MatchNotActive,
        CommandError::NotAPlayer@ == Fault::NotAPlayer,
        CommandError::UnknownUnit(id)@ == Fault::UnknownUnit(id),
        CommandError::NotOwned(id)@ == Fault::NotOwned(id),
        CommandError::NotMovable(id)@ == Fault::NotMovable(id),
        (CommandError::IllegalTarget { to, reason })@ == (Fault::IllegalTarget {
            to,
            reason: reason@,
        }),
        CommandError::NotUpgradable(id)@ == Fault::NotUpgradable(id),
        CommandError::UnknownArtilleryType@ == Fault::UnknownArtilleryType,
{
}

// ---------------------------------------------------------------------------
// Identifiers
// ---------------------------------------------------------------------------

/// A hexadecimal digit in lower case.
pub open spec fn is_hex(c: char) -> bool {
    '0' <= c <= '9' || 'a' <= c <= 'f'
}

proof fn lemma_hex(n: nat, len: nat)
    ensures
        crate::chance::hex(n, len).len() == len,
        forall|i: int| 0 <= i < len ==> is_hex(#[trigger] crate::chance::hex(n, len)[i]),
    decreases len,
{
    if len > 0 {
        lemma_hex(n / 16, (len - 1) as nat);
        let all = crate::chance::hex(n, len);
        let rest = crate::chance::hex(n / 16, (len - 1) as nat);
        assert forall|i: int| 0 <= i < len implies is_hex(#[trigger] all[i]) by {
            if i < len - 1 {
                assert(all[i] == rest[i]);
            }
        }
    }
}

/// Match ids are twelve lower-case hexadecimal digits.
pub proof fn law_match_ids(id: Seq<char>)
    requires
        crate::chance::is_match_id(id),
    ensures
        id.len() == 12,
        forall|i: int| 0 <= i < 12 ==> is_hex(#[trigger] id[i]),
{
    let n = choose|n: u128|
        crate::chance::is_random_id(n) && id == #[trigger] crate::chance::plain_text(n).take(12);
    lemma_hex(n as nat, 32);
}

/// Player tokens are lower-case hexadecimal digits in groups of 8, 4, 4, 4 and
/// 12 with hyphens between them.
pub proof fn law_tokens(token: Seq<char>)
    requires
        crate::chance::is_token(token),
    ensures
        token.len() == 36,
        forall|i: int|
            0 <= i < 36 ==> if i == 8 || i == 13 || i == 18 || i == 23 {
                #[trigger] token[i] == '-'
            } else {
                is_hex(token[i])
            },
{
    let n = choose|n: u128|
        crate::chance::is_random_id(n) && token == #[trigger] crate::chance::grouped_text(n);
    lemma_hex(n as nat, 32);
    let t = crate::chance::plain_text(n);
    assert forall|i: int| 0 <= i < 36 implies if i == 8 || i == 13 || i == 18 || i == 23 {
        #[trigger] token[i] == '-'
    } else {
        is_hex(token[i])
    } by {
        if i < 8 {
            assert(token[i] == t[i]);
        } else if 8 < i < 13 {
            assert(token[i] == t[i - 1]);
        } else if 13 < i < 18 {
            assert(token[i] == t[i - 2]);
        } else if 18 < i < 23 {
            assert(token[i] == t[i - 3]);
        } else if i > 23 {
            assert(token[i] == t[i - 4]);
        }
    }
}

} // verus!

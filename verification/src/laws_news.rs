//! What clients are told: answers, ticks, change sets and greetings.

use crate::config::BroadcastMode;
use crate::double::Double;
use crate::events::EventView;
use crate::game_state::{
    ArtilleryType, EndReason, MatchStatus, Owner, StateView, Tile, UnitId, UnitKind,
};
use crate::input::Fault;
use crate::match_manager::MatchView;
use crate::network::{ClientMessage, Frame, FrameAction, InputItem, MessageView, Role};
use crate::rules::World;
use vstd::prelude::*;

verus! {

// ---------------------------------------------------------------------------
// Events
// ---------------------------------------------------------------------------

/// An event is about the units that it names, and about no other.
pub proof fn law_events_name_their_units(
    id: UnitId,
    a: UnitId,
    b: UnitId,
    side: Owner,
    from: Tile,
    to: Tile,
    text: Seq<char>,
    n: i32,
    m: i32,
    kind: UnitKind,
    winner: Option<Owner>,
    reason: EndReason,
)
    ensures
        !EventView::MatchStarted.touches(id),
        (EventView::MoveQueued { unit: a, by: side, from, to }).touches(id) <==> id == a,
        (EventView::MoveResolved { unit: a, by: side, from, to }).touches(id) <==> id == a,
        (EventView::MoveBlocked { unit: a, by: side, to, reason: text }).touches(id) <==> id == a,
        (EventView::MeleeLocked { a, b }).touches(id) <==> id == a || id == b,
        (EventView::MeleeHit { attacker: a, defender: b, damage: n, hp_left: m }).touches(id)
            <==> id == a || id == b,
        (EventView::ArtilleryFired { unit: a, from, to, target: b, damage: n }).touches(id)
            <==> id == a || id == b,
        (EventView::UnitUpgraded { unit: a, at: to, kind }).touches(id) <==> id == a,
        (EventView::UnitDied { unit: a, owner: side, at: to }).touches(id) <==> id == a,
        !(EventView::MatchOver { winner, reason }).touches(id),
{
}

/// Some of the events is about a unit if and only if one of them is; and the
/// dead are those whose deaths are reported, in the order of the reports.
pub proof fn law_events_add_up(events: Seq<EventView>, e: EventView, id: UnitId)
    ensures
        !crate::events::touched(Seq::<EventView>::empty(), id),
        crate::events::touched(events.push(e), id) <==> crate::events::touched(events, id)
            || e.touches(id),
        crate::events::deaths(Seq::<EventView>::empty()).len() == 0,
        e !is UnitDied ==> crate::events::deaths(events.push(e)) == crate::events::deaths(events),
        e matches EventView::UnitDied { unit, .. } ==> crate::events::deaths(events.push(e))
            == crate::events::deaths(events).push(unit),
{
    crate::progress::lemma_event_pushed(events, e);
    let more = events.push(e);
    assert(more[events.len() as int] == e);
    if crate::events::touched(events, id) {
        let i = choose|i: int| 0 <= i < events.len() && (#[trigger] events[i]).touches(id);
        assert(more[i].touches(id));
    }
    if crate::events::touched(more, id) {
        let i = choose|i: int| 0 <= i < more.len() && (#[trigger] more[i]).touches(id);
        if i < events.len() {
            assert(events[i].touches(id));
        }
    }
}

/// What events cost: a hit costs its defender and a shot its target the damage
/// that they report, and nothing else costs anyone anything.
pub proof fn law_damage_of_events(
    events: Seq<EventView>,
    e: EventView,
    id: UnitId,
)
    ensures
        crate::progress::damage_to(Seq::<EventView>::empty(), id) == 0,
        crate::progress::damage_to(events.push(e), id) == crate::progress::damage_to(events, id) + (
        match e {
            EventView::MeleeHit { defender, damage, .. } if defender == id => damage as int,
            EventView::ArtilleryFired { target, damage, .. } if target == id => damage as int,
            _ => 0,
        }),
{
    crate::progress::lemma_event_pushed(events, e);
}

// ---------------------------------------------------------------------------
// Change sets
// ---------------------------------------------------------------------------

/// A change set has the clock, status and outcome after the tick; the full
/// record of exactly those units on the board that are new, that changed, or
/// that an event is about, by ascending id; and the dead as reported.
pub proof fn law_change_sets(before: StateView, w: World)
    requires
        w.state.keyed(),
    ensures
        ({
            let d = crate::match_manager::delta_of(before, w);
            let units = w.state.units;
            &&& d.tick == w.state.tick
            &&& d.status == w.state.status
            &&& d.winner == w.state.winner
            &&& d.end_reason == w.state.end_reason
            &&& d.removed == crate::events::deaths(w.events)
            &&& forall|i: int, j: int|
                0 <= i < j < d.updated.len() ==> (#[trigger] d.updated[i]).id < (
                #[trigger] d.updated[j]).id
            &&& forall|i: int|
                0 <= i < d.updated.len() ==> {
                    let id = (#[trigger] d.updated[i]).id;
                    &&& units.dom().contains(id)
                    &&& d.updated[i] == units[id]
                    &&& crate::events::touched(w.events, id) || !before.units.dom().contains(id)
                        || before.units[id] != units[id]
                }
            &&& forall|id: UnitId| #[trigger]
                units.dom().contains(id) && (crate::events::touched(w.events, id)
                    || !before.units.dom().contains(id) || before.units[id] != units[id])
                    ==> exists|i: int|
                    0 <= i < d.updated.len() && (#[trigger] d.updated[i]).id == id
        }),
{
    let d = crate::match_manager::delta_of(before, w);
    let units = w.state.units;
    let ids = w.ids();
    let p = |id: UnitId| crate::match_manager::is_news(before.units, units, w.events, id);
    crate::roster::lemma_id_order(units);
    crate::rules::lemma_filter_members(ids, p);
    let news = ids.filter(p);
    assert(d.updated =~= news.map_values(|id: UnitId| units[id]));
    assert forall|i: int| 0 <= i < d.updated.len() implies (#[trigger] d.updated[i]).id == news[i]
        && units.dom().contains(news[i]) && d.updated[i] == units[news[i]] && p(news[i]) by {
        assert(ids.contains(news[i]));
        assert(ids.to_set().contains(news[i]));
        assert(units.dom().contains(news[i]));
    }
    assert forall|id: UnitId| #[trigger]
        units.dom().contains(id) && (crate::events::touched(w.events, id)
            || !before.units.dom().contains(id) || before.units[id] != units[id]) implies exists|
        i: int,
    |
        0 <= i < d.updated.len() && (#[trigger] d.updated[i]).id == id by {
        assert(ids.to_set().contains(id));
        assert(ids.contains(id));
        assert(p(id));
        assert(news.contains(id));
        let k = choose|k: int| 0 <= k < news.len() && news[k] == id;
        assert(d.updated[k].id == id);
    }
}

// ---------------------------------------------------------------------------
// Turns
// ---------------------------------------------------------------------------

/// The turn of an active match: its inputs are handled and it advances by one
/// tick. Everyone is told, in this order: the answers to the inputs; the state
/// after the tick, or in delta mode the change set since before the turn,
/// whether or not anything happened; each event of the tick, in order; and, if
/// the match is now over, the final state. Then, and only then, the loop stops
/// and the time is noted. Nothing else of the match changes.
pub proof fn law_active_turn(
    m: MatchView,
    items: Seq<InputItem>,
    rolls: Seq<u64>,
    chance: Double,
    now: u128,
    lobby_ttl: u128,
)
    requires
        m.state.status == MatchStatus::Active,
    ensures
        ({
            let (mid, answers) = m.after_inputs(items, items.len() as int);
            let w = World::tick(mid.state, m.cfg.simulation, chance, rolls);
            let step = m.step(items, rolls, chance, now, lobby_ttl);
            let n = answers.len() as int;
            let over = w.state.status == MatchStatus::Finished;
            &&& step.after.state == w.state
            &&& step.stop <==> over
            &&& step.after.finished_at == (if over {
                Some(now)
            } else {
                m.finished_at
            })
            &&& step.after.cfg == m.cfg
            &&& step.after.white_token == m.white_token
            &&& step.after.black_token == m.black_token
            &&& step.after.created_at == m.created_at
            &&& step.after.rng == m.rng
            &&& step.said.len() == n + 1 + w.events.len() + (if over {
                1int
            } else {
                0
            })
            &&& forall|i: int| 0 <= i < n ==> #[trigger] step.said[i] == answers[i]
            &&& m.cfg.simulation.broadcast_mode == BroadcastMode::Snapshot ==> step.said[n]
                == (MessageView::StateSnapshot { state: step.after.state })
            &&& m.cfg.simulation.broadcast_mode == BroadcastMode::Delta ==> step.said[n]
                == (MessageView::StateDelta {
                delta: crate::match_manager::delta_of(m.state, w),
            })
            &&& forall|i: int|
                0 <= i < w.events.len() ==> #[trigger] step.said[n + 1 + i]
                    == (MessageView::Event { event: w.events[i] })
            &&& over ==> step.said.last() == (MessageView::StateSnapshot {
                state: step.after.state,
            })
        }),
{
    crate::match_manager::lemma_inputs_frame(m, items, items.len() as int);
}

/// The turn of a lobby: every input, whatever it is and whoever sent it, is
/// answered with one error to all; nothing changes. The loop stops once the
/// lobby is older than its time to live.
pub proof fn law_lobby_turn(
    m: MatchView,
    items: Seq<InputItem>,
    rolls: Seq<u64>,
    chance: Double,
    now: u128,
    lobby_ttl: u128,
)
    requires
        m.state.status == MatchStatus::Lobby,
    ensures
        ({
            let step = m.step(items, rolls, chance, now, lobby_ttl);
            &&& step.after == m
            &&& step.said.len() == items.len()
            &&& forall|i: int|
                0 <= i < items.len() ==> #[trigger] step.said[i] == (MessageView::Error {
                    to: None,
                    code: "match_not_active"@,
                    detail: "match has not started yet"@,
                })
            &&& step.stop <==> now - m.created_at > lobby_ttl
            &&& m.step_rolls(items) == 0
            &&& m.step_fits(items, rolls, chance)
        }),
{
}

/// The turn of a finished match: nothing changes, nobody is told anything, and
/// the loop stops.
pub proof fn law_finished_turn(
    m: MatchView,
    items: Seq<InputItem>,
    rolls: Seq<u64>,
    chance: Double,
    now: u128,
    lobby_ttl: u128,
)
    requires
        m.state.status == MatchStatus::Finished,
    ensures
        ({
            let step = m.step(items, rolls, chance, now, lobby_ttl);
            &&& step.after == m
            &&& step.said.len() == 0
            &&& step.stop
            &&& m.step_rolls(items) == 0
            &&& m.step_fits(items, rolls, chance)
        }),
{
}

/// An active match rolls for whoever has a move queued once its inputs have been
/// handled, and its turn can be taken if and only if that tick can.
pub proof fn law_rolls_of_a_turn(
    m: MatchView,
    items: Seq<InputItem>,
    rolls: Seq<u64>,
    chance: Double,
)
    requires
        m.state.status == MatchStatus::Active,
    ensures
        ({
            let mid = m.after_inputs(items, items.len() as int).0;
            &&& m.step_rolls(items) == World::rolls_needed(mid.state)
            &&& m.step_fits(items, rolls, chance) <==> World::tick_fits(
                mid.state,
                m.cfg.simulation,
                chance,
                rolls,
            )
        }),
{
    crate::match_manager::lemma_inputs_frame(m, items, items.len() as int);
}

// ---------------------------------------------------------------------------
// Answers
// ---------------------------------------------------------------------------

/// Inputs are handled one after the other, each on what the earlier ones left,
/// and their answers come in the same order.
pub proof fn law_inputs_in_order(m: MatchView, items: Seq<InputItem>, n: int)
    requires
        0 <= n < items.len(),
    ensures
        m.after_inputs(items, 0) == (m, Seq::<MessageView>::empty()),
        ({
            let (before, said) = m.after_inputs(items, n);
            let (after, more) = before.after_input(items[n]);
            m.after_inputs(items, n + 1) == (after, said + more)
        }),
{
}

/// What an input comes to. A spectator's is answered with an error to all and
/// changes nothing. A player's that is refused is answered with an error to
/// that player, by code and sentence, and changes nothing. A player's that is
/// accepted changes the units as commanded, and is answered to all with the
/// event it gave rise to, if any.
pub proof fn law_answers(m: MatchView, item: InputItem)
    ensures
        ({
            let (after, said) = m.after_input(item);
            match item.from {
                Role::Spectator => {
                    &&& after == m
                    &&& said.len() == 1
                    &&& said[0] == (MessageView::Error {
                        to: None,
                        code: "not_a_player"@,
                        detail: "spectators cannot send commands"@,
                    })
                },
                Role::Player(owner) => {
                    let cfg = m.cfg.simulation;
                    let start = World { state: m.state, events: Seq::empty() };
                    let end = start.commanded(owner, item.msg, cfg);
                    match Fault::of_message(m.state, owner, item.msg, cfg) {
                        Some(fault) => {
                            &&& after == m
                            &&& said.len() == 1
                            &&& said[0] == (MessageView::Error {
                                to: Some(owner),
                                code: fault.code(),
                                detail: fault.text(),
                            })
                        },
                        None => {
                            &&& after == (MatchView { state: end.state, ..m })
                            &&& said.len() == end.events.len()
                            &&& forall|i: int|
                                0 <= i < said.len() ==> #[trigger] said[i] == (MessageView::Event {
                                    event: end.events[i],
                                })
                        },
                    }
                },
            }
        }),
{
}

/// What is said of an accepted command: a queued move and an upgrade are
/// announced by one event each; selecting and pinging are not announced.
pub proof fn law_announcements(
    m: MatchView,
    owner: Owner,
    id: UnitId,
    target: Tile,
    kind: ArtilleryType,
)
    ensures
        ({
            let from = Role::Player(owner);
            let cfg = m.cfg.simulation;
            let pos = m.state.units[id].pos;
            let go = ClientMessage::Move { unit_id: id, target };
            let upgrade = ClientMessage::Upgrade { unit_id: id, artillery_type: kind };
            let select = ClientMessage::Select { unit_id: id };
            &&& Fault::of_message(m.state, owner, go, cfg) is None ==> m.after_input(
                InputItem { from, msg: go },
            ).1 == seq![
                MessageView::Event {
                    event: EventView::MoveQueued { unit: id, by: owner, from: pos, to: target },
                },
            ]
            &&& Fault::of_message(m.state, owner, upgrade, cfg) is None ==> m.after_input(
                InputItem { from, msg: upgrade },
            ).1 == seq![
                MessageView::Event {
                    event: EventView::UnitUpgraded {
                        unit: id,
                        at: pos,
                        kind: UnitKind::Artillery,
                    },
                },
            ]
            &&& Fault::of_message(m.state, owner, select, cfg) is None ==> m.after_input(
                InputItem { from, msg: select },
            ).1.len() == 0
            &&& m.after_input(InputItem { from, msg: ClientMessage::Ping }) == (
                m,
                Seq::<MessageView>::empty(),
            )
        }),
{
    let from = Role::Player(owner);
    let cfg = m.cfg.simulation;
    let pos = m.state.units[id].pos;
    let start = World { state: m.state, events: Seq::empty() };
    let go = ClientMessage::Move { unit_id: id, target };
    let upgrade = ClientMessage::Upgrade { unit_id: id, artillery_type: kind };
    crate::laws_orders::law_legal_moves_are_queued(start, owner, id, target, cfg);
    assert(m.after_input(InputItem { from, msg: go }).1 =~= seq![
        MessageView::Event {
            event: EventView::MoveQueued { unit: id, by: owner, from: pos, to: target },
        },
    ] || Fault::of_message(m.state, owner, go, cfg) is Some);
    if Fault::of_message(m.state, owner, upgrade, cfg) is None {
        crate::laws_orders::law_upgrades(start, owner, id, kind, cfg);
        assert(m.after_input(InputItem { from, msg: upgrade }).1 =~= seq![
            MessageView::Event {
                event: EventView::UnitUpgraded { unit: id, at: pos, kind: UnitKind::Artillery },
            },
        ]);
    }
    let ping = m.after_input(InputItem { from, msg: ClientMessage::Ping });
    assert(ping.1 =~= Seq::<MessageView>::empty());
}

// ---------------------------------------------------------------------------
// Connections
// ---------------------------------------------------------------------------

/// A player plays the player's side; a spectator plays none.
pub proof fn law_roles(owner: Owner)
    ensures
        Role::Player(owner).side() == Some(owner),
        Role::Spectator.side() is None,
{
}

/// A connection is greeted with a welcome that says which match this is, which
/// side one plays, and where the match stands, and then with the whole state.
pub proof fn law_greeting(match_id: Seq<char>, role: Role, state: StateView)
    ensures
        ({
            let said = crate::network::greeting_for(match_id, role, state);
            &&& said.len() == 2
            &&& said[0] == (MessageView::Welcome {
                match_id,
                you: match role {
                    Role::Player(owner) => Some(owner),
                    Role::Spectator => None,
                },
                status: state.status,
                tick: state.tick,
            })
            &&& said[1] == (MessageView::StateSnapshot { state })
        }),
{
}

/// What is done about a frame. A ping is answered to its sender and goes no
/// further; every other message goes to the match under its sender's role; what
/// cannot be read is answered with an error to its sender that says why; other
/// frames are skipped; a close ends the connection.
pub proof fn law_frames(action: FrameAction, role: Role, frame: Frame)
    requires
        action.answers(role, frame),
    ensures
        frame == Frame::Text(Ok(ClientMessage::Ping)) ==> (action matches FrameAction::Reply(m)
            && m@ == (MessageView::Pong { tick: u64::MAX })),
        frame matches Frame::Text(Ok(msg)) ==> (msg != ClientMessage::Ping ==> action
            == FrameAction::Forward(InputItem { from: role, msg })),
        frame matches Frame::Text(Err(detail)) ==> (action matches FrameAction::Reply(m) && m@ == (
        MessageView::Error {
            to: match role {
                Role::Player(owner) => Some(owner),
                Role::Spectator => None,
            },
            code: "bad_request"@,
            detail: "bad message: "@ + detail@,
        })),
        frame is Other ==> action is Skip,
        frame is Close ==> action is Stop,
{
}

/// Every type of message has its own name on the wire.
pub proof fn law_message_tags(m: MessageView)
    ensures
        m.tag() == (if m is Welcome {
            "welcome"@
        } else if m is StateSnapshot {
            "state_snapshot"@
        } else if m is StateDelta {
            "state_delta"@
        } else if m is Event {
            "event"@
        } else if m is Error {
            "error"@
        } else {
            "pong"@
        }),
{
}

} // verus!

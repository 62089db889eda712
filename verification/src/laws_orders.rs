//! What each command does, and when and why it is refused.

use crate::config::SimulationConfig;
use crate::events::EventView;
use crate::game_state::{
    ArtilleryType, MatchStatus, Owner, StateView, Tile, Unit, UnitId, UnitKind, UnitState,
};
use crate::input::Fault;
use crate::network::ClientMessage;
use crate::rules::World;
use vstd::prelude::*;

verus! {

// ---------------------------------------------------------------------------
// Moves
// ---------------------------------------------------------------------------

/// Some unit is on this tile.
pub open spec fn taken(s: StateView, t: Tile) -> bool {
    exists|o: UnitId| #[trigger] s.units.dom().contains(o) && s.units[o].pos == t
}

/// Neither files nor ranks of the two tiles lie more than `range` apart.
pub open spec fn within(a: Tile, b: Tile, range: u8) -> bool {
    &&& a.x - b.x <= range
    &&& b.x - a.x <= range
    &&& a.y - b.y <= range
    &&& b.y - a.y <= range
}

/// A unit's command is the sender's to give.
pub open spec fn commands(s: StateView, owner: Owner, id: UnitId) -> bool {
    s.units.dom().contains(id) && s.units[id].owner == owner
}

/// Only the record of one unit differs, and one event was added.
pub open spec fn only_changed(w: World, v: World, id: UnitId, e: EventView) -> bool {
    &&& v.state.units.dom() == w.state.units.dom()
    &&& forall|o: UnitId| o != id ==> #[trigger] v.state.units[o] == w.state.units[o]
    &&& v.state.tick == w.state.tick
    &&& v.state.board_size == w.state.board_size
    &&& v.state.status == w.state.status
    &&& v.state.winner == w.state.winner
    &&& v.state.end_reason == w.state.end_reason
    &&& v.state.next_unit_id == w.state.next_unit_id
    &&& v.state.walls == w.state.walls
    &&& v.events.len() == w.events.len() + 1
    &&& forall|i: int| 0 <= i < w.events.len() ==> #[trigger] v.events[i] == w.events[i]
    &&& v.events.last() == e
}

/// Moves: accepted if and only if the match is active, the unit is a pawn of the
/// side that asks and in no fight, and the target lies on the board, within
/// range in any direction, with neither wall nor unit on it. The move is then
/// queued: the unit waits for its roll where it is, and one event says so.
/// Nothing else changes, and a refused move changes nothing at all.
pub proof fn law_legal_moves_are_queued(
    w: World,
    owner: Owner,
    id: UnitId,
    target: Tile,
    cfg: SimulationConfig,
)
    ensures
        ({
            let msg = ClientMessage::Move { unit_id: id, target };
            let u = w.state.units[id];
            let v = w.commanded(owner, msg, cfg);
            let accepted = w.state.status == MatchStatus::Active && commands(w.state, owner, id)
                && u.kind == UnitKind::Pawn && u.state != UnitState::Locked && target.x
                < w.state.board_size && target.y < w.state.board_size && within(
                target,
                u.pos,
                cfg.pawn_move_range,
            ) && !w.state.walls.contains(target) && !taken(w.state, target);
            &&& Fault::of_message(w.state, owner, msg, cfg) is None <==> accepted
            &&& Fault::of_move(w.state, owner, id, target, cfg.pawn_move_range)
                == Fault::of_message(w.state, owner, msg, cfg)
            &&& !accepted ==> v == w
            &&& accepted ==> {
                &&& v == w.queue_move(owner, id, target)
                &&& only_changed(
                    w,
                    v,
                    id,
                    EventView::MoveQueued { unit: id, by: owner, from: u.pos, to: target },
                )
                &&& v.state.units[id].pending_move == Some(target)
                &&& v.state.units[id].state == UnitState::Moving
                &&& v.state.units[id] == (Unit {
                    pending_move: v.state.units[id].pending_move,
                    state: v.state.units[id].state,
                    ..u
                })
            }
        }),
{
    let msg = ClientMessage::Move { unit_id: id, target };
    let v = w.commanded(owner, msg, cfg);
    crate::laws_units::law_unit_on_a_tile(w.state, target);
    crate::laws_units::law_distance_is_the_longer_gap(
        target,
        w.state.units[id].pos,
        cfg.pawn_move_range as int,
    );
    if Fault::of_message(w.state, owner, msg, cfg) is None {
        assert(v.state.units.dom() =~= w.state.units.dom());
    }
}

/// Why a move is refused: the first of these that applies.
pub proof fn law_move_refusals(
    s: StateView,
    owner: Owner,
    id: UnitId,
    target: Tile,
    cfg: SimulationConfig,
)
    ensures
        ({
            let u = s.units[id];
            let fault = Fault::of_message(
                s,
                owner,
                ClientMessage::Move { unit_id: id, target },
                cfg,
            );
            let active = s.status == MatchStatus::Active;
            let mine = active && commands(s, owner, id);
            let movable = mine && u.kind == UnitKind::Pawn && u.state != UnitState::Locked;
            let inside = movable && target.x < s.board_size && target.y < s.board_size;
            let near = inside && within(target, u.pos, cfg.pawn_move_range);
            &&& !active ==> fault == Some(Fault::MatchNotActive)
            &&& active && !s.units.dom().contains(id) ==> fault == Some(Fault::UnknownUnit(id))
            &&& active && s.units.dom().contains(id) && !mine ==> fault == Some(
                Fault::NotOwned(id),
            )
            &&& mine && !movable ==> fault == Some(Fault::NotMovable(id))
            &&& movable && !inside ==> fault == Some(
                Fault::IllegalTarget { to: target, reason: "outside the board"@ },
            )
            &&& inside && !near ==> fault == Some(
                Fault::IllegalTarget {
                    to: target,
                    reason: "move range is "@ + crate::text::decimal(cfg.pawn_move_range as nat)
                        + " tile(s)"@,
                },
            )
            &&& near && s.walls.contains(target) ==> fault == Some(
                Fault::IllegalTarget { to: target, reason: "wall"@ },
            )
            &&& near && !s.walls.contains(target) && taken(s, target) ==> fault == Some(
                Fault::IllegalTarget { to: target, reason: "tile occupied"@ },
            )
        }),
{
    crate::laws_units::law_unit_on_a_tile(s, target);
    crate::laws_units::law_distance_is_the_longer_gap(
        target,
        s.units[id].pos,
        cfg.pawn_move_range as int,
    );
}

/// A move may go any way: what is legal from one tile to another is legal for
/// either side, wherever on the board, as long as the target is free and near.
pub proof fn law_moves_know_no_direction(
    s: StateView,
    owner: Owner,
    id: UnitId,
    one: Tile,
    other: Tile,
    cfg: SimulationConfig,
)
    requires
        Fault::of_move(s, owner, id, one, cfg.pawn_move_range) is None,
        within(other, s.units[id].pos, cfg.pawn_move_range),
        other.x < s.board_size,
        other.y < s.board_size,
        !s.walls.contains(other),
        !taken(s, other),
    ensures
        Fault::of_move(s, owner, id, other, cfg.pawn_move_range) is None,
{
    let w = World { state: s, events: Seq::empty() };
    law_legal_moves_are_queued(w, owner, id, one, cfg);
    law_legal_moves_are_queued(w, owner, id, other, cfg);
}

// ---------------------------------------------------------------------------
// Other commands
// ---------------------------------------------------------------------------

/// Why an upgrade is refused: the first of these that applies.
pub proof fn law_upgrade_refusals(
    s: StateView,
    owner: Owner,
    id: UnitId,
    kind: ArtilleryType,
    cfg: SimulationConfig,
)
    ensures
        ({
            let u = s.units[id];
            let fault = Fault::of_message(
                s,
                owner,
                ClientMessage::Upgrade { unit_id: id, artillery_type: kind },
                cfg,
            );
            let active = s.status == MatchStatus::Active;
            let mine = active && commands(s, owner, id);
            &&& fault == Fault::of_upgrade(s, owner, id)
            &&& !active ==> fault == Some(Fault::MatchNotActive)
            &&& active && !s.units.dom().contains(id) ==> fault == Some(Fault::UnknownUnit(id))
            &&& active && s.units.dom().contains(id) && !mine ==> fault == Some(
                Fault::NotOwned(id),
            )
            &&& mine && (u.kind == UnitKind::Artillery || u.state != UnitState::Idle
                || u.pending_move is Some) ==> fault == Some(Fault::NotUpgradable(id))
            &&& mine && u.kind == UnitKind::Pawn && u.state == UnitState::Idle && u.pending_move
                is None ==> fault is None
        }),
{
}

/// An accepted upgrade, field by field: the pawn is now artillery and loads for
/// a full cooldown. Its side, tile and health stay, it is idle and in no fight
/// that it was not in, and no other unit changes.
pub proof fn law_upgrades(
    w: World,
    owner: Owner,
    id: UnitId,
    kind: ArtilleryType,
    cfg: SimulationConfig,
)
    requires
        Fault::of_upgrade(w.state, owner, id) is None,
    ensures
        ({
            let u = w.state.units[id];
            let v = w.commanded(
                owner,
                ClientMessage::Upgrade { unit_id: id, artillery_type: kind },
                cfg,
            );
            &&& v == w.promote(id, cfg.artillery_ticks())
            &&& only_changed(
                w,
                v,
                id,
                EventView::UnitUpgraded { unit: id, at: u.pos, kind: UnitKind::Artillery },
            )
            &&& v.state.units[id].kind == UnitKind::Artillery
            &&& v.state.units[id].fire_cooldown == cfg.artillery_cooldown_secs.ticks(cfg.tick_rate)
            &&& v.state.units[id] == (Unit {
                kind: v.state.units[id].kind,
                fire_cooldown: v.state.units[id].fire_cooldown,
                ..u
            })
        }),
{
    let v = w.commanded(owner, ClientMessage::Upgrade { unit_id: id, artillery_type: kind }, cfg);
    assert(v.state.units.dom() =~= w.state.units.dom());
    crate::laws_time::lemma_ticks_range(cfg.artillery_cooldown_secs, cfg.tick_rate);
}

/// Selecting changes nothing and is refused only for units that are not there or
/// not the side's own, in whatever state the match is; a ping is never refused
/// and changes nothing.
pub proof fn law_selecting_and_pinging(
    w: World,
    owner: Owner,
    id: UnitId,
    cfg: SimulationConfig,
)
    ensures
        ({
            let select = ClientMessage::Select { unit_id: id };
            let fault = Fault::of_message(w.state, owner, select, cfg);
            &&& fault == Fault::of_ownership(w.state, owner, id)
            &&& fault is None <==> commands(w.state, owner, id)
            &&& !w.state.units.dom().contains(id) ==> fault == Some(Fault::UnknownUnit(id))
            &&& w.state.units.dom().contains(id) && w.state.units[id].owner != owner ==> fault
                == Some(Fault::NotOwned(id))
            &&& w.commanded(owner, select, cfg) == w
            &&& Fault::of_message(w.state, owner, ClientMessage::Ping, cfg) is None
            &&& w.commanded(owner, ClientMessage::Ping, cfg) == w
        }),
{
}

// ---------------------------------------------------------------------------
// Words
// ---------------------------------------------------------------------------

/// What clients are told of a refusal: a code for each kind of refusal, and a
/// sentence that names the unit or the tile.
pub proof fn law_refusal_words(id: UnitId, to: Tile, reason: Seq<char>)
    ensures
        Fault::MatchNotActive.code() == "match_not_active"@,
        Fault::NotAPlayer.code() == "not_a_player"@,
        Fault::UnknownUnit(id).code() == "unknown_unit"@,
        Fault::NotOwned(id).code() == "not_owned"@,
        Fault::NotMovable(id).code() == "not_movable"@,
        (Fault::IllegalTarget { to, reason }).code() == "illegal_target"@,
        Fault::NotUpgradable(id).code() == "not_upgradable"@,
        Fault::UnknownArtilleryType.code() == "unknown_artillery_type"@,
        Fault::MatchNotActive.text() == "match is not active"@,
        Fault::NotAPlayer.text() == "spectators cannot send commands"@,
        Fault::UnknownUnit(id).text() == "unit "@ + crate::text::decimal(id as nat)
            + " does not exist"@,
        Fault::NotOwned(id).text() == "unit "@ + crate::text::decimal(id as nat) + " is not yours"@,
        Fault::NotMovable(id).text() == "unit "@ + crate::text::decimal(id as nat)
            + " cannot move (locked, artillery or dead)"@,
        (Fault::IllegalTarget { to, reason }).text() == "illegal target "@ + crate::text::decimal(
            to.x as nat,
        ) + "-"@ + crate::text::decimal(to.y as nat) + ", "@ + reason,
        Fault::NotUpgradable(id).text() == "unit "@ + crate::text::decimal(id as nat)
            + " cannot be upgraded right now (must be an idle pawn)"@,
        Fault::UnknownArtilleryType.text() == "unknown artillery type"@,
{
}

/// The number that a list of decimal digits stands for.
pub open spec fn numeral(digits: Seq<char>) -> int
    decreases digits.len(),
{
    if digits.len() == 0 {
        0
    } else {
        10 * numeral(digits.drop_last()) + (digits.last() as int - '0' as int)
    }
}

/// Decimal texts read back: digits only, no leading zero, and the number they
/// stand for is the number written.
pub proof fn law_decimals_read_back(n: nat)
    ensures
        ({
            let t = crate::text::decimal(n);
            &&& t.len() > 0
            &&& forall|i: int| 0 <= i < t.len() ==> '0' <= #[trigger] t[i] <= '9'
            &&& t[0] == '0' ==> t.len() == 1
            &&& numeral(t) == n
        }),
    decreases n,
{
    let t = crate::text::decimal(n);
    let d = (n % 10) as int;
    assert(numeral(Seq::<char>::empty()) == 0);
    assert(crate::text::digit(d) as int == '0' as int + d);
    if n < 10 {
        assert(t.drop_last() =~= Seq::<char>::empty());
    } else {
        let rest = crate::text::decimal(n / 10);
        law_decimals_read_back(n / 10);
        assert(t == rest.push(crate::text::digit(d)));
        assert(t.drop_last() =~= rest);
        assert forall|i: int| 0 <= i < t.len() implies '0' <= #[trigger] t[i] <= '9' by {
            if i < rest.len() {
                assert(t[i] == rest[i]);
            }
        }
        if t[0] == '0' {
            assert(rest[0] == '0');
            assert(rest.len() == 1);
            assert(rest.drop_last() =~= Seq::<char>::empty());
            assert(numeral(rest) == 10 * numeral(rest.drop_last()) + (rest.last() as int
                - '0' as int));
        }
    }
}

} // verus!

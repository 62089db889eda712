//! What holds of commands, seats, whole matches and the registry.

use crate::config::{ConfigView, SimulationConfig};
use crate::double::Double;
use crate::events::EventView;
use crate::game_state::{
    ArtilleryType, MatchStatus, Owner, StateView, Tile, Unit, UnitId, UnitKind, UnitState,
};
use crate::input::Fault;
use crate::match_manager::{CreateMatchRequest, ManagerView, MatchView};
use crate::network::{ClientMessage, DeltaView, InputItem, MessageView, Role};
use crate::rules::World;
use rand::rngs::StdRng;
use vstd::prelude::*;

verus! {

// ---------------------------------------------------------------------------
// Commands
// ---------------------------------------------------------------------------

/// A command changes at most the orders of one unit of the side that gave it:
/// no unit moves, is hurt, changes sides or is drawn into or out of a fight,
/// and none appears or leaves.
pub proof fn law_commands_are_orders(
    w: World,
    owner: Owner,
    msg: ClientMessage,
    cfg: SimulationConfig,
)
    ensures
        ({
            let v = w.commanded(owner, msg, cfg);
            &&& crate::progress::same_setting(w, v)
            &&& v.state.units.dom() == w.state.units.dom()
            &&& forall|id: UnitId| #[trigger]
                w.state.units.dom().contains(id) ==> v.unit(id) == (Unit {
                    kind: v.unit(id).kind,
                    state: v.unit(id).state,
                    pending_move: v.unit(id).pending_move,
                    fire_cooldown: v.unit(id).fire_cooldown,
                    ..w.unit(id)
                }) && (v.unit(id) != w.unit(id) ==> w.unit(id).owner == owner && w.unit(id).state
                    != UnitState::Locked && v.unit(id).state != UnitState::Locked)
        }),
{
    let v = w.commanded(owner, msg, cfg);
    assert(v.state.units.dom() =~= w.state.units.dom());
}

/// A command keeps units keyed, records consistent, fights mutual, units on the
/// board and tiles unshared.
pub proof fn law_commands_keep_order(
    w: World,
    owner: Owner,
    msg: ClientMessage,
    cfg: SimulationConfig,
)
    ensures
        ({
            let v = w.commanded(owner, msg, cfg);
            &&& w.state.keyed() ==> v.state.keyed()
            &&& crate::laws_tick::all_sound(w.state.units) ==> crate::laws_tick::all_sound(
                v.state.units,
            )
            &&& crate::laws_tick::all_sound(w.state.units) && crate::laws_tick::paired(
                w.state.units,
            ) ==> crate::laws_tick::paired(v.state.units)
            &&& crate::laws_tick::on_the_board(w.state) ==> crate::laws_tick::on_the_board(v.state)
            &&& crate::progress::one_per_tile(w.state.units) ==> crate::progress::one_per_tile(
                v.state.units,
            )
        }),
{
    let v = w.commanded(owner, msg, cfg);
    law_commands_are_orders(w, owner, msg, cfg);
    if w.state.keyed() {
        assert forall|id: UnitId| #[trigger] v.state.units.dom().contains(id) implies
            v.state.units[id].id == id && id < v.state.next_unit_id by {
            assert(w.state.units.dom().contains(id));
            assert(v.unit(id).id == w.unit(id).id);
        }
    }
    if crate::laws_tick::all_sound(w.state.units) {
        assert forall|id: UnitId| #[trigger] v.state.units.dom().contains(id) implies
            crate::laws_tick::sound(v.state.units[id]) by {
            assert(w.state.units.dom().contains(id));
            assert(crate::laws_tick::sound(w.state.units[id]));
        }
        if crate::laws_tick::paired(w.state.units) {
            let units = v.state.units;
            assert forall|id: UnitId| #[trigger]
                units.dom().contains(id) && units[id].state == UnitState::Locked implies
                units[id].melee_target is Some && crate::laws_tick::opponents(
                units,
                id,
                units[id].melee_target->0,
            ) by {
                assert(w.state.units.dom().contains(id));
                assert(v.unit(id) == w.unit(id));
                assert(w.state.units[id].state == UnitState::Locked);
                let other = w.unit(id).melee_target->0;
                assert(crate::laws_tick::opponents(w.state.units, id, other));
                assert(w.state.units.dom().contains(other));
                assert(v.unit(other) == w.unit(other));
                assert(units.dom().contains(other));
            }
        }
    }
    if crate::laws_tick::on_the_board(w.state) {
        assert forall|id: UnitId| #[trigger] v.state.units.dom().contains(id) implies
            v.state.passable(v.state.units[id].pos) by {
            assert(w.state.units.dom().contains(id));
            assert(v.unit(id).pos == w.unit(id).pos);
        }
    }
    if crate::progress::one_per_tile(w.state.units) {
        assert forall|a: UnitId, b: UnitId|
            #![trigger v.state.units.dom().contains(a), v.state.units.dom().contains(b)]
            v.state.units.dom().contains(a) && v.state.units.dom().contains(b) && a
                != b implies v.state.units[a].pos != v.state.units[b].pos by {
            assert(w.state.units.dom().contains(a) && w.state.units.dom().contains(b));
            assert(v.unit(a).pos == w.unit(a).pos && v.unit(b).pos == w.unit(b).pos);
        }
    }
}

/// Moves and upgrades are refused while a match is not active.
pub proof fn law_orders_need_an_active_match(
    s: StateView,
    owner: Owner,
    id: UnitId,
    target: Tile,
    kind: ArtilleryType,
    cfg: SimulationConfig,
)
    requires
        s.status != MatchStatus::Active,
    ensures
        Fault::of_message(s, owner, ClientMessage::Move { unit_id: id, target }, cfg) == Some(
            Fault::MatchNotActive,
        ),
        Fault::of_message(
            s,
            owner,
            ClientMessage::Upgrade { unit_id: id, artillery_type: kind },
            cfg,
        ) == Some(Fault::MatchNotActive),
{
}

/// A move that was accepted is queued and not applied; if its roll succeeds
/// before anything else happens, the unit arrives at its target.
pub proof fn law_accepted_moves_arrive(
    w: World,
    owner: Owner,
    id: UnitId,
    target: Tile,
    cfg: SimulationConfig,
)
    requires
        Fault::of_message(
            w.state,
            owner,
            ClientMessage::Move { unit_id: id, target },
            cfg,
        ) is None,
    ensures
        ({
            let v = w.commanded(owner, ClientMessage::Move { unit_id: id, target }, cfg);
            let x = v.resolve_move(cfg.pawn_move_range, id);
            &&& v.unit(id).pos == w.unit(id).pos
            &&& v.unit(id).pending_move == Some(target)
            &&& v.unit(id).state == UnitState::Moving
            &&& World::rolls_to_move()(v.unit(id))
            &&& x.unit(id).pos == target
            &&& x.unit(id).pending_move is None
            &&& x.unit(id).state == UnitState::Idle
            &&& x.events.last() == (EventView::MoveResolved {
                unit: id,
                by: owner,
                from: w.unit(id).pos,
                to: target,
            })
        }),
{
    let v = w.commanded(owner, ClientMessage::Move { unit_id: id, target }, cfg);
    assert(v.state.free(target)) by {
        if crate::game_state::occupant(v.state.units, target) is Some {
            let o = choose|o: UnitId| crate::game_state::stands_on(v.state.units, o, target);
            assert(crate::game_state::stands_on(w.state.units, o, target));
        }
    }
}

/// Upgrades: accepted if and only if the match is active and the unit is an idle
/// pawn of the side that asks, with no queued move. The pawn becomes artillery
/// and starts loading; nothing else about it changes, nor about any other unit,
/// and one event reports it. An upgrade is final: the new artillery piece can
/// neither move nor be upgraded again.
pub proof fn law_upgrades_are_final(
    w: World,
    owner: Owner,
    id: UnitId,
    kind: ArtilleryType,
    target: Tile,
    cfg: SimulationConfig,
)
    ensures
        ({
            let upgrade = ClientMessage::Upgrade { unit_id: id, artillery_type: kind };
            let u = w.unit(id);
            let v = w.commanded(owner, upgrade, cfg);
            let accepted = w.state.status == MatchStatus::Active && w.has(id) && u.owner == owner
                && u.kind == UnitKind::Pawn && u.state == UnitState::Idle && u.pending_move is None;
            &&& Fault::of_message(w.state, owner, upgrade, cfg) is None <==> accepted
            &&& !accepted ==> v == w
            &&& accepted ==> {
                &&& v == w.promote(id, cfg.artillery_ticks())
                &&& v == w.with_unit(
                    id,
                    Unit {
                        kind: UnitKind::Artillery,
                        fire_cooldown: cfg.artillery_ticks(),
                        ..u
                    },
                ).with_event(
                    EventView::UnitUpgraded { unit: id, at: u.pos, kind: UnitKind::Artillery },
                )
                &&& Fault::of_message(v.state, owner, upgrade, cfg) == Some(
                    Fault::NotUpgradable(id),
                )
                &&& Fault::of_message(
                    v.state,
                    owner,
                    ClientMessage::Move { unit_id: id, target },
                    cfg,
                ) == Some(Fault::NotMovable(id))
            }
        }),
{
}

// ---------------------------------------------------------------------------
// Seats
// ---------------------------------------------------------------------------

/// Three newcomers to a match with both seats free: the first plays white, the
/// second plays black and starts the match, and the third finds it full.
pub proof fn law_seats_fill_in_order(
    m: MatchView,
    first: Seq<char>,
    second: Seq<char>,
    third: Seq<char>,
)
    requires
        m.white_token is None,
        m.black_token is None,
    ensures
        ({
            let one = m.join(None, first);
            let two = one->0.after.join(None, second);
            let three = two->0.after.join(None, third);
            &&& one is Some && one->0.owner == Owner::White && one->0.token == first
            &&& one->0.after.state == m.state && one->0.told.len() == 0
            &&& two is Some && two->0.owner == Owner::Black && two->0.token == second
            &&& two->0.after.state == (StateView { status: MatchStatus::Active, ..m.state })
            &&& two->0.told == seq![
                MessageView::Event { event: EventView::MatchStarted },
                MessageView::StateSnapshot { state: two->0.after.state },
            ]
            &&& three is None
        }),
{
}

/// Whoever presents the token of a seat gets that seat again, under the same
/// token, and nothing else happens.
pub proof fn law_rejoining_changes_nothing(
    m: MatchView,
    token: Seq<char>,
    fresh: Seq<char>,
    owner: Owner,
)
    requires
        m.role(token) == Role::Player(owner),
    ensures
        m.join(Some(token), fresh) matches Some(seating) && seating.owner == owner && seating.token
            == token && seating.after == m && seating.told.len() == 0,
{
}

/// The token handed out identifies its bearer as the player of the seat,
/// provided that it is not one in use already.
pub proof fn law_tokens_identify(m: MatchView, presented: Option<Seq<char>>, fresh: Seq<char>)
    requires
        m.role(fresh) == Role::Spectator,
        m.join(presented, fresh) is Some,
    ensures
        ({
            let seating = m.join(presented, fresh)->0;
            seating.after.role(seating.token) == Role::Player(seating.owner)
        }),
{
}

/// A seat that is taken stays with its token, whoever joins.
pub proof fn law_seats_are_kept(m: MatchView, presented: Option<Seq<char>>, fresh: Seq<char>)
    requires
        m.join(presented, fresh) is Some,
    ensures
        ({
            let after = m.join(presented, fresh)->0.after;
            &&& m.white_token is Some ==> after.white_token == m.white_token
            &&& m.black_token is Some ==> after.black_token == m.black_token
            &&& after.cfg == m.cfg
            &&& after.created_at == m.created_at
            &&& after.finished_at == m.finished_at
        }),
{
}

// ---------------------------------------------------------------------------
// The life of a match
// ---------------------------------------------------------------------------

/// Every unit has health left, and no more than it started with.
pub open spec fn all_healthy(units: Map<UnitId, Unit>) -> bool {
    forall|id: UnitId| #[trigger]
        units.dom().contains(id) ==> 0 < units[id].hp <= units[id].max_hp
}

/// A match in good order. Its configuration is valid; units are keyed,
/// consistent, in health and on the board, no two of them on one tile; locked
/// units fight in pairs; it has left the lobby if and only if both seats are
/// taken; its clock stands still before that, and runs no longer than the
/// timeout; and it has an end if and only if it is finished.
pub open spec fn in_order(m: MatchView) -> bool {
    &&& m.cfg.valid()
    &&& m.state.keyed()
    &&& crate::laws_tick::all_sound(m.state.units)
    &&& crate::laws_tick::on_the_board(m.state)
    &&& all_healthy(m.state.units)
    &&& crate::laws_tick::paired(m.state.units)
    &&& crate::progress::one_per_tile(m.state.units)
    &&& m.full() <==> m.state.status != MatchStatus::Lobby
    &&& m.state.status == MatchStatus::Lobby ==> m.state.tick == 0
    &&& m.state.status == MatchStatus::Active ==> m.state.tick
        < m.cfg.simulation.timeout_ticks()
    &&& m.finished_at is Some <==> m.state.status == MatchStatus::Finished
    &&& m.state.end_reason is Some <==> m.state.status == MatchStatus::Finished
    &&& m.state.winner is Some ==> m.state.status == MatchStatus::Finished
}

/// A turn of the match loop that can be taken: one roll for each moving unit,
/// and no number leaves its range.
pub open spec fn takeable(
    m: MatchView,
    items: Seq<InputItem>,
    rolls: Seq<u64>,
    chance: Double,
) -> bool {
    rolls.len() == m.step_rolls(items) && m.step_fits(items, rolls, chance)
}

/// A new match is in good order.
pub proof fn law_new_matches_are_in_order(cfg: ConfigView, now: u128, rng: StdRng)
    requires
        cfg.valid(),
    ensures
        in_order(MatchView::opened(cfg, now, rng)),
{
    crate::laws_board::law_deployment_is_sound(cfg.board, cfg.simulation.unit_hp);
    crate::laws_board::law_deployment_is_spread(cfg.board, cfg.simulation.unit_hp);
    let units = MatchView::opened(cfg, now, rng).state.units;
    assert forall|id: UnitId| #[trigger] units.dom().contains(id) implies 0 < units[id].hp
        <= units[id].max_hp by {
        crate::laws_board::law_deployment_ranks(cfg.board, cfg.simulation.unit_hp, id);
    }
}

/// A match that a server creates on request is in good order.
pub proof fn law_created_matches_are_in_order(
    server: ManagerView,
    req: CreateMatchRequest,
    now: u128,
    rng: StdRng,
)
    requires
        server.create_fault(req) is None,
    ensures
        in_order(MatchView::opened(server.effective(req), now, rng)),
{
    law_new_matches_are_in_order(server.effective(req), now, rng);
}

/// Joining keeps a match in good order.
pub proof fn law_joining_keeps_order(m: MatchView, presented: Option<Seq<char>>, fresh: Seq<char>)
    requires
        in_order(m),
        m.join(presented, fresh) is Some,
    ensures
        in_order(m.join(presented, fresh)->0.after),
{
    let after = m.join(presented, fresh)->0.after;
    assert(after.state.units == m.state.units);
    assert forall|id: UnitId| #[trigger] after.state.units.dom().contains(id) implies
        after.state.passable(after.state.units[id].pos) by {
        assert(m.state.units.dom().contains(id));
        assert(m.state.passable(m.state.units[id].pos));
    }
    assert forall|id: UnitId| #[trigger] after.state.units.dom().contains(id) implies
        after.state.units[id].id == id && id < after.state.next_unit_id by {
        assert(m.state.units.dom().contains(id));
    }
}

/// Handling inputs keeps a match in good order.
pub proof fn law_inputs_keep_order(m: MatchView, items: Seq<InputItem>, n: int)
    requires
        in_order(m),
        0 <= n <= items.len(),
    ensures
        in_order(m.after_inputs(items, n).0),
    decreases n,
{
    if n > 0 {
        law_inputs_keep_order(m, items, n - 1);
        let before = m.after_inputs(items, n - 1).0;
        let item = items[n - 1];
        if let Some(owner) = item.from.side() {
            let w = World { state: before.state, events: Seq::empty() };
            law_commands_keep_order(w, owner, item.msg, before.cfg.simulation);
            law_commands_are_orders(w, owner, item.msg, before.cfg.simulation);
            let v = w.commanded(owner, item.msg, before.cfg.simulation);
            assert forall|id: UnitId| #[trigger] v.state.units.dom().contains(id) implies
                0 < v.state.units[id].hp <= v.state.units[id].max_hp by {
                assert(w.state.units.dom().contains(id));
                assert(v.unit(id).hp == w.unit(id).hp && v.unit(id).max_hp == w.unit(id).max_hp);
            }
        }
    }
}

/// A turn of the match loop keeps a match in good order.
pub proof fn law_steps_keep_order(
    m: MatchView,
    items: Seq<InputItem>,
    rolls: Seq<u64>,
    chance: Double,
    now: u128,
    lobby_ttl: u128,
)
    requires
        in_order(m),
        takeable(m, items, rolls, chance),
    ensures
        in_order(m.step(items, rolls, chance, now, lobby_ttl).after),
{
    if m.state.status == MatchStatus::Active {
        let n = items.len() as int;
        let mid = m.after_inputs(items, n).0;
        crate::match_manager::lemma_inputs_frame(m, items, n);
        law_inputs_keep_order(m, items, n);
        let cfg = mid.cfg.simulation;
        crate::laws_tick::law_identity(mid.state, cfg, chance, rolls);
        crate::laws_tick::law_fights_stay_mutual(mid.state, cfg, chance, rolls);
        crate::laws_tick::law_units_stay_on_the_board(mid.state, cfg, chance, rolls);
        crate::laws_tick::law_end_of_match(mid.state, cfg, chance, rolls);
        let t = World::tick(mid.state, cfg, chance, rolls);
        assert forall|id: UnitId| #[trigger] t.state.units.dom().contains(id) implies
            0 < t.state.units[id].hp <= t.state.units[id].max_hp by {
            crate::laws_tick::law_survivors_are_alive(mid.state, cfg, chance, rolls, id);
            crate::laws_tick::law_health_never_rises(mid.state, cfg, chance, rolls, id);
            assert(mid.state.units.dom().contains(id));
        }
        crate::laws_tick::law_one_unit_per_tile(mid.state, cfg, chance, rolls);
    }
}

/// A match with moderate damage never stalls: whatever is sent and however the
/// dice fall, its turn can be taken.
pub proof fn law_moderate_matches_never_stall(
    m: MatchView,
    items: Seq<InputItem>,
    rolls: Seq<u64>,
    chance: Double,
)
    requires
        in_order(m),
        (2 * m.cfg.simulation.melee_damage + m.cfg.simulation.artillery_damage)
            * m.state.units.dom().len() <= 0x8000_0000,
    ensures
        m.step_fits(items, rolls, chance),
{
    if m.state.status == MatchStatus::Active {
        let n = items.len() as int;
        let mid = m.after_inputs(items, n).0;
        crate::match_manager::lemma_inputs_frame(m, items, n);
        law_inputs_keep_order(m, items, n);
        assert forall|id: UnitId| #[trigger] mid.state.units.dom().contains(id) implies
            mid.state.units[id].hp >= 0 by {}
        crate::laws_tick::law_moderate_damage_fits(mid.state, mid.cfg.simulation, chance, rolls);
    }
}

/// A match goes forward only: a turn of the loop leaves a lobby in the lobby
/// and a finished match as it is; an active match stays active, or finishes and
/// stops the loop. Seats, configuration and time of creation do not change.
pub proof fn law_steps_go_forward(
    m: MatchView,
    items: Seq<InputItem>,
    rolls: Seq<u64>,
    chance: Double,
    now: u128,
    lobby_ttl: u128,
)
    requires
        m.state.keyed(),
        takeable(m, items, rolls, chance),
    ensures
        ({
            let step = m.step(items, rolls, chance, now, lobby_ttl);
            let after = step.after;
            &&& m.state.status != MatchStatus::Active ==> after == m
            &&& m.state.status == MatchStatus::Active ==> after.state.status != MatchStatus::Lobby
                && (step.stop <==> after.state.status == MatchStatus::Finished) && after.state.tick
                == m.state.tick + 1
            &&& m.state.status == MatchStatus::Finished ==> step.stop && step.said.len() == 0
            &&& after.cfg == m.cfg
            &&& after.white_token == m.white_token
            &&& after.black_token == m.black_token
            &&& after.created_at == m.created_at
        }),
{
    if m.state.status == MatchStatus::Active {
        let n = items.len() as int;
        let mid = m.after_inputs(items, n).0;
        crate::match_manager::lemma_inputs_frame(m, items, n);
        lemma_inputs_keyed(m, items, n);
        let cfg = mid.cfg.simulation;
        crate::laws_tick::law_end_of_match(mid.state, cfg, chance, rolls);
        crate::laws_tick::law_clock_and_board(mid.state, cfg, chance, rolls);
    }
}

proof fn lemma_inputs_keyed(m: MatchView, items: Seq<InputItem>, n: int)
    requires
        m.state.keyed(),
        0 <= n <= items.len(),
    ensures
        m.after_inputs(items, n).0.state.keyed(),
    decreases n,
{
    if n > 0 {
        lemma_inputs_keyed(m, items, n - 1);
        let before = m.after_inputs(items, n - 1).0;
        let item = items[n - 1];
        if let Some(owner) = item.from.side() {
            let w = World { state: before.state, events: Seq::empty() };
            law_commands_keep_order(w, owner, item.msg, before.cfg.simulation);
        }
    }
}

/// Spectators never change a match: their commands are answered with an error
/// to all, and that is all.
pub proof fn law_spectators_only_watch(m: MatchView, msg: ClientMessage)
    ensures
        ({
            let (after, said) = m.after_input(InputItem { from: Role::Spectator, msg });
            &&& after == m
            &&& said.len() == 1
            &&& said[0] == (MessageView::Error {
                to: None,
                code: Fault::NotAPlayer.code(),
                detail: Fault::NotAPlayer.text(),
            })
        }),
{
}

/// A refused command is answered with an error to the player who gave it, and
/// changes nothing.
pub proof fn law_refusals_are_answered(m: MatchView, owner: Owner, msg: ClientMessage)
    requires
        Fault::of_message(m.state, owner, msg, m.cfg.simulation) is Some,
    ensures
        ({
            let (after, said) = m.after_input(InputItem { from: Role::Player(owner), msg });
            let fault = Fault::of_message(m.state, owner, msg, m.cfg.simulation)->0;
            &&& after == m
            &&& said == seq![
                MessageView::Error {
                    to: Some(owner),
                    code: fault.code(),
                    detail: fault.text(),
                },
            ]
        }),
{
}

// ---------------------------------------------------------------------------
// Change sets
// ---------------------------------------------------------------------------

/// The change set has a record of this unit at index `i`.
pub open spec fn records(d: DeltaView, id: UnitId, i: int) -> bool {
    0 <= i < d.updated.len() && d.updated[i].id == id
}

/// What a client makes of a change set: it drops the removed units and takes
/// over the records it got.
pub open spec fn patched(units: Map<UnitId, Unit>, d: DeltaView) -> Map<UnitId, Unit> {
    Map::new(
        |id: UnitId|
            units.dom().contains(id) && !d.removed.contains(id) || exists|i: int|
                records(d, id, i),
        |id: UnitId|
            if exists|i: int| records(d, id, i) {
                d.updated[choose|i: int| records(d, id, i)]
            } else {
                units[id]
            },
    )
}

/// Change sets lose nothing: a client that has the units from before a turn of
/// an active match and applies the turn's change set has the units from after
/// it.
pub proof fn law_deltas_lose_nothing(
    m: MatchView,
    items: Seq<InputItem>,
    rolls: Seq<u64>,
    chance: Double,
    now: u128,
    lobby_ttl: u128,
)
    requires
        m.state.keyed(),
        m.state.status == MatchStatus::Active,
        takeable(m, items, rolls, chance),
    ensures
        ({
            let mid = m.after_inputs(items, items.len() as int).0;
            let w = World::tick(mid.state, mid.cfg.simulation, chance, rolls);
            let after = m.step(items, rolls, chance, now, lobby_ttl).after;
            patched(m.state.units, crate::match_manager::delta_of(m.state, w)) == after.state.units
        }),
{
    let n = items.len() as int;
    let mid = m.after_inputs(items, n).0;
    crate::match_manager::lemma_inputs_frame(m, items, n);
    lemma_inputs_keyed(m, items, n);
    let cfg = mid.cfg.simulation;
    let w = World::tick(mid.state, cfg, chance, rolls);
    crate::laws_tick::law_identity(mid.state, cfg, chance, rolls);
    crate::laws_tick::law_deaths_are_reported(mid.state, cfg, chance, rolls);
    lemma_patch(m.state, w);
}

proof fn lemma_patch(before: StateView, w: World)
    requires
        w.state.keyed(),
        w.state.units.dom() == before.units.dom().difference(
            crate::events::deaths(w.events).to_set(),
        ),
    ensures
        patched(before.units, crate::match_manager::delta_of(before, w)) == w.state.units,
{
    let d = crate::match_manager::delta_of(before, w);
    let units = w.state.units;
    let ids = w.ids();
    let p = |id: UnitId| crate::match_manager::is_news(before.units, units, w.events, id);
    crate::roster::lemma_id_order(units);
    crate::rules::lemma_filter_members(ids, p);
    let news = ids.filter(p);
    assert(d.updated =~= news.map_values(|id: UnitId| units[id]));
    assert forall|i: int| 0 <= i < d.updated.len() implies units.dom().contains(
        (#[trigger] d.updated[i]).id,
    ) && units[d.updated[i].id] == d.updated[i] by {
        assert(d.updated[i] == units[news[i]]);
        assert(ids.contains(news[i]));
        assert(ids.to_set().contains(news[i]));
        assert(units.dom().contains(news[i]));
    }
    let q = patched(before.units, d);
    assert forall|id: UnitId| #[trigger] q.dom().contains(id) <==> units.dom().contains(id) by {
        if exists|i: int| records(d, id, i) {
            let i = choose|i: int| records(d, id, i);
            assert(units.dom().contains(d.updated[i].id));
        }
        if q.dom().contains(id) && !units.dom().contains(id) {
            assert(!d.removed.to_set().contains(id));
        }
        if units.dom().contains(id) {
            assert(!d.removed.to_set().contains(id));
        }
    }
    assert forall|id: UnitId| #[trigger] units.dom().contains(id) implies q[id] == units[id] by {
        assert(q.dom().contains(id));
        if exists|i: int| records(d, id, i) {
            let i = choose|i: int| records(d, id, i);
            assert(units[d.updated[i].id] == d.updated[i]);
        } else {
            if p(id) {
                assert(ids.to_set().contains(id));
                assert(ids.contains(id));
                assert(news.contains(id));
                let k = choose|k: int| 0 <= k < news.len() && news[k] == id;
                assert(d.updated[k] == units[id]);
                assert(records(d, id, k));
            }
        }
    }
    assert(q =~= units);
}

// ---------------------------------------------------------------------------
// The registry
// ---------------------------------------------------------------------------

/// A server never holds more matches than it may: creating one keeps within the
/// limit.
pub proof fn law_capacity_is_respected(
    server: ManagerView,
    req: CreateMatchRequest,
    id: Seq<char>,
    m: MatchView,
)
    requires
        server.matches.dom().finite(),
        server.create_fault(req) is None,
    ensures
        server.with_new(id, m).matches.dom().len() <= server.config.max_matches,
{
    let dom = server.matches.dom();
    assert(server.with_new(id, m).matches.dom() =~= dom.insert(id));
}

/// Creating or changing one match leaves all others alone, their dice included.
pub proof fn law_matches_are_independent(
    server: ManagerView,
    id: Seq<char>,
    m: MatchView,
    other: Seq<char>,
)
    requires
        other != id,
    ensures
        forall|after: ManagerView|
            after == server.with_match(id, m) || after == server.with_new(id, m) ==> {
                &&& (#[trigger] after.matches).dom().contains(id) && after.matches[id] == m
                &&& after.matches.dom().contains(other) <==> server.matches.dom().contains(other)
                &&& server.matches.dom().contains(other) ==> after.matches[other]
                    == server.matches[other]
                &&& after.config == server.config
            },
{
}

/// No match is lost: one that leaves the registry, because it expired or because
/// its id was given out again, is set aside as it was.
pub proof fn law_no_match_is_lost(
    server: ManagerView,
    id: Seq<char>,
    m: MatchView,
    gone: Seq<Seq<char>>,
    old_id: Seq<char>,
)
    requires
        server.matches.dom().contains(old_id),
    ensures
        ({
            let after = server.with_new(id, m);
            after.matches.dom().contains(old_id) && after.matches[old_id]
                == server.matches[old_id] || after.set_aside.contains(
                (old_id, server.matches[old_id]),
            )
        }),
        ({
            let after = server.without(gone);
            after.matches.dom().contains(old_id) && after.matches[old_id]
                == server.matches[old_id] || after.set_aside.contains(
                (old_id, server.matches[old_id]),
            )
        }),
{
    let kept = (old_id, server.matches[old_id]);
    let after = server.with_new(id, m);
    if old_id == id {
        assert(after.set_aside[after.set_aside.len() - 1] == kept);
    }
    let after = server.without(gone);
    if gone.contains(old_id) {
        let k = choose|k: int| 0 <= k < gone.len() && gone[k] == old_id;
        assert(after.set_aside[server.set_aside.len() + k] == kept);
    }
}

/// Collection removes what has expired and nothing else: an active match, a
/// lobby still within its time and a match that ended recently stay, unchanged.
/// Afterwards nothing is left to collect.
pub proof fn law_collection(
    server: ManagerView,
    gone: Seq<Seq<char>>,
    id: Seq<char>,
    now: u128,
    lobby_ttl: u128,
    finished_ttl: u128,
)
    requires
        server.matches.dom().contains(id),
        gone.to_set() == server.stale(now, lobby_ttl, finished_ttl),
    ensures
        ({
            let after = server.without(gone);
            let m = server.matches[id];
            &&& after.matches.dom().contains(id) <==> !m.expired(now, lobby_ttl, finished_ttl)
            &&& after.matches.dom().contains(id) ==> after.matches[id] == m
            &&& m.state.status == MatchStatus::Active ==> after.matches.dom().contains(id)
            &&& after.stale(now, lobby_ttl, finished_ttl) == Set::<Seq<char>>::empty()
        }),
{
    let after = server.without(gone);
    assert(after.stale(now, lobby_ttl, finished_ttl) =~= Set::<Seq<char>>::empty());
}

// ---------------------------------------------------------------------------
// Status codes
// ---------------------------------------------------------------------------

proof fn lemma_max_matches_needs_x(text: Seq<char>)
    requires
        forall|i: int| 0 <= i < text.len() ==> text[i] != 'x',
    ensures
        !crate::text::occurs_in(text, "max_matches"@),
{
    reveal_strlit("max_matches");
    assert("max_matches"@.len() == 11 && "max_matches"@[2] == 'x');
    assert forall|at: int| !crate::text::occurs_at(text, "max_matches"@, at) by {
        if crate::text::occurs_at(text, "max_matches"@, at) {
            assert(text.subrange(at, at + 11)[2] == text[at + 2]);
        }
    }
}

/// A create request is refused with "service unavailable" if and only if the
/// server is full; a bad configuration is a bad request.
pub proof fn law_create_refusals(server: ManagerView, req: CreateMatchRequest)
    requires
        server.create_fault(req) is Some,
    ensures
        crate::api::create_refusal(server.create_fault(req)->0) == (if server.at_capacity() {
            crate::api::SERVICE_UNAVAILABLE
        } else {
            crate::api::BAD_REQUEST
        }),
{
    let text = server.create_fault(req)->0;
    if server.at_capacity() {
        let before = "server is at max_matches ("@;
        let number = crate::text::decimal(server.config.max_matches as nat);
        let after = "); try again later"@;
        reveal_strlit("server is at max_matches (");
        reveal_strlit("max_matches");
        assert(text == before + number + after);
        assert(text.subrange(13, 24) =~= "max_matches"@);
        assert(crate::text::occurs_at(text, "max_matches"@, 13));
    } else {
        reveal_strlit("simulation.tick_rate must be 1..=240");
        reveal_strlit("simulation.move_probability_per_second must be in (0, 1]");
        reveal_strlit("simulation.pawn_move_range must be >= 1");
        reveal_strlit("hp and damage values must be positive");
        reveal_strlit("cooldowns must be positive");
        reveal_strlit("simulation.artillery_range must be within 1..=board.size");
        reveal_strlit("simulation.match_timeout_secs must be positive");
        reveal_strlit("board.size must be 4..=16");
        reveal_strlit("board.pawn_row_depth must leave at least one empty row per side");
        lemma_max_matches_needs_x(text);
    }
}

/// A join request is refused with "not found" where there is no such match and
/// with "conflict" where the match is full, and for no other reason.
pub proof fn law_join_refusals(
    server: ManagerView,
    id: Seq<char>,
    presented: Option<Seq<char>>,
    fresh: Seq<char>,
)
    requires
        server.join_fault(id, presented, fresh) is Some,
    ensures
        crate::api::join_refusal(server.join_fault(id, presented, fresh)->0) == (
        if server.matches.dom().contains(id) {
            crate::api::CONFLICT
        } else {
            crate::api::NOT_FOUND
        }),
        server.matches.dom().contains(id) ==> server.matches[id].full(),
{
    reveal_strlit("match not found");
    reveal_strlit("match is full");
    assert("match not found"@.len() == 15 && "match is full"@.len() == 13);
}

} // verus!

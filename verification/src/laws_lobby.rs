//! How matches are set up, joined, kept and collected, and what requests are
//! answered with.

use crate::config::{BoardConfig, BroadcastMode, ConfigView, LifecycleConfig, SimulationConfig};
use crate::events::EventView;
use crate::game_state::{MatchStatus, Owner, StateView, UnitId, UnitKind};
use crate::match_manager::{CreateMatchRequest, ManagerView, MatchView};
use crate::network::{MessageView, Role};
use rand::rngs::StdRng;
use vstd::prelude::*;

verus! {

// ---------------------------------------------------------------------------
// Configuration
// ---------------------------------------------------------------------------

/// A configuration is valid if and only if every value lies in its range.
pub proof fn law_valid_configurations(c: ConfigView)
    ensures
        c.valid() <==> c.complaint() is None,
        c.complaint() is None <==> {
            let sim = c.simulation;
            &&& 1 <= sim.tick_rate <= 240
            &&& !sim.move_probability_per_second.is_nan()
            &&& 0 < sim.move_probability_per_second.scaled() <= vstd::arithmetic::power2::pow2(1074)
            &&& sim.pawn_move_range >= 1
            &&& sim.unit_hp >= 1
            &&& sim.melee_damage >= 1
            &&& sim.artillery_damage >= 1
            &&& sim.melee_cooldown_secs.is_nan() || sim.melee_cooldown_secs.scaled() > 0
            &&& sim.artillery_cooldown_secs.is_nan() || sim.artillery_cooldown_secs.scaled() > 0
            &&& 1 <= sim.artillery_range <= c.board.size
            &&& sim.match_timeout_secs.is_nan() || sim.match_timeout_secs.scaled() > 0
            &&& 4 <= c.board.size <= 16
            &&& c.board.pawn_row_depth >= 1
            &&& 2 * c.board.pawn_row_depth + 2 <= c.board.size
            &&& c.max_matches >= 1
        },
{
}

/// What is said of an invalid configuration: the first of these that applies.
pub proof fn law_complaints(c: ConfigView)
    ensures
        ({
            let sim = c.simulation;
            let a = 1 <= sim.tick_rate <= 240;
            let b = a && sim.move_probability_per_second.in_unit_interval();
            let d = b && sim.pawn_move_range >= 1;
            let e = d && sim.unit_hp >= 1 && sim.melee_damage >= 1 && sim.artillery_damage >= 1;
            let f = e && !sim.melee_cooldown_secs.not_positive()
                && !sim.artillery_cooldown_secs.not_positive();
            let g = f && 1 <= sim.artillery_range <= c.board.size;
            let h = g && !sim.match_timeout_secs.not_positive();
            let i = h && 4 <= c.board.size <= 16;
            let j = i && c.board.pawn_row_depth >= 1 && 2 * c.board.pawn_row_depth + 2
                <= c.board.size;
            &&& !a ==> c.complaint() == Some("simulation.tick_rate must be 1..=240"@)
            &&& a && !b ==> c.complaint() == Some(
                "simulation.move_probability_per_second must be in (0, 1]"@,
            )
            &&& b && !d ==> c.complaint() == Some("simulation.pawn_move_range must be >= 1"@)
            &&& d && !e ==> c.complaint() == Some("hp and damage values must be positive"@)
            &&& e && !f ==> c.complaint() == Some("cooldowns must be positive"@)
            &&& f && !g ==> c.complaint() == Some(
                "simulation.artillery_range must be within 1..=board.size"@,
            )
            &&& g && !h ==> c.complaint() == Some("simulation.match_timeout_secs must be positive"@)
            &&& h && !i ==> c.complaint() == Some("board.size must be 4..=16"@)
            &&& i && !j ==> c.complaint() == Some(
                "board.pawn_row_depth must leave at least one empty row per side"@,
            )
            &&& j && c.max_matches == 0 ==> c.complaint() == Some(
                "server.max_matches must be >= 1"@,
            )
        }),
{
}

/// The standard configuration: a chess board with one row of pawns per side; ten
/// ticks a second; pawns step one tile; two health, one damage; guns reach
/// eight tiles; the whole state each tick. Hits lie two seconds apart, shots
/// three; a match lasts five minutes, a lobby ten, a finished match five.
pub proof fn law_standard_configuration()
    ensures
        ({
            let c = ConfigView::standard();
            let sim = c.simulation;
            let second = vstd::arithmetic::power2::pow2(1074) as int;
            &&& c.valid()
            &&& c.host == "0.0.0.0"@ && c.port == 8080 && c.max_matches == 64
            &&& c.board.size == 8 && c.board.pawn_row_depth == 1
            &&& sim.tick_rate == 10
            &&& sim.move_probability_per_second.bits == 0x3FD3_3333_3333_3333
            &&& sim.pawn_move_range == 1
            &&& sim.unit_hp == 2
            &&& sim.melee_damage == 1
            &&& sim.artillery_damage == 1
            &&& sim.artillery_range == 8
            &&& sim.broadcast_mode == BroadcastMode::Snapshot
            &&& sim.melee_cooldown_secs.scaled() == 2 * second
            &&& sim.artillery_cooldown_secs.scaled() == 3 * second
            &&& sim.match_timeout_secs.scaled() == 300 * second
            &&& c.lifecycle.lobby_ttl_secs.scaled() == 600 * second
            &&& c.lifecycle.finished_ttl_secs.scaled() == 300 * second
            &&& BoardConfig::chess() == c.board
            &&& SimulationConfig::standard() == sim
            &&& LifecycleConfig::standard() == c.lifecycle
        }),
{
    let unit = vstd::arithmetic::power2::pow2(1022) as int;
    vstd::arithmetic::power2::lemma2_to64();
    vstd::arithmetic::power2::lemma2_to64_rest();
    vstd::arithmetic::power2::lemma_pow2_pos(1022);
    vstd::arithmetic::power2::lemma_pow2_adds(1022, 52);
    vstd::arithmetic::power2::lemma_pow2_adds(1022, 1);
    vstd::arithmetic::power2::lemma_pow2_adds(1022, 8);
    vstd::arithmetic::power2::lemma_pow2_adds(1022, 9);
    vstd::arithmetic::power2::lemma_pow2_adds(1020, 2);
    let c = ConfigView::standard();
    let sim = c.simulation;
    crate::laws_time::law_bit_patterns(0, 1024, 0);
    crate::laws_time::law_bit_patterns(0, 1024, 0x8_0000_0000_0000);
    crate::laws_time::law_bit_patterns(0, 1031, 0x2_C000_0000_0000);
    crate::laws_time::law_bit_patterns(0, 1032, 0x2_C000_0000_0000);
    crate::laws_time::law_bit_patterns(0, 1021, 0x3_3333_3333_3333);
    let quarter = vstd::arithmetic::power2::pow2(1020) as int;
    vstd::arithmetic::power2::lemma_pow2_pos(1020);
}

// ---------------------------------------------------------------------------
// Creating
// ---------------------------------------------------------------------------

/// Overrides count as requested: a match has exactly the board that was asked
/// for, and exactly the simulation that was asked for; where nothing was asked
/// for it has the server's. Everything else is the server's.
pub proof fn law_overrides(server: ManagerView, req: CreateMatchRequest)
    ensures
        ({
            let c = server.effective(req);
            &&& req.board matches Some(b) ==> c.board.size == b.size && c.board.pawn_row_depth
                == b.pawn_row_depth
            &&& req.board is None ==> c.board == server.config.board
            &&& req.simulation matches Some(sim) ==> c.simulation == sim
            &&& req.simulation is None ==> c.simulation == server.config.simulation
            &&& c.host == server.config.host
            &&& c.port == server.config.port
            &&& c.max_matches == server.config.max_matches
            &&& c.lifecycle == server.config.lifecycle
        }),
{
}

/// A create request is refused if and only if the server has as many matches as
/// it may, or the resulting configuration is invalid; it is told which.
pub proof fn law_create_requests(server: ManagerView, req: CreateMatchRequest)
    ensures
        ({
            let full = server.matches.dom().len() >= server.config.max_matches;
            let fault = server.create_fault(req);
            &&& server.at_capacity() <==> full
            &&& full ==> fault == Some(
                "server is at max_matches ("@ + crate::text::decimal(
                    server.config.max_matches as nat,
                ) + "); try again later"@,
            )
            &&& !full ==> fault == server.effective(req).complaint()
        }),
{
}

/// A created match: both seats free, in the lobby, at the given time, with the
/// given dice and the configuration that was asked for. Each side has one pawn
/// for each file and row of the board that was asked for, each with the health
/// that was asked for, and there is nobody else.
pub proof fn law_created_matches(
    server: ManagerView,
    req: CreateMatchRequest,
    now: u128,
    rng: StdRng,
)
    requires
        server.create_fault(req) is None,
    ensures
        ({
            let board = match req.board {
                Some(b) => b,
                None => server.config.board,
            };
            let sim = match req.simulation {
                Some(sim) => sim,
                None => server.config.simulation,
            };
            let m = MatchView::opened(server.effective(req), now, rng);
            &&& m.cfg.board == board
            &&& m.cfg.simulation == sim
            &&& m.white_token is None
            &&& m.black_token is None
            &&& m.created_at == now
            &&& m.finished_at is None
            &&& m.rng == rng
            &&& m.state.status == MatchStatus::Lobby
            &&& m.state.tick == 0
            &&& m.state.board_size == board.size
            &&& m.state == StateView::lobby(board, sim.unit_hp)
            &&& forall|side: Owner| #[trigger]
                crate::game_state::army(m.state.units, side).len() == board.size
                    * board.pawn_row_depth
            &&& m.state.units.dom().len() == 2 * (board.size * board.pawn_row_depth)
            &&& forall|id: UnitId| #[trigger]
                m.state.units.dom().contains(id) ==> m.state.units[id].kind == UnitKind::Pawn
                    && m.state.units[id].hp == sim.unit_hp && m.state.units[id].max_hp
                    == sim.unit_hp
        }),
{
    law_overrides(server, req);
    law_create_requests(server, req);
    let cfg = server.effective(req);
    law_valid_configurations(cfg);
    let m = MatchView::opened(cfg, now, rng);
    let board = cfg.board;
    let hp = cfg.simulation.unit_hp;
    crate::laws_board::law_deployment_is_even(board, hp, Owner::White);
    crate::laws_board::law_deployment_is_even(board, hp, Owner::Black);
    crate::laws_units::law_sides_count_every_unit(m.state.units);
    assert forall|side: Owner| #[trigger] crate::game_state::army(m.state.units, side).len()
        == board.size * board.pawn_row_depth by {
        match side {
            Owner::White => {},
            Owner::Black => {},
        }
    }
    assert forall|id: UnitId| #[trigger] m.state.units.dom().contains(id) implies
        m.state.units[id].kind == UnitKind::Pawn && m.state.units[id].hp == hp
        && m.state.units[id].max_hp == hp by {
        crate::laws_board::law_deployment_ranks(board, hp, id);
    }
}

// ---------------------------------------------------------------------------
// Joining
// ---------------------------------------------------------------------------

/// A token makes its bearer the player of the seat it was issued for; any other
/// bearer is a spectator.
pub proof fn law_tokens(m: MatchView, token: Seq<char>)
    ensures
        m.white_token == Some(token) ==> m.role(token) == Role::Player(Owner::White),
        m.white_token != Some(token) && m.black_token == Some(token) ==> m.role(token)
            == Role::Player(Owner::Black),
        m.white_token != Some(token) && m.black_token != Some(token) ==> m.role(token)
            == Role::Spectator,
        m.full() <==> m.white_token is Some && m.black_token is Some,
{
}

/// Joining. Whoever presents the token of a seat gets that seat and nothing
/// changes. Anyone else gets the first free seat, white before black, under the
/// fresh token, unless none is free. The join that fills the second seat makes
/// the match active, and everyone is told so and sees the whole state; any
/// other join is told to nobody.
pub proof fn law_joining(m: MatchView, presented: Option<Seq<char>>, fresh: Seq<char>)
    ensures
        ({
            let known_white = presented is Some && m.white_token == presented;
            let known_black = presented is Some && m.black_token == presented && !known_white;
            let newcomer = !known_white && !known_black;
            let white_free = m.white_token is None;
            let black_free = m.black_token is None;
            let r = m.join(presented, fresh);
            &&& r is None <==> newcomer && !white_free && !black_free
            &&& r matches Some(seat) ==> {
                &&& known_white ==> seat.owner == Owner::White
                &&& known_black ==> seat.owner == Owner::Black
                &&& !newcomer ==> seat.token == presented->0 && seat.after == m && seat.told.len()
                    == 0
                &&& newcomer ==> {
                    let fills = if white_free {
                        !black_free
                    } else {
                        true
                    };
                    &&& seat.token == fresh
                    &&& white_free ==> seat.owner == Owner::White
                    &&& !white_free ==> seat.owner == Owner::Black
                    &&& seat.after.white_token == (if white_free {
                        Some(fresh)
                    } else {
                        m.white_token
                    })
                    &&& seat.after.black_token == (if white_free {
                        m.black_token
                    } else {
                        Some(fresh)
                    })
                    &&& seat.after.state == (StateView {
                        status: if fills {
                            MatchStatus::Active
                        } else {
                            m.state.status
                        },
                        ..m.state
                    })
                    &&& seat.after.cfg == m.cfg
                    &&& seat.after.created_at == m.created_at
                    &&& seat.after.finished_at == m.finished_at
                    &&& seat.after.rng == m.rng
                    &&& !fills ==> seat.told.len() == 0
                    &&& fills ==> seat.told.len() == 2 && seat.told[0] == (MessageView::Event {
                        event: EventView::MatchStarted,
                    }) && seat.told[1] == (MessageView::StateSnapshot { state: seat.after.state })
                }
            }
        }),
{
}

/// A join request is refused if and only if there is no such match, or both its
/// seats are taken and the presented token is neither's; it is told which.
pub proof fn law_join_requests(
    server: ManagerView,
    id: Seq<char>,
    presented: Option<Seq<char>>,
    fresh: Seq<char>,
)
    ensures
        ({
            let m = server.matches[id];
            let known = presented is Some && (m.white_token == presented || m.black_token
                == presented);
            let fault = server.join_fault(id, presented, fresh);
            &&& !server.matches.dom().contains(id) ==> fault == Some("match not found"@)
            &&& server.matches.dom().contains(id) && !known && m.white_token is Some
                && m.black_token is Some ==> fault == Some("match is full"@)
            &&& server.matches.dom().contains(id) && (known || m.white_token is None
                || m.black_token is None) ==> fault is None
        }),
{
}

// ---------------------------------------------------------------------------
// Keeping and collecting
// ---------------------------------------------------------------------------

/// A new match is registered under its id, in place of the one that had it,
/// which is then the last of those set aside. No other match changes, nor does
/// the configuration.
pub proof fn law_registering(server: ManagerView, id: Seq<char>, m: MatchView)
    ensures
        ({
            let after = server.with_new(id, m);
            &&& after.matches.dom() == server.matches.dom().insert(id)
            &&& after.matches[id] == m
            &&& forall|o: Seq<char>| o != id ==> #[trigger] after.matches[o] == server.matches[o]
            &&& after.config == server.config
            &&& !server.matches.dom().contains(id) ==> after.set_aside == server.set_aside
            &&& server.matches.dom().contains(id) ==> after.set_aside == server.set_aside.push(
                (id, server.matches[id]),
            )
        }),
        ({
            let after = server.with_match(id, m);
            &&& after.matches.dom() == server.matches.dom().insert(id)
            &&& after.matches[id] == m
            &&& forall|o: Seq<char>| o != id ==> #[trigger] after.matches[o] == server.matches[o]
            &&& after.config == server.config
            &&& after.set_aside == server.set_aside
        }),
{
    assert(server.with_new(id, m).matches.dom() =~= server.matches.dom().insert(id));
    assert(server.with_match(id, m).matches.dom() =~= server.matches.dom().insert(id));
}

/// When a match is collected: a lobby that is older than a lobby's time to live;
/// a finished match whose end is noted and lies further back than a finished
/// match's; an active match never.
pub proof fn law_expiry(
    server: ManagerView,
    id: Seq<char>,
    now: u128,
    lobby_ttl: u128,
    finished_ttl: u128,
)
    ensures
        ({
            let m = server.matches[id];
            let old = match m.state.status {
                MatchStatus::Lobby => now - m.created_at > lobby_ttl,
                MatchStatus::Finished => m.finished_at is Some && now - m.finished_at->0
                    > finished_ttl,
                MatchStatus::Active => false,
            };
            &&& m.expired(now, lobby_ttl, finished_ttl) <==> old
            &&& server.stale(now, lobby_ttl, finished_ttl).contains(id)
                <==> server.matches.dom().contains(id) && old
        }),
{
}

/// What collection leaves: every match but the listed ones, unchanged; these
/// are set aside as they were, in the order of the list, after those that were
/// set aside before.
pub proof fn law_setting_aside(server: ManagerView, gone: Seq<Seq<char>>, id: Seq<char>)
    ensures
        ({
            let after = server.without(gone);
            &&& after.matches.dom().contains(id) <==> server.matches.dom().contains(id)
                && !gone.contains(id)
            &&& after.matches.dom().contains(id) ==> after.matches[id] == server.matches[id]
            &&& after.config == server.config
            &&& after.set_aside.len() == server.set_aside.len() + gone.len()
            &&& forall|i: int|
                0 <= i < server.set_aside.len() ==> #[trigger] after.set_aside[i]
                    == server.set_aside[i]
            &&& forall|i: int|
                0 <= i < gone.len() ==> #[trigger] after.set_aside[server.set_aside.len() + i] == (
                    gone[i],
                    server.matches[gone[i]],
                )
        }),
{
}

// ---------------------------------------------------------------------------
// Status codes
// ---------------------------------------------------------------------------

/// The status that a refusal is reported with. Of a create request: 503 if the
/// reason speaks of the limit on matches, and 400 otherwise. Of a join request:
/// 404 and 409 for the two reasons it has, and 400 for any other.
pub proof fn law_status_codes(reason: Seq<char>)
    ensures
        crate::api::create_refusal(reason) == (if exists|i: int|
            0 <= i && i + "max_matches"@.len() <= reason.len() && #[trigger] reason.subrange(
                i,
                i + "max_matches"@.len(),
            ) == "max_matches"@ {
            503u16
        } else {
            400u16
        }),
        reason == "match not found"@ ==> crate::api::join_refusal(reason) == 404,
        reason == "match is full"@ ==> crate::api::join_refusal(reason) == 409,
        reason != "match not found"@ && reason != "match is full"@ ==> crate::api::join_refusal(
            reason,
        ) == 400,
        crate::api::OK == 200,
{
    reveal_strlit("match not found");
    reveal_strlit("match is full");
    assert("match not found"@.len() == 15 && "match is full"@.len() == 13);
    let part = "max_matches"@;
    if crate::text::occurs_in(reason, part) {
        let at = choose|at: int| crate::text::occurs_at(reason, part, at);
        assert(reason.subrange(at, at + part.len()) == part);
    }
    if exists|i: int|
        0 <= i && i + part.len() <= reason.len() && #[trigger] reason.subrange(i, i + part.len())
            == part {
        let i = choose|i: int|
            0 <= i && i + part.len() <= reason.len() && #[trigger] reason.subrange(
                i,
                i + part.len(),
            ) == part;
        assert(crate::text::occurs_at(reason, part, i));
    }
}

} // verus!

use haven_server::api::{connect_role, create_error_status, join_error_status};
use haven_server::config::{BoardConfig, BroadcastMode, Config, SimulationConfig};
use haven_server::double::Double;
use haven_server::game_state::{
    ArtilleryType, EndReason, GameState, MatchStatus, Owner, StateDelta, Tile, Unit, UnitId,
    UnitKind, UnitState,
};
use haven_server::match_manager::{
    build_delta, unit_ids_touched, CreateMatchRequest, JoinRequest, MatchInner, MatchManager,
};
use haven_server::network::{
    greeting, on_frame, ClientMessage, Frame, FrameAction, InputItem, Role, ServerMessage,
    BROADCAST_CHANNEL_SIZE, DIRECT_CHANNEL_SIZE, INPUT_QUEUE_SIZE,
};
use haven_server::simulation::GameEvent;
use rand::rngs::StdRng;
use rand::SeedableRng;
use std::collections::BTreeMap;

fn double(x: f64) -> Double {
    Double { bits: x.to_bits() }
}

fn server() -> MatchManager {
    MatchManager::new(Config::default())
}

fn request(token: Option<&str>) -> JoinRequest {
    JoinRequest {
        token: token.map(|t| t.to_string()),
    }
}

fn rng() -> StdRng {
    StdRng::seed_from_u64(5)
}

/// A server with one match under the id "m", with both seats taken.
fn started(mode: BroadcastMode) -> MatchManager {
    let mut sim = SimulationConfig::default();
    sim.broadcast_mode = mode;
    started_with(sim)
}

fn started_with(sim: SimulationConfig) -> MatchManager {
    let mut mgr = server();
    mgr.create_with(
        CreateMatchRequest {
            board: None,
            simulation: Some(sim),
        },
        "m".to_string(),
        rng(),
        100,
    )
    .unwrap();
    mgr.join_with("m", &request(None), "w".to_string()).unwrap();
    mgr.join_with("m", &request(None), "b".to_string()).unwrap();
    mgr
}

/// The match "m" of such a server, set aside for a new one.
fn alone(mode: BroadcastMode) -> MatchInner {
    let mut mgr = started(mode);
    mgr.create_with(CreateMatchRequest::default(), "m".to_string(), rng(), 200)
        .unwrap();
    mgr.take_set_aside().pop().unwrap().inner
}

fn order(owner: Owner, msg: ClientMessage) -> InputItem {
    InputItem {
        from: Role::Player(owner),
        msg,
    }
}

fn go(unit_id: UnitId, x: u8, y: u8) -> ClientMessage {
    ClientMessage::Move {
        unit_id,
        target: Tile::new(x, y),
    }
}

#[test]
fn create_and_join_until_full() {
    let mut mgr = server();
    let mut sim = SimulationConfig::default();
    sim.unit_hp = 3;
    let created = mgr
        .create(
            CreateMatchRequest {
                board: None,
                simulation: Some(sim),
            },
            0,
        )
        .unwrap();
    let id = created.match_id;
    assert_eq!(id.len(), 12);
    assert_eq!(created.config.simulation.unit_hp, 3);
    assert_eq!(created.config.simulation.tick_rate, 10);
    assert_eq!(created.config.simulation.melee_damage, 1);
    assert_eq!(mgr.live_count(), 1);

    let info = mgr.info(&id).unwrap();
    assert_eq!(info.match_id, id);
    assert_eq!(info.status, MatchStatus::Lobby);
    assert_eq!((info.players.white, info.players.black), (false, false));
    assert_eq!((info.units_alive.white, info.units_alive.black), (8, 8));
    assert_eq!(info.tick, 0);

    let (first, told) = mgr.join(&id, &request(None)).unwrap();
    assert_eq!(first.owner, Owner::White);
    assert!(told.is_empty());
    assert_eq!(mgr.info(&id).unwrap().status, MatchStatus::Lobby);

    let (second, told) = mgr.join(&id, &request(None)).unwrap();
    assert_eq!(second.owner, Owner::Black);
    assert_ne!(first.player_token, second.player_token);
    assert!(matches!(
        told.as_slice(),
        [
            ServerMessage::Event { event: GameEvent::MatchStarted },
            ServerMessage::StateSnapshot { state }
        ] if state.status == MatchStatus::Active && state.units.len() == 16
    ));

    let full = mgr.join(&id, &request(None)).unwrap_err();
    assert_eq!(full, "match is full");
    assert_eq!(join_error_status(&full), 409);

    let info = mgr.info(&id).unwrap();
    assert_eq!(info.status, MatchStatus::Active);
    assert_eq!((info.players.white, info.players.black), (true, true));

    // A known token gets its seat again.
    for seat in [&first, &second] {
        let (again, told) = mgr.join(&id, &request(Some(&seat.player_token))).unwrap();
        assert_eq!(again.owner, seat.owner);
        assert_eq!(again.player_token, seat.player_token);
        assert!(told.is_empty());
    }
    // An unknown one does not.
    assert_eq!(mgr.join(&id, &request(Some("x"))).unwrap_err(), "match is full");

    assert_eq!(
        connect_role(&mgr, &id, Some(&first.player_token)),
        Some(Role::Player(Owner::White))
    );
    assert_eq!(
        connect_role(&mgr, &id, Some(&second.player_token)),
        Some(Role::Player(Owner::Black))
    );
    assert_eq!(connect_role(&mgr, &id, Some("x")), Some(Role::Spectator));
    assert_eq!(connect_role(&mgr, &id, None), Some(Role::Spectator));
    assert_eq!(connect_role(&mgr, "elsewhere", None), None);
}

#[test]
fn a_stranger_with_an_unknown_token_is_seated_anew() {
    let mut mgr = server();
    mgr.create_with(CreateMatchRequest::default(), "m".to_string(), rng(), 0)
        .unwrap();
    let (seat, _) = mgr
        .join_with("m", &request(Some("old")), "new".to_string())
        .unwrap();
    assert_eq!(seat.owner, Owner::White);
    assert_eq!(seat.player_token, "new");
    let m = mgr.get("m").unwrap();
    assert_eq!(m.role_for_token("new"), Role::Player(Owner::White));
    assert_eq!(m.role_for_token("old"), Role::Spectator);
    assert_eq!(m.role_for_token(""), Role::Spectator);
}

#[test]
fn refused_requests_and_their_status_codes() {
    let mut mgr = server();
    assert!(mgr.info("doesnotexist").is_none());
    assert!(mgr.get("doesnotexist").is_none());
    let missing = mgr.join("doesnotexist", &request(None)).unwrap_err();
    assert_eq!(missing, "match not found");
    assert_eq!(join_error_status(&missing), 404);
    assert_eq!(join_error_status("anything else"), 400);

    let mut sim = SimulationConfig::default();
    sim.tick_rate = 100000;
    let bad = mgr
        .create(
            CreateMatchRequest {
                board: None,
                simulation: Some(sim),
            },
            0,
        )
        .unwrap_err();
    assert!(bad.contains("tick_rate"));
    assert_eq!(create_error_status(&bad), 400);
    assert_eq!(mgr.live_count(), 0);

    let bad = mgr
        .create(
            CreateMatchRequest {
                board: Some(BoardConfig {
                    size: 20,
                    pawn_row_depth: 1,
                }),
                simulation: None,
            },
            0,
        )
        .unwrap_err();
    assert_eq!(bad, "board.size must be 4..=16");
    assert_eq!(create_error_status(&bad), 400);
}

#[test]
fn a_full_server_creates_no_more() {
    let mut cfg = Config::default();
    cfg.server.max_matches = 1;
    let mut mgr = MatchManager::new(cfg);
    mgr.create(CreateMatchRequest::default(), 0).unwrap();
    let full = mgr.create(CreateMatchRequest::default(), 0).unwrap_err();
    assert_eq!(full, "server is at max_matches (1); try again later");
    assert_eq!(create_error_status(&full), 503);
    assert_eq!(create_error_status("max_matche"), 400);
    assert_eq!(create_error_status("xmax_matches"), 503);
    assert_eq!(mgr.live_count(), 1);
}

#[test]
fn matches_do_not_touch_each_other() {
    let mut mgr = started(BroadcastMode::Snapshot);
    mgr.create_with(CreateMatchRequest::default(), "n".to_string(), rng(), 7)
        .unwrap();
    let before = format!("{:?}", mgr.get("m").unwrap().state);
    mgr.join_with("n", &request(None), "t".to_string()).unwrap();
    assert_eq!(format!("{:?}", mgr.get("m").unwrap().state), before);
    assert_eq!(mgr.get("n").unwrap().role_for_token("w"), Role::Spectator);
    // The same id again replaces the match, which is set aside as it was.
    assert!(mgr.take_set_aside().is_empty());
    mgr.create_with(CreateMatchRequest::default(), "n".to_string(), rng(), 8)
        .unwrap();
    assert_eq!(mgr.live_count(), 2);
    assert_eq!(mgr.get("n").unwrap().role_for_token("t"), Role::Spectator);
    assert_eq!(mgr.get("n").unwrap().created_at, 8);
    let aside = mgr.take_set_aside();
    assert_eq!(aside.len(), 1);
    assert_eq!(aside[0].id, "n");
    assert_eq!(aside[0].inner.created_at, 7);
    assert_eq!(aside[0].inner.role_for_token("t"), Role::Player(Owner::White));
    assert!(mgr.take_set_aside().is_empty());
    assert_eq!(mgr.live_count(), 2);
}

#[test]
fn every_match_keeps_its_own_dice() {
    let dice = |n: u64| StdRng::seed_from_u64(n);
    let of = |mgr: &MatchManager, id: &str| mgr.get(id).unwrap().rng.clone();
    let fresh = CreateMatchRequest::default;
    let mut mgr = server();
    mgr.create_with(fresh(), "a".to_string(), dice(1), 0).unwrap();
    mgr.create_with(fresh(), "b".to_string(), dice(2), 0).unwrap();
    assert!(of(&mgr, "a") == dice(1) && of(&mgr, "b") == dice(2));
    mgr.create(fresh(), 0).unwrap();
    for id in ["a", "a", "b"] {
        mgr.join(id, &request(None)).unwrap();
    }
    assert!(of(&mgr, "a") == dice(1) && of(&mgr, "b") == dice(2));
    // A turn without a queued move rolls no dice; one with a queued move does.
    mgr.step_match("a", &vec![], double(1.0), 0, 600).unwrap();
    assert!(of(&mgr, "a") == dice(1));
    let items = vec![order(Owner::White, go(1, 0, 2))];
    mgr.step_match("a", &items, double(1.0), 0, 600).unwrap();
    assert!(of(&mgr, "a") != dice(1) && of(&mgr, "b") == dice(2));
    // An expired match takes its dice along.
    mgr.create_with(fresh(), "c".to_string(), dice(3), 900).unwrap();
    assert_eq!(mgr.collect_garbage(901, 600, 600).len(), 2);
    assert!(of(&mgr, "c") == dice(3));
    let aside = mgr.take_set_aside();
    assert!(aside.iter().any(|e| e.id == "b" && e.inner.rng == dice(2)));
}

#[test]
fn garbage_is_what_has_expired() {
    let mut mgr = started(BroadcastMode::Snapshot); // active, created at 100
    let fresh = CreateMatchRequest::default;
    mgr.create_with(fresh(), "old".to_string(), rng(), 100).unwrap();
    mgr.create_with(fresh(), "young".to_string(), rng(), 500).unwrap();
    let mut sim = SimulationConfig::default();
    sim.match_timeout_secs = double(0.1);
    for (id, ended) in [("done", 700), ("just", 701)] {
        mgr.create_with(
            CreateMatchRequest {
                board: None,
                simulation: Some(sim.clone()),
            },
            id.to_string(),
            rng(),
            0,
        )
        .unwrap();
        mgr.join(id, &request(None)).unwrap();
        mgr.join(id, &request(None)).unwrap();
        assert!(mgr.step_match(id, &vec![], double(1.0), ended, 600).unwrap().stop);
    }

    // Nothing is collected at the limit itself.
    assert!(mgr.collect_garbage(700, 600, 300).is_empty());
    let gone = mgr.collect_garbage(1001, 600, 300);
    assert_eq!(gone, vec!["old".to_string(), "done".to_string()]);
    assert_eq!(mgr.live_count(), 3);
    for id in ["m", "young", "just"] {
        assert!(mgr.get(id).is_some());
    }
    assert!(mgr.collect_garbage(1001, 600, 300).is_empty());
    // A clock that stands before the creation makes nothing old.
    assert!(mgr.collect_garbage(0, 0, 0).is_empty());
    let gone = mgr.collect_garbage(u128::MAX, 0, 0);
    assert_eq!(gone, vec!["young".to_string(), "just".to_string()]);
    assert!(mgr.get("m").is_some());
    let aside: Vec<String> = mgr.take_set_aside().into_iter().map(|e| e.id).collect();
    assert_eq!(aside, ["old", "done", "young", "just"]);
}

#[test]
fn a_match_that_left_the_registry_still_takes_its_turn() {
    let mut mgr = server();
    mgr.create_with(CreateMatchRequest::default(), "m".to_string(), rng(), 100)
        .unwrap();
    assert_eq!(mgr.collect_garbage(701, 600, 300), vec!["m".to_string()]);
    let mut m = mgr.take_set_aside().pop().unwrap().inner;
    let items = vec![order(Owner::White, go(1, 0, 2))];
    let out = m.step(&items, double(1.0), 702, 600).unwrap();
    assert!(out.stop);
    assert!(matches!(
        out.messages.as_slice(),
        [ServerMessage::Error { to: None, code, .. }] if code == "match_not_active"
    ));

    let mut m = alone(BroadcastMode::Snapshot);
    let out = m.step(&items, double(1.0), 702, 600).unwrap();
    assert!(!out.stop);
    assert_eq!(m.state.units[&1].pos, Tile::new(0, 2));
}

#[test]
fn a_lobby_refuses_inputs_and_expires() {
    let mut mgr = server();
    mgr.create_with(CreateMatchRequest::default(), "m".to_string(), rng(), 100)
        .unwrap();
    let items = vec![
        order(Owner::White, go(1, 0, 2)),
        order(Owner::White, ClientMessage::Ping),
    ];
    let before = format!("{:?}", mgr.get("m").unwrap().state);
    let out = mgr.step_match("m", &items, double(1.0), 700, 600).unwrap();
    assert!(!out.stop);
    assert_eq!(out.messages.len(), 2);
    for m in &out.messages {
        match m {
            ServerMessage::Error { to, code, detail } => {
                assert_eq!(*to, None);
                assert_eq!(code, "match_not_active");
                assert_eq!(detail, "match has not started yet");
            }
            other => panic!("unexpected {other:?}"),
        }
    }
    assert_eq!(format!("{:?}", mgr.get("m").unwrap().state), before);
    let out = mgr.step_match("m", &vec![], double(1.0), 701, 600).unwrap();
    assert!(out.stop);
    assert!(out.messages.is_empty());
}

#[test]
fn an_active_match_handles_inputs_and_ticks() {
    let mut mgr = started(BroadcastMode::Snapshot);
    let items = vec![
        order(Owner::White, go(1, 0, 2)),
        order(Owner::Black, go(1, 0, 2)),
        InputItem {
            from: Role::Spectator,
            msg: go(1, 0, 2),
        },
        order(Owner::Black, ClientMessage::Select { unit_id: 2 }),
    ];
    let out = mgr.step_match("m", &items, double(1.0), 700, 600).unwrap();
    assert!(!out.stop);
    let said: Vec<&str> = out.messages.iter().map(|m| m.type_tag()).collect();
    assert_eq!(said, ["event", "error", "error", "state_snapshot", "event"]);
    assert!(matches!(&out.messages[0],
        ServerMessage::Event { event: GameEvent::MoveQueued { unit: 1, .. } }));
    match &out.messages[1] {
        ServerMessage::Error { to, code, detail } => {
            assert_eq!(*to, Some(Owner::Black));
            assert_eq!(code, "not_owned");
            assert_eq!(detail, "unit 1 is not yours");
        }
        other => panic!("unexpected {other:?}"),
    }
    match &out.messages[2] {
        ServerMessage::Error { to, code, detail } => {
            assert_eq!(*to, None);
            assert_eq!(code, "not_a_player");
            assert_eq!(detail, "spectators cannot send commands");
        }
        other => panic!("unexpected {other:?}"),
    }
    match &out.messages[3] {
        ServerMessage::StateSnapshot { state } => {
            assert_eq!(state.tick, 1);
            assert_eq!(state.units[&1].pos, Tile::new(0, 2));
        }
        other => panic!("unexpected {other:?}"),
    }
    assert!(matches!(&out.messages[4],
        ServerMessage::Event { event: GameEvent::MoveResolved { unit: 1, .. } }));
    assert_eq!(mgr.get("m").unwrap().state.tick, 1);
}

#[test]
fn a_finished_match_ends_with_a_snapshot() {
    let mut m = alone(BroadcastMode::Delta);
    m.state.units.retain(|_, u| u.owner == Owner::White);
    let out = m.step(&vec![], double(1.0), 900, 600).unwrap();
    assert!(out.stop);
    let said: Vec<&str> = out.messages.iter().map(|m| m.type_tag()).collect();
    assert_eq!(said, ["state_delta", "event", "state_snapshot"]);
    match &out.messages[0] {
        ServerMessage::StateDelta { delta } => {
            assert_eq!(delta.status, MatchStatus::Finished);
            assert_eq!(delta.winner, Some(Owner::White));
            assert_eq!(delta.end_reason, Some(EndReason::Annihilation));
            assert!(delta.updated.is_empty());
            assert!(delta.removed.is_empty());
        }
        other => panic!("unexpected {other:?}"),
    }
    assert_eq!(m.finished_at, Some(900));
    assert_eq!(m.current_state().winner, Some(Owner::White));
    let before = format!("{:?}", m.state);
    // From here on nothing happens.
    let items = vec![order(Owner::White, go(1, 0, 2))];
    let out = m.step(&items, double(1.0), 901, 600).unwrap();
    assert!(out.stop);
    assert!(out.messages.is_empty());
    assert_eq!(format!("{:?}", m.state), before);
}

#[test]
fn the_outcome_of_a_match_is_public() {
    let mut sim = SimulationConfig::default();
    sim.match_timeout_secs = double(0.1);
    let mut mgr = started_with(sim);
    let out = mgr.step_match("m", &vec![], double(1.0), 900, 600).unwrap();
    assert!(out.stop);
    assert_eq!(mgr.get("m").unwrap().finished_at, Some(900));
    let info = mgr.info("m").unwrap();
    assert_eq!(info.status, MatchStatus::Finished);
    assert_eq!(info.tick, 1);
    assert_eq!(info.winner, None);
    assert_eq!(info.end_reason, Some(EndReason::Draw));
}

fn patched(before: &GameState, delta: &StateDelta) -> BTreeMap<UnitId, Unit> {
    let mut units = before.units.clone();
    for id in &delta.removed {
        units.remove(id);
    }
    for u in &delta.updated {
        units.insert(u.id, *u);
    }
    units
}

#[test]
fn deltas_lose_nothing() {
    let mut m = alone(BroadcastMode::Delta);
    m.cfg.simulation.melee_cooldown_secs = double(0.2);
    m.state.units.get_mut(&2).unwrap().pos = Tile::new(0, 3);
    let gun = m
        .state
        .spawn_unit(UnitKind::Artillery, Owner::White, Tile::new(7, 2), 2);
    let mut updated_once = false;
    let mut removed_once = false;
    for n in 0..40u8 {
        let items = if n == 0 {
            vec![
                order(Owner::White, go(1, 0, 2)),
                order(
                    Owner::White,
                    ClientMessage::Upgrade {
                        unit_id: 5,
                        artillery_type: ArtilleryType::Cannon,
                    },
                ),
            ]
        } else {
            vec![]
        };
        let before = m.current_state();
        let out = m.step(&items, double(1.0), 700, 600).unwrap();
        let delta = out
            .messages
            .iter()
            .find_map(|m| match m {
                ServerMessage::StateDelta { delta } => Some(delta.clone()),
                _ => None,
            })
            .unwrap();
        let after = m.current_state();
        assert_eq!(delta.tick, after.tick);
        assert_eq!(patched(&before, &delta), after.units);
        // Only units that changed or that an event speaks of are sent.
        assert!(delta.updated.len() < after.units.len());
        updated_once |= !delta.updated.is_empty();
        removed_once |= !delta.removed.is_empty();
    }
    assert!(updated_once && removed_once);
    assert!(m.state.units.contains_key(&gun));
}

#[test]
fn deltas_name_the_touched_the_changed_and_the_dead() {
    let before = GameState::new(&BoardConfig::default(), 2);
    let mut after = before.clone();
    after.tick = 9;
    after.units.remove(&3);
    after.units.get_mut(&8).unwrap().hp = 1;
    let events = vec![
        GameEvent::MeleeHit {
            attacker: 5,
            defender: 6,
            damage: 1,
            hp_left: 1,
        },
        GameEvent::UnitDied {
            unit: 3,
            owner: Owner::White,
            at: Tile::new(1, 1),
        },
    ];
    let delta = build_delta(&before, &after, &events);
    assert_eq!(delta.tick, 9);
    assert_eq!(delta.status, MatchStatus::Lobby);
    let ids: Vec<UnitId> = delta.updated.iter().map(|u| u.id).collect();
    assert_eq!(ids, vec![5, 6, 8]);
    assert_eq!(delta.updated[2].hp, 1);
    assert_eq!(delta.removed, vec![3]);
}

#[test]
fn every_event_names_its_units() {
    let t = Tile::new(0, 0);
    let by = Owner::White;
    let cases: Vec<(GameEvent, Vec<UnitId>)> = vec![
        (GameEvent::MatchStarted, vec![]),
        (GameEvent::MoveQueued { unit: 1, by, from: t, to: t }, vec![1]),
        (GameEvent::MoveResolved { unit: 2, by, from: t, to: t }, vec![2]),
        (
            GameEvent::MoveBlocked { unit: 3, by, to: t, reason: String::new() },
            vec![3],
        ),
        (GameEvent::MeleeLocked { a: 4, b: 5 }, vec![4, 5]),
        (
            GameEvent::MeleeHit { attacker: 6, defender: 7, damage: 1, hp_left: 0 },
            vec![6, 7],
        ),
        (
            GameEvent::ArtilleryFired { unit: 8, from: t, to: t, target: 9, damage: 1 },
            vec![8, 9],
        ),
        (
            GameEvent::UnitUpgraded { unit: 10, at: t, kind: UnitKind::Artillery },
            vec![10],
        ),
        (GameEvent::UnitDied { unit: 11, owner: by, at: t }, vec![11]),
        (
            GameEvent::MatchOver { winner: None, reason: EndReason::Draw },
            vec![],
        ),
    ];
    let mut all: Vec<GameEvent> = Vec::new();
    for (event, ids) in cases {
        assert_eq!(unit_ids_touched(&vec![event.clone()]), ids);
        all.push(event);
    }
    assert_eq!(unit_ids_touched(&all), (1..=11).collect::<Vec<UnitId>>());
}

#[test]
fn steps_that_leave_the_range_change_nothing() {
    let mut m = alone(BroadcastMode::Snapshot);
    m.state.tick = u64::MAX;
    let before = format!("{:?}", m.state);
    let items = vec![order(Owner::White, go(1, 0, 2))];
    assert!(m.step(&items, double(1.0), 700, 600).is_none());
    assert_eq!(format!("{:?}", m.state), before);
}

#[test]
fn steps_with_given_rolls() {
    let mut m = alone(BroadcastMode::Snapshot);
    let items = vec![order(Owner::White, go(1, 0, 2)), order(Owner::Black, go(2, 0, 5))];
    let out = m
        .step_with_rolls(&items, &vec![u64::MAX, 0], double(0.5), 700, 600)
        .unwrap();
    assert!(!out.stop);
    assert_eq!(m.state.units[&1].pos, Tile::new(0, 1));
    assert_eq!(m.state.units[&1].state, UnitState::Moving);
    assert_eq!(m.state.units[&2].pos, Tile::new(0, 5));
    assert_eq!(m.state.units[&2].state, UnitState::Idle);
}

#[test]
fn connections_are_greeted_with_the_whole_state() {
    let state = GameState::new(&BoardConfig::default(), 2);
    let hello = greeting("abc", Role::Player(Owner::Black), state.clone());
    match hello.as_slice() {
        [ServerMessage::Welcome { match_id, you, status, tick }, ServerMessage::StateSnapshot { state: s }] =>
        {
            assert_eq!(match_id, "abc");
            assert_eq!(*you, Some(Owner::Black));
            assert_eq!(*status, MatchStatus::Lobby);
            assert_eq!(*tick, 0);
            assert_eq!(format!("{s:?}"), format!("{state:?}"));
        }
        other => panic!("unexpected {other:?}"),
    }
    let hello = greeting("abc", Role::Spectator, state);
    assert!(matches!(&hello[0], ServerMessage::Welcome { you: None, .. }));
    assert_eq!(hello[0].type_tag(), "welcome");
}

#[test]
fn frames_are_answered_forwarded_or_skipped() {
    let me = Role::Player(Owner::White);
    match on_frame(me, Frame::Text(Ok(ClientMessage::Ping))) {
        FrameAction::Reply(m) => {
            assert_eq!(m.type_tag(), "pong");
            assert!(matches!(m, ServerMessage::Pong { tick: u64::MAX }));
        }
        other => panic!("unexpected {other:?}"),
    }
    match on_frame(me, Frame::Text(Ok(go(1, 0, 2)))) {
        FrameAction::Forward(item) => {
            assert_eq!(item, InputItem { from: me, msg: go(1, 0, 2) });
        }
        other => panic!("unexpected {other:?}"),
    }
    match on_frame(me, Frame::Text(Err("EOF at line 1".to_string()))) {
        FrameAction::Reply(m) => match m.clone() {
            ServerMessage::Error { to, code, detail } => {
                assert_eq!(to, Some(Owner::White));
                assert_eq!(code, "bad_request");
                assert_eq!(detail, "bad message: EOF at line 1");
            }
            other => panic!("unexpected {other:?}"),
        },
        other => panic!("unexpected {other:?}"),
    }
    assert!(matches!(on_frame(Role::Spectator, Frame::Other), FrameAction::Skip));
    assert!(matches!(on_frame(Role::Spectator, Frame::Close), FrameAction::Stop));
    assert_eq!(Role::Spectator.owner(), None);
    assert_eq!(me.owner(), Some(Owner::White));
    assert_eq!(
        (BROADCAST_CHANNEL_SIZE, INPUT_QUEUE_SIZE, DIRECT_CHANNEL_SIZE),
        (512, 256, 32)
    );
}

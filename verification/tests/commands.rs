use haven_server::config::{BoardConfig, SimulationConfig};
use haven_server::game_state::{
    ArtilleryType, GameState, MatchStatus, Owner, Tile, UnitKind, UnitState,
};
use haven_server::input::{handle_message, handle_upgrade, CommandError};
use haven_server::network::ClientMessage;
use haven_server::simulation::GameEvent;

fn active() -> GameState {
    let mut s = GameState::new(&BoardConfig::default(), 2);
    s.status = MatchStatus::Active;
    s
}

fn give(
    s: &mut GameState,
    owner: Owner,
    msg: ClientMessage,
) -> (Result<(), CommandError>, Vec<GameEvent>) {
    let mut events = Vec::new();
    let r = handle_message(s, owner, msg, &SimulationConfig::default(), &mut events);
    (r, events)
}

fn go(unit_id: u32, x: u8, y: u8) -> ClientMessage {
    ClientMessage::Move {
        unit_id,
        target: Tile::new(x, y),
    }
}

fn upgrade(unit_id: u32) -> ClientMessage {
    ClientMessage::Upgrade {
        unit_id,
        artillery_type: ArtilleryType::Cannon,
    }
}

fn illegal(x: u8, y: u8, reason: &str) -> Result<(), CommandError> {
    Err(CommandError::IllegalTarget {
        to: Tile::new(x, y),
        reason: reason.to_string(),
    })
}

#[test]
fn every_refusal_has_its_code_and_sentence() {
    let to = Tile::new(3, 14);
    let all = [
        (CommandError::MatchNotActive, "match_not_active", "match is not active"),
        (CommandError::NotAPlayer, "not_a_player", "spectators cannot send commands"),
        (CommandError::UnknownUnit(7), "unknown_unit", "unit 7 does not exist"),
        (CommandError::NotOwned(10), "not_owned", "unit 10 is not yours"),
        (
            CommandError::NotMovable(0),
            "not_movable",
            "unit 0 cannot move (locked, artillery or dead)",
        ),
        (
            CommandError::IllegalTarget {
                to,
                reason: "wall".to_string(),
            },
            "illegal_target",
            "illegal target 3-14, wall",
        ),
        (
            CommandError::NotUpgradable(4294967295),
            "not_upgradable",
            "unit 4294967295 cannot be upgraded right now (must be an idle pawn)",
        ),
        (
            CommandError::UnknownArtilleryType,
            "unknown_artillery_type",
            "unknown artillery type",
        ),
    ];
    for (e, code, text) in all {
        assert_eq!(e.code(), code);
        assert_eq!(e.message(), text);
    }
}

#[test]
fn moves_are_refused_in_order_of_the_checks() {
    let mut s = active();
    // Unit 1 is white's pawn on (0, 1); unit 2 is black's on (0, 6).
    assert_eq!(give(&mut s, Owner::White, go(99, 0, 2)).0, Err(CommandError::UnknownUnit(99)));
    assert_eq!(give(&mut s, Owner::White, go(2, 0, 5)).0, Err(CommandError::NotOwned(2)));
    assert_eq!(give(&mut s, Owner::White, go(1, 8, 0)).0, illegal(8, 0, "outside the board"));
    assert_eq!(
        give(&mut s, Owner::White, go(1, 0, 3)).0,
        illegal(0, 3, "move range is 1 tile(s)")
    );
    assert_eq!(give(&mut s, Owner::White, go(1, 1, 1)).0, illegal(1, 1, "tile occupied"));
    // Staying put is refused too: the unit itself is in the way.
    assert_eq!(give(&mut s, Owner::White, go(1, 0, 1)).0, illegal(0, 1, "tile occupied"));
    s.walls.push(Tile::new(0, 2));
    assert_eq!(give(&mut s, Owner::White, go(1, 0, 2)).0, illegal(0, 2, "wall"));
    s.units.get_mut(&1).unwrap().state = UnitState::Locked;
    assert_eq!(give(&mut s, Owner::White, go(1, 8, 0)).0, Err(CommandError::NotMovable(1)));
    s.status = MatchStatus::Finished;
    assert_eq!(give(&mut s, Owner::White, go(99, 0, 2)).0, Err(CommandError::MatchNotActive));
    assert_eq!(give(&mut s, Owner::White, upgrade(99)).0, Err(CommandError::MatchNotActive));
}

#[test]
fn refused_commands_change_nothing() {
    let mut s = active();
    let before = format!("{s:?}");
    for msg in [go(1, 5, 5), go(2, 0, 5), go(77, 0, 0), upgrade(2), upgrade(77)] {
        let (r, events) = give(&mut s, Owner::White, msg);
        assert!(r.is_err());
        assert!(events.is_empty());
        assert_eq!(format!("{s:?}"), before);
    }
}

#[test]
fn selecting_and_pinging_change_nothing() {
    let mut s = active();
    let before = format!("{s:?}");
    assert_eq!(give(&mut s, Owner::Black, ClientMessage::Select { unit_id: 2 }).0, Ok(()));
    assert_eq!(
        give(&mut s, Owner::Black, ClientMessage::Select { unit_id: 1 }).0,
        Err(CommandError::NotOwned(1))
    );
    assert_eq!(
        give(&mut s, Owner::Black, ClientMessage::Select { unit_id: 50 }).0,
        Err(CommandError::UnknownUnit(50))
    );
    let (r, events) = give(&mut s, Owner::Black, ClientMessage::Ping);
    assert_eq!(r, Ok(()));
    assert!(events.is_empty());
    assert_eq!(format!("{s:?}"), before);
}

#[test]
fn an_accepted_move_is_queued_for_one_unit_only() {
    let mut s = active();
    let before = s.clone();
    let (r, events) = give(&mut s, Owner::White, go(1, 1, 2));
    assert_eq!(r, Ok(()));
    assert!(matches!(
        events.as_slice(),
        [GameEvent::MoveQueued { unit: 1, by: Owner::White, from, to }]
            if *from == Tile::new(0, 1) && *to == Tile::new(1, 2)
    ));
    for (id, u) in &s.units {
        let mut expected = before.units[id];
        if *id == 1 {
            expected.pending_move = Some(Tile::new(1, 2));
            expected.state = UnitState::Moving;
        }
        assert_eq!(*u, expected);
    }
    // A second order replaces the first.
    assert_eq!(give(&mut s, Owner::White, go(1, 0, 2)).0, Ok(()));
    assert_eq!(s.units[&1].pending_move, Some(Tile::new(0, 2)));
}

#[test]
fn an_upgrade_changes_only_the_kind_and_the_cooldown() {
    let mut s = active();
    s.units.get_mut(&1).unwrap().hp = 1;
    let before = s.clone();
    let cfg = SimulationConfig::default();
    let mut events: Vec<GameEvent> = Vec::new();
    let cannon = ArtilleryType::Cannon;
    assert_eq!(handle_upgrade(&mut s, Owner::White, 1, cannon, &cfg, &mut events), Ok(()));
    assert_eq!(events.len(), 1);
    let mut expected = before.units.clone();
    let u = expected.get_mut(&1).unwrap();
    u.kind = UnitKind::Artillery;
    u.fire_cooldown = cfg.artillery_cooldown_ticks();
    assert_eq!(s.units, expected);
    assert_eq!(
        handle_upgrade(&mut s, Owner::White, 1, cannon, &cfg, &mut events),
        Err(CommandError::NotUpgradable(1))
    );
    assert_eq!(events.len(), 1);
    assert_eq!(s.units, expected);
}

#[test]
fn an_upgrade_is_final() {
    let mut s = active();
    let (r, events) = give(&mut s, Owner::White, upgrade(1));
    assert_eq!(r, Ok(()));
    assert!(matches!(
        events.as_slice(),
        [GameEvent::UnitUpgraded { unit: 1, at, kind: UnitKind::Artillery }]
            if *at == Tile::new(0, 1)
    ));
    assert_eq!(s.units[&1].kind, UnitKind::Artillery);
    assert_eq!(s.units[&1].fire_cooldown, 30);
    assert_eq!(give(&mut s, Owner::White, upgrade(1)).0, Err(CommandError::NotUpgradable(1)));
    assert_eq!(give(&mut s, Owner::White, go(1, 0, 2)).0, Err(CommandError::NotMovable(1)));
    // A pawn with a queued move, or in a fight, cannot be upgraded.
    assert_eq!(give(&mut s, Owner::White, go(3, 1, 2)).0, Ok(()));
    assert_eq!(give(&mut s, Owner::White, upgrade(3)).0, Err(CommandError::NotUpgradable(3)));
    s.units.get_mut(&5).unwrap().state = UnitState::Locked;
    assert_eq!(give(&mut s, Owner::White, upgrade(5)).0, Err(CommandError::NotUpgradable(5)));
    assert_eq!(give(&mut s, Owner::White, upgrade(2)).0, Err(CommandError::NotOwned(2)));
}

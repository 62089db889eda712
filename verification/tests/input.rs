use haven_server::config::{BoardConfig, SimulationConfig};
use haven_server::game_state::{
    ArtilleryType, GameState, MatchStatus, Owner, Tile, UnitId, UnitKind, UnitState,
};
use haven_server::input::{handle_message, CommandError};
use haven_server::network::ClientMessage;
use haven_server::simulation::GameEvent;

fn state() -> GameState {
    GameState::new(&BoardConfig::default(), 2)
}

fn white_pawn_at(state: &GameState, tile: Tile) -> UnitId {
    state
        .units
        .values()
        .find(|u| u.owner == Owner::White && u.pos == tile)
        .map(|u| u.id)
        .expect("no white pawn there")
}

#[test]
fn move_queues_legally() {
    let mut s = state();
    s.status = MatchStatus::Active;
    let id = white_pawn_at(&s, Tile::new(0, 1));
    let mut ev = vec![];
    let r = handle_message(
        &mut s,
        Owner::White,
        ClientMessage::Move {
            unit_id: id,
            target: Tile::new(1, 2),
        },
        &SimulationConfig::default(),
        &mut ev,
    );
    assert!(r.is_ok());
    assert_eq!(s.units[&id].pending_move, Some(Tile::new(1, 2)));
    assert_eq!(s.units[&id].state, UnitState::Moving);
    assert!(matches!(ev.first(), Some(GameEvent::MoveQueued { .. })));
}

#[test]
fn move_rejections() {
    let mut s = state();
    s.status = MatchStatus::Active;
    let id = white_pawn_at(&s, Tile::new(0, 1));
    let cfg = SimulationConfig::default();
    let mut ev = vec![];

    // Enemy unit is not yours.
    let enemy_id = s
        .units
        .values()
        .find(|u| u.owner == Owner::Black)
        .map(|u| u.id)
        .unwrap();
    assert_eq!(
        handle_message(
            &mut s,
            Owner::White,
            ClientMessage::Select { unit_id: enemy_id },
            &cfg,
            &mut ev
        ),
        Err(CommandError::NotOwned(enemy_id))
    );

    // Out of range.
    assert_eq!(
        handle_message(
            &mut s,
            Owner::White,
            ClientMessage::Move {
                unit_id: id,
                target: Tile::new(2, 2)
            },
            &cfg,
            &mut ev
        ),
        Err(CommandError::IllegalTarget {
            to: Tile::new(2, 2),
            reason: "move range is 1 tile(s)".into()
        })
    );

    // Occupied tile.
    let other = white_pawn_at(&s, Tile::new(1, 1));
    assert!(matches!(
        handle_message(
            &mut s,
            Owner::White,
            ClientMessage::Move {
                unit_id: id,
                target: Tile::new(1, 1)
            },
            &cfg,
            &mut ev
        ),
        Err(CommandError::IllegalTarget { .. })
    ));
    let _ = other;

    // Outside the board.
    assert!(matches!(
        handle_message(
            &mut s,
            Owner::White,
            ClientMessage::Move {
                unit_id: id,
                target: Tile::new(0, 9)
            },
            &cfg,
            &mut ev
        ),
        Err(CommandError::IllegalTarget { .. })
    ));

    // Lobby state rejects everything.
    s.status = MatchStatus::Lobby;
    assert_eq!(
        handle_message(
            &mut s,
            Owner::White,
            ClientMessage::Move {
                unit_id: id,
                target: Tile::new(1, 2)
            },
            &cfg,
            &mut ev
        ),
        Err(CommandError::MatchNotActive)
    );
}

#[test]
fn upgrade_converts_idle_pawn_only() {
    let mut s = state();
    s.status = MatchStatus::Active;
    let id = white_pawn_at(&s, Tile::new(3, 1));
    let cfg = SimulationConfig::default();
    let mut ev = vec![];

    // While moving — rejected.
    s.units.get_mut(&id).unwrap().pending_move = Some(Tile::new(4, 2));
    s.units.get_mut(&id).unwrap().state = UnitState::Moving;
    assert_eq!(
        handle_message(
            &mut s,
            Owner::White,
            ClientMessage::Upgrade {
                unit_id: id,
                artillery_type: ArtilleryType::Cannon
            },
            &cfg,
            &mut ev
        ),
        Err(CommandError::NotUpgradable(id))
    );
    s.units.get_mut(&id).unwrap().pending_move = None;
    s.units.get_mut(&id).unwrap().state = UnitState::Idle;

    // Idle — accepted.
    assert!(handle_message(
        &mut s,
        Owner::White,
        ClientMessage::Upgrade {
            unit_id: id,
            artillery_type: ArtilleryType::Cannon
        },
        &cfg,
        &mut ev
    )
    .is_ok());
    assert_eq!(s.units[&id].kind, UnitKind::Artillery);
    assert_eq!(s.units[&id].fire_cooldown, cfg.artillery_cooldown_ticks());

    // Upgrading artillery again — rejected.
    assert_eq!(
        handle_message(
            &mut s,
            Owner::White,
            ClientMessage::Upgrade {
                unit_id: id,
                artillery_type: ArtilleryType::Cannon
            },
            &cfg,
            &mut ev
        ),
        Err(CommandError::NotUpgradable(id))
    );
}

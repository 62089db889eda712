use haven_server::config::BoardConfig;
use haven_server::game_state::{GameState, Owner, Tile, UnitKind};

fn board() -> BoardConfig {
    BoardConfig::default()
}

#[test]
fn deployment_is_classic_chess() {
    let state = GameState::new(&board(), 2);
    assert_eq!(state.units.len(), 16);
    assert_eq!(state.alive_count(Owner::White), 8);
    assert_eq!(state.alive_count(Owner::Black), 8);
    // White pawns on rank 2 (y=1), black on rank 7 (y=6).
    let wp: Vec<u8> = state
        .units
        .values()
        .filter(|u| u.owner == Owner::White)
        .map(|u| u.pos.y)
        .collect();
    assert!(wp.iter().all(|&y| y == 1));
    let bp: Vec<u8> = state
        .units
        .values()
        .filter(|u| u.owner == Owner::Black)
        .map(|u| u.pos.y)
        .collect();
    assert!(bp.iter().all(|&y| y == 6));
}

#[test]
fn unit_at_and_is_free() {
    let state = GameState::new(&board(), 2);
    let a2 = Tile::new(0, 1);
    assert!(state.unit_at(a2).is_some());
    assert!(!state.is_free(a2));
    assert!(state.is_free(Tile::new(0, 3)));
    assert!(!state.is_free(Tile::new(9, 9))); // outside
}

#[test]
fn orthogonal_scan_respects_range_and_blockers() {
    let mut state = GameState::new(&board(), 2);
    // Grab the white pawn at d2 (x=3, y=1) and black pawn at d7 (x=3, y=6).
    let white = state
        .units
        .values()
        .find(|u| u.owner == Owner::White && u.pos == Tile::new(3, 1))
        .map(|u| u.id)
        .unwrap();
    let black = state
        .units
        .values()
        .find(|u| u.owner == Owner::Black && u.pos == Tile::new(3, 6))
        .map(|u| u.id)
        .unwrap();

    // Out of range: only 4 tiles of clearance between them.
    let hit = state.scan_orthogonal_target(Tile::new(3, 1), 4, Owner::White);
    assert!(hit.is_none());
    let hit = state.scan_orthogonal_target(Tile::new(3, 1), 5, Owner::White);
    assert_eq!(hit.map(|(id, _)| id), Some(black));

    // Friendly blocker stops the scan.
    let blocker = state.spawn_unit(UnitKind::Pawn, Owner::White, Tile::new(3, 3), 2);
    let hit = state.scan_orthogonal_target(Tile::new(3, 1), 8, Owner::White);
    assert!(hit.is_none(), "friendly unit must block LOS");
    let _ = blocker;
    let _ = white;
}

use haven_server::config::BoardConfig;
use haven_server::game_state::{
    ArtilleryType, GameState, MatchStatus, Owner, Tile, Unit, UnitKind, UnitState,
};

fn board(size: u8, pawn_row_depth: u8) -> BoardConfig {
    BoardConfig {
        size,
        pawn_row_depth,
    }
}

fn empty(size: u8) -> GameState {
    let mut s = GameState::new(&board(size, 1), 2);
    s.units.clear();
    s
}

#[test]
fn sides_and_names() {
    assert_eq!(Owner::White.opposite(), Owner::Black);
    assert_eq!(Owner::Black.opposite(), Owner::White);
    assert_eq!(Owner::White.opposite().opposite(), Owner::White);
    assert_eq!(Owner::White.name(), "white");
    assert_eq!(Owner::Black.name(), "black");
    assert_eq!(UnitKind::from(ArtilleryType::Cannon), UnitKind::Artillery);
}

#[test]
fn distance_is_a_metric() {
    let a = Tile::new(1, 2);
    let b = Tile::new(4, 7);
    let c = Tile::new(200, 3);
    assert_eq!(a.chebyshev(b), 5);
    assert_eq!(b.chebyshev(a), 5);
    assert_eq!(a.chebyshev(a), 0);
    assert_eq!(a.chebyshev(c), 199);
    assert!(a.chebyshev(c) as u32 <= a.chebyshev(b) as u32 + b.chebyshev(c) as u32);
    assert_eq!(Tile::new(0, 0).chebyshev(Tile::new(255, 255)), 255);
}

#[test]
fn offsets_stay_in_the_plane() {
    assert_eq!(Tile::new(3, 3).offset(-3, 252), Some(Tile::new(0, 255)));
    assert_eq!(Tile::new(3, 3).offset(-4, 0), None);
    assert_eq!(Tile::new(3, 3).offset(0, 253), None);
    assert_eq!(Tile::new(255, 0).offset(1, 0), None);
    assert_eq!(Tile::new(9, 9).offset(i32::MAX, 0), None);
    assert_eq!(Tile::new(9, 9).offset(i32::MIN, i32::MIN), None);
}

#[test]
fn king_directions_are_the_neighbours() {
    let centre = Tile::new(5, 5);
    let mut seen: Vec<Tile> = Vec::new();
    for (dx, dy) in Tile::KING_DIRS {
        let t = centre.offset(dx, dy).unwrap();
        assert_eq!(t.chebyshev(centre), 1);
        assert!(!seen.contains(&t));
        seen.push(t);
    }
    for x in 0..11 {
        for y in 0..11 {
            let t = Tile::new(x, y);
            assert_eq!(t.chebyshev(centre) == 1, seen.contains(&t));
        }
    }
    for dir in Tile::ORTHO_DIRS {
        assert!(Tile::KING_DIRS.contains(&dir));
    }
}

#[test]
fn deployment_of_several_rows() {
    let s = GameState::new(&board(10, 3), 5);
    assert_eq!(s.tick, 0);
    assert_eq!(s.status, MatchStatus::Lobby);
    assert_eq!(s.winner, None);
    assert!(s.end_reason.is_none());
    assert!(s.walls.is_empty());
    assert_eq!(s.board_size, 10);
    assert_eq!(s.alive_count(Owner::White), 30);
    assert_eq!(s.alive_count(Owner::Black), 30);
    for u in s.units.values() {
        match u.owner {
            Owner::White => assert!((1..=3).contains(&u.pos.y)),
            Owner::Black => assert!((6..=8).contains(&u.pos.y)),
        }
        assert_eq!((u.hp, u.max_hp), (5, 5));
        assert_eq!(u.kind, UnitKind::Pawn);
        assert_eq!(u.state, UnitState::Idle);
        assert_eq!(u.pending_move, None);
        assert_eq!(u.melee_target, None);
        assert_eq!((u.attack_cooldown, u.fire_cooldown), (0, 0));
    }
    // Ids run along the files, white before black.
    assert_eq!(s.units[&1].pos, Tile::new(0, 1));
    assert_eq!(s.units[&2].pos, Tile::new(0, 8));
    assert_eq!(s.units[&3].pos, Tile::new(1, 1));
    assert_eq!(s.units[&21].pos, Tile::new(0, 2));
    assert_eq!(s.next_unit_id, 61);
    // No two units share a tile.
    let mut tiles: Vec<Tile> = s.units.values().map(|u| u.pos).collect();
    tiles.sort();
    tiles.dedup();
    assert_eq!(tiles.len(), 60);
}

#[test]
fn the_fullest_boards_share_no_tile() {
    for (size, depth) in [(4, 1), (5, 1), (6, 2), (7, 2), (8, 3), (15, 6), (16, 7)] {
        let s = GameState::new(&board(size, depth), 2);
        let mut tiles: Vec<Tile> = s.units.values().map(|u| u.pos).collect();
        tiles.sort();
        tiles.dedup();
        assert_eq!(tiles.len(), s.units.len());
        assert_eq!(s.units.len(), 2 * size as usize * depth as usize);
    }
}

#[test]
fn the_lowest_id_on_a_tile_is_found() {
    let mut s = empty(8);
    let first = s.spawn_unit(UnitKind::Pawn, Owner::White, Tile::new(2, 2), 2);
    s.spawn_unit(UnitKind::Pawn, Owner::Black, Tile::new(2, 2), 2);
    assert_eq!(s.unit_at(Tile::new(2, 2)), Some(first));
    assert_eq!(s.unit_at(Tile::new(2, 3)), None);
}

#[test]
fn spawning_takes_the_next_id() {
    let mut s = empty(8);
    let next = s.next_unit_id;
    let id = s.spawn_unit(UnitKind::Artillery, Owner::Black, Tile::new(4, 4), 9);
    assert_eq!(id, next);
    assert_eq!(s.next_unit_id, next + 1);
    let u: &Unit = &s.units[&id];
    assert_eq!((u.id, u.hp, u.max_hp), (id, 9, 9));
    assert_eq!(u.owner, Owner::Black);
    assert_eq!(u.kind, UnitKind::Artillery);
}

#[test]
fn walls_block_tiles_and_sight() {
    let mut s = empty(8);
    let enemy = s.spawn_unit(UnitKind::Pawn, Owner::Black, Tile::new(3, 6), 2);
    assert_eq!(
        s.scan_orthogonal_target(Tile::new(3, 1), 8, Owner::White),
        Some((enemy, Tile::new(3, 6)))
    );
    s.walls.push(Tile::new(3, 4));
    assert!(s.has_wall(Tile::new(3, 4)));
    assert!(!s.is_free(Tile::new(3, 4)));
    assert!(s.is_free(Tile::new(3, 5)));
    assert_eq!(s.scan_orthogonal_target(Tile::new(3, 1), 8, Owner::White), None);
    // The wall does not hide the unit from the other sides.
    assert_eq!(
        s.scan_orthogonal_target(Tile::new(0, 6), 3, Owner::White),
        Some((enemy, Tile::new(3, 6)))
    );
}

#[test]
fn scans_look_down_then_up_then_left_then_right() {
    let mut s = empty(8);
    let from = Tile::new(4, 4);
    let right = s.spawn_unit(UnitKind::Pawn, Owner::Black, Tile::new(6, 4), 2);
    assert_eq!(s.scan_orthogonal_target(from, 8, Owner::White).unwrap().0, right);
    let left = s.spawn_unit(UnitKind::Pawn, Owner::Black, Tile::new(2, 4), 2);
    assert_eq!(s.scan_orthogonal_target(from, 8, Owner::White).unwrap().0, left);
    let up = s.spawn_unit(UnitKind::Pawn, Owner::Black, Tile::new(4, 7), 2);
    assert_eq!(s.scan_orthogonal_target(from, 8, Owner::White).unwrap().0, up);
    let down = s.spawn_unit(UnitKind::Pawn, Owner::Black, Tile::new(4, 1), 2);
    assert_eq!(s.scan_orthogonal_target(from, 8, Owner::White).unwrap().0, down);
    // A friend below only closes that direction.
    s.spawn_unit(UnitKind::Pawn, Owner::White, Tile::new(4, 2), 2);
    assert_eq!(s.scan_orthogonal_target(from, 8, Owner::White).unwrap().0, up);
    // Diagonals are never in sight, nor is anything at range zero.
    assert_eq!(s.scan_orthogonal_target(Tile::new(5, 5), 8, Owner::White), None);
    assert_eq!(s.scan_orthogonal_target(from, 0, Owner::White), None);
    assert_eq!(s.scan_orthogonal_target(from, 255, Owner::Black).unwrap().1, Tile::new(4, 2));
}

#[test]
fn states_are_copied_whole() {
    let mut s = GameState::new(&board(8, 1), 2);
    s.walls.push(Tile::new(1, 4));
    s.tick = 17;
    let t = s.clone();
    assert_eq!(format!("{s:?}"), format!("{t:?}"));
}

#[test]
fn life_ends_at_zero() {
    let mut s = GameState::new(&board(8, 1), 1);
    let mut u = s.units.remove(&1).unwrap();
    assert!(u.is_alive());
    u.hp = 0;
    assert!(!u.is_alive());
    u.hp = -3;
    assert!(!u.is_alive());
}

use haven_server::config::{BoardConfig, SimulationConfig};
use haven_server::double::Double;
use haven_server::game_state::{
    ArtilleryType, EndReason, GameState, MatchStatus, Owner, Tile, UnitId, UnitKind, UnitState,
};
use haven_server::input::{self, CommandError};
use haven_server::network::ClientMessage;
use haven_server::simulation::{tick, GameEvent};
use rand::rngs::StdRng;
use rand::SeedableRng;

fn cfg() -> SimulationConfig {
    SimulationConfig::default()
}

fn double(x: f64) -> Double {
    Double { bits: x.to_bits() }
}

/// The chance per tick that compounds to the configured chance per second.
fn per_tick(cfg: &SimulationConfig) -> Double {
    let p = f64::from_bits(cfg.move_probability_per_second.bits);
    double(1.0 - (1.0 - p).powf(1.0 / cfg.tick_rate as f64))
}

fn state() -> GameState {
    GameState::new(&BoardConfig::default(), 2)
}

fn unit_at(state: &GameState, owner: Owner, tile: Tile) -> UnitId {
    state
        .units
        .values()
        .find(|u| u.owner == owner && u.pos == tile)
        .map(|u| u.id)
        .unwrap_or_else(|| panic!("no {owner:?} unit at {:?}", tile))
}
fn activate(state: &mut GameState) {
    state.status = MatchStatus::Active;
}

/// Setup used by melee tests: white pawn d2 (3,1), black pawn d3 (3,2).
/// Diagonal white neighbours (c2, e2) are removed so d2 is the black
/// pawn's only possible lock partner.
fn melee_pair() -> (GameState, UnitId, UnitId) {
    let mut s = state();
    activate(&mut s);
    let w = unit_at(&s, Owner::White, Tile::new(3, 1));
    let b = unit_at(&s, Owner::Black, Tile::new(3, 6));
    s.units.get_mut(&b).unwrap().pos = Tile::new(3, 2); // d3, adjacent to d2
    for tile in [Tile::new(2, 1), Tile::new(4, 1)] {
        let id = unit_at(&s, Owner::White, tile);
        s.units.remove(&id);
    }
    (s, w, b)
}

#[test]
fn queued_move_resolves_eventually() {
    let mut s = state();
    activate(&mut s);
    let id = unit_at(&s, Owner::White, Tile::new(0, 1)); // a2
    let mut ev = vec![];
    input::handle_message(
        &mut s,
        Owner::White,
        ClientMessage::Move {
            unit_id: id,
            target: Tile::new(1, 2),
        }, // b3
        &cfg(),
        &mut ev,
    )
    .unwrap();
    assert_eq!(s.units[&id].pos, Tile::new(0, 1)); // not applied yet
    assert_eq!(s.units[&id].state, UnitState::Moving);

    let mut rng = StdRng::seed_from_u64(42);
    let mut resolved = false;
    for _ in 0..3000 {
        let events = tick(&mut s, &cfg(), per_tick(&cfg()), &mut rng);
        if events
            .iter()
            .any(|e| matches!(e, GameEvent::MoveResolved { unit, .. } if *unit == id))
        {
            resolved = true;
            break;
        }
    }
    assert!(resolved, "move must resolve within a few seconds of ticks");
    assert_eq!(s.units[&id].pos, Tile::new(1, 2));
    assert_eq!(s.units[&id].pending_move, None);
    assert_eq!(s.units[&id].state, UnitState::Idle);
}

#[test]
fn locked_units_never_move() {
    let (mut s, w, b) = melee_pair();
    // Queue a legal escape move, but make the dice nearly never resolve it.
    let mut c = cfg();
    c.move_probability_per_second = double(0.0001);
    let mut ev = vec![];
    input::handle_message(
        &mut s,
        Owner::White,
        ClientMessage::Move {
            unit_id: w,
            target: Tile::new(2, 1),
        },
        &c,
        &mut ev,
    )
    .unwrap();

    let mut rng = StdRng::seed_from_u64(7);
    for _ in 0..30 {
        tick(&mut s, &c, per_tick(&c), &mut rng);
    }
    // Adjacent enemies locked on tick 1; queued move was cancelled with the
    // lock; the unit never moved.
    let uw = &s.units[&w];
    assert_eq!(uw.state, UnitState::Locked);
    assert_eq!(uw.pos, Tile::new(3, 1));
    assert_eq!(uw.pending_move, None);
    assert_eq!(uw.melee_target, Some(b));
    let _ = b;
}

#[test]
fn melee_trade_kills_both_on_second_hit() {
    let (mut s, w, b) = melee_pair();
    let start_tick = s.tick;
    let mut rng = StdRng::seed_from_u64(11);
    let mut hits = 0;
    for _ in 0..500 {
        let events = tick(&mut s, &cfg(), per_tick(&cfg()), &mut rng);
        hits += events
            .iter()
            .filter(|e| matches!(e, GameEvent::MeleeHit { .. }))
            .count();
        if !s.units.contains_key(&w) {
            break;
        }
    }
    // 2 HP each + simultaneous damage = a clean 1-for-1 trade.
    assert!(!s.units.contains_key(&w), "white unit must die");
    assert!(!s.units.contains_key(&b), "black unit must die");
    assert!(hits >= 2, "2 HP means at least two hits landed, got {hits}");
    let elapsed = s.tick - start_tick;
    assert!(
        elapsed >= cfg().melee_cooldown_ticks() as u64 * 2,
        "two hits need at least two cooldowns, took {elapsed} ticks"
    );
    // The rest of the army is untouched; the match continues.
    assert_eq!(s.status, MatchStatus::Active);
    assert_eq!(s.alive_count(Owner::White), 5); // 8 minus setup(2) minus traded
    assert_eq!(s.alive_count(Owner::Black), 7); // 8 minus traded
}

#[test]
fn artillery_fires_and_kills_in_line_of_sight() {
    let mut s = state();
    activate(&mut s);
    let w = unit_at(&s, Owner::White, Tile::new(3, 1)); // d2 pawn
    let b = unit_at(&s, Owner::Black, Tile::new(3, 6)); // d7 pawn — same file
    let mut ev = vec![];
    input::handle_message(
        &mut s,
        Owner::White,
        ClientMessage::Upgrade {
            unit_id: w,
            artillery_type: ArtilleryType::Cannon,
        },
        &cfg(),
        &mut ev,
    )
    .unwrap();
    assert_eq!(s.units[&w].kind, UnitKind::Artillery);
    s.units.get_mut(&w).unwrap().fire_cooldown = 0; // shoot immediately

    let mut rng = StdRng::seed_from_u64(3);
    let mut shots = 0;
    for _ in 0..200 {
        let events = tick(&mut s, &cfg(), per_tick(&cfg()), &mut rng);
        shots += events
            .iter()
            .filter(|e| matches!(e, GameEvent::ArtilleryFired { .. }))
            .count();
        if !s.units.contains_key(&b) {
            break;
        }
    }
    assert!(
        shots >= 2,
        "artillery must fire repeatedly (damage 1, hp 2)"
    );
    assert!(!s.units.contains_key(&b), "target must die after two shots");
    // Artillery never moved.
    assert_eq!(s.units[&w].pos, Tile::new(3, 1));
}

#[test]
fn friendly_unit_blocks_artillery_line_of_sight() {
    let mut s = state();
    activate(&mut s);
    let w = unit_at(&s, Owner::White, Tile::new(3, 1));
    // Friendly blocker one tile in front of the artillery.
    let blocker = s.spawn_unit(UnitKind::Pawn, Owner::White, Tile::new(3, 3), 2);
    let b = unit_at(&s, Owner::Black, Tile::new(3, 6));
    input::handle_message(
        &mut s,
        Owner::White,
        ClientMessage::Upgrade {
            unit_id: w,
            artillery_type: ArtilleryType::Cannon,
        },
        &cfg(),
        &mut vec![],
    )
    .unwrap();
    s.units.get_mut(&w).unwrap().fire_cooldown = 0;

    let mut rng = StdRng::seed_from_u64(13);
    for _ in 0..120 {
        tick(&mut s, &cfg(), per_tick(&cfg()), &mut rng);
    }
    assert!(
        s.units.contains_key(&b),
        "friendly blocker must protect the target"
    );
    assert!(s.units.contains_key(&blocker));
    assert_eq!(s.units[&blocker].hp, 2);
}

#[test]
fn artillery_cannot_move() {
    let mut s = state();
    activate(&mut s);
    let w = unit_at(&s, Owner::White, Tile::new(3, 1));
    let c = cfg();
    input::handle_message(
        &mut s,
        Owner::White,
        ClientMessage::Upgrade {
            unit_id: w,
            artillery_type: ArtilleryType::Cannon,
        },
        &c,
        &mut vec![],
    )
    .unwrap();
    assert!(matches!(
        input::handle_message(
            &mut s,
            Owner::White,
            ClientMessage::Move {
                unit_id: w,
                target: Tile::new(4, 2)
            },
            &c,
            &mut vec![],
        ),
        Err(CommandError::NotMovable(_))
    ));
    let mut rng = StdRng::seed_from_u64(5);
    for _ in 0..100 {
        tick(&mut s, &c, per_tick(&c), &mut rng);
    }
    assert_eq!(s.units[&w].pos, Tile::new(3, 1));
}

#[test]
fn mutual_annihilation_ends_in_draw() {
    let mut s = GameState::new(&BoardConfig::default(), 1); // 1 HP units
    activate(&mut s);
    let w = unit_at(&s, Owner::White, Tile::new(3, 1));
    let b = unit_at(&s, Owner::Black, Tile::new(3, 6));
    // Keep only this pair.
    let ids: Vec<UnitId> = s.units.keys().copied().collect();
    for id in ids {
        if id != w && id != b {
            s.units.remove(&id);
        }
    }
    s.units.get_mut(&b).unwrap().pos = Tile::new(3, 2); // adjacent

    let mut rng = StdRng::seed_from_u64(99);
    for _ in 0..500 {
        tick(&mut s, &cfg(), per_tick(&cfg()), &mut rng);
        if s.status == MatchStatus::Finished {
            break;
        }
    }
    assert_eq!(s.status, MatchStatus::Finished);
    assert_eq!(s.winner, None);
    assert!(matches!(s.end_reason, Some(EndReason::MutualAnnihilation)));
}

#[test]
fn timeout_picks_the_side_with_more_units() {
    let mut s = state();
    activate(&mut s);
    let extra = unit_at(&s, Owner::Black, Tile::new(7, 6)); // h7
    s.units.remove(&extra);
    let mut c = cfg();
    c.match_timeout_secs = double(0.1); // 1 tick @ 10 Hz
    let mut rng = StdRng::seed_from_u64(1);
    tick(&mut s, &c, per_tick(&c), &mut rng);
    assert_eq!(s.status, MatchStatus::Finished);
    assert_eq!(s.winner, Some(Owner::White));
    assert!(matches!(s.end_reason, Some(EndReason::Timeout)));
}

#[test]
fn stale_target_gets_blocked_at_resolve_time() {
    let mut s = state();
    activate(&mut s);
    let a = unit_at(&s, Owner::White, Tile::new(0, 1)); // a2
    let other = unit_at(&s, Owner::White, Tile::new(1, 1)); // b2
    let mut ev = vec![];
    // Both queue the same tile b3.
    for id in [a, other] {
        input::handle_message(
            &mut s,
            Owner::White,
            ClientMessage::Move {
                unit_id: id,
                target: Tile::new(1, 2),
            },
            &cfg(),
            &mut ev,
        )
        .unwrap();
    }
    // Force both rolls to succeed on the same tick: probability 1.
    let mut c = cfg();
    c.move_probability_per_second = double(1.0);
    let mut rng = StdRng::seed_from_u64(23);
    let mut blocked = false;
    for _ in 0..5 {
        let events = tick(&mut s, &c, per_tick(&c), &mut rng);
        if events
            .iter()
            .any(|e| matches!(e, GameEvent::MoveBlocked { .. }))
        {
            blocked = true;
            break;
        }
    }
    assert!(
        blocked,
        "second arrival on an occupied tile must be blocked"
    );
}

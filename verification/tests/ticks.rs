use haven_server::config::{BoardConfig, SimulationConfig};
use haven_server::double::Double;
use haven_server::game_state::{
    EndReason, GameState, MatchStatus, Owner, Tile, UnitId, UnitKind, UnitState,
};
use haven_server::simulation::{
    cleanup_dead, moving_units, rolls_for_tick, tick, tick_with_rolls, try_tick,
    try_tick_with_rolls, GameEvent,
};
use rand::rngs::StdRng;
use rand::SeedableRng;

fn double(x: f64) -> Double {
    Double { bits: x.to_bits() }
}

fn half() -> Double {
    double(0.5)
}

/// Rolls that succeed and fail against a chance of one half.
const YES: u64 = 0;
const NO: u64 = u64::MAX;

fn field() -> GameState {
    let mut s = GameState::new(&BoardConfig::default(), 2);
    s.units.clear();
    s.status = MatchStatus::Active;
    s
}

fn pawn(s: &mut GameState, owner: Owner, x: u8, y: u8) -> UnitId {
    s.spawn_unit(UnitKind::Pawn, owner, Tile::new(x, y), 2)
}

/// A pawn for each side, far from everything.
fn bystanders(s: &mut GameState) {
    pawn(s, Owner::White, 0, 0);
    pawn(s, Owner::Black, 7, 7);
}

fn queue(s: &mut GameState, id: UnitId, x: u8, y: u8) {
    let u = s.units.get_mut(&id).unwrap();
    u.pending_move = Some(Tile::new(x, y));
    u.state = UnitState::Moving;
}

fn run(s: &mut GameState, cfg: &SimulationConfig, rolls: Vec<u64>) -> Vec<GameEvent> {
    assert_eq!(rolls_for_tick(s), rolls.len());
    tick_with_rolls(s, cfg, half(), &rolls)
}

#[test]
fn only_an_active_match_ticks() {
    let cfg = SimulationConfig::default();
    for status in [MatchStatus::Lobby, MatchStatus::Finished] {
        let mut s = field();
        bystanders(&mut s);
        queue(&mut s, 17, 0, 1);
        s.status = status;
        let before = format!("{s:?}");
        assert_eq!(rolls_for_tick(&s), 0);
        assert!(run(&mut s, &cfg, vec![]).is_empty());
        assert_eq!(format!("{s:?}"), before);
    }
}

#[test]
fn the_clock_advances_by_one() {
    let cfg = SimulationConfig::default();
    let mut s = field();
    bystanders(&mut s);
    let board = (s.board_size, s.next_unit_id);
    for n in 1..=5 {
        assert!(run(&mut s, &cfg, vec![]).is_empty());
        assert_eq!(s.tick, n);
    }
    assert_eq!((s.board_size, s.next_unit_id), board);
}

#[test]
fn dice_decide_each_move_in_id_order() {
    let cfg = SimulationConfig::default();
    let mut s = field();
    bystanders(&mut s);
    let a = pawn(&mut s, Owner::White, 2, 2);
    let b = pawn(&mut s, Owner::White, 4, 2);
    let c = pawn(&mut s, Owner::White, 6, 2);
    for id in [a, b, c] {
        let at = s.units[&id].pos;
        queue(&mut s, id, at.x, 3);
    }
    assert_eq!(moving_units(&s), vec![a, b, c]);
    let events = run(&mut s, &cfg, vec![YES, NO, YES]);
    assert_eq!(s.units[&a].pos, Tile::new(2, 3));
    assert_eq!(s.units[&b].pos, Tile::new(4, 2));
    assert_eq!(s.units[&b].pending_move, Some(Tile::new(4, 3)));
    assert_eq!(s.units[&b].state, UnitState::Moving);
    assert_eq!(s.units[&c].pos, Tile::new(6, 3));
    assert_eq!(s.units[&c].pending_move, None);
    assert!(matches!(
        events.as_slice(),
        [
            GameEvent::MoveResolved { unit: x, by: Owner::White, .. },
            GameEvent::MoveResolved { unit: y, .. }
        ] if *x == a && *y == c
    ));
}

#[test]
fn a_contested_tile_goes_to_the_lower_id() {
    let cfg = SimulationConfig::default();
    let mut s = field();
    bystanders(&mut s);
    let a = pawn(&mut s, Owner::White, 2, 2);
    let b = pawn(&mut s, Owner::White, 4, 2);
    queue(&mut s, a, 3, 3);
    queue(&mut s, b, 3, 3);
    let events = run(&mut s, &cfg, vec![YES, YES]);
    assert_eq!(s.units[&a].pos, Tile::new(3, 3));
    assert_eq!(s.units[&b].pos, Tile::new(4, 2));
    assert_eq!(s.units[&b].state, UnitState::Idle);
    assert_eq!(s.units[&b].pending_move, None);
    match &events[1] {
        GameEvent::MoveBlocked { unit, by, to, reason } => {
            assert_eq!((*unit, *by, *to), (b, Owner::White, Tile::new(3, 3)));
            assert_eq!(reason, "target occupied");
        }
        other => panic!("unexpected {other:?}"),
    }
}

#[test]
fn stale_orders_out_of_range_or_into_walls_are_dropped() {
    let cfg = SimulationConfig::default();
    let mut s = field();
    bystanders(&mut s);
    let a = pawn(&mut s, Owner::White, 2, 2);
    let b = pawn(&mut s, Owner::White, 4, 2);
    queue(&mut s, a, 2, 5);
    queue(&mut s, b, 4, 3);
    s.walls.push(Tile::new(4, 3));
    let events = run(&mut s, &cfg, vec![YES, YES]);
    assert_eq!(events.len(), 2);
    assert!(events.iter().all(|e| matches!(e, GameEvent::MoveBlocked { .. })));
    assert_eq!(s.units[&a].pos, Tile::new(2, 2));
    assert_eq!(s.units[&b].pos, Tile::new(4, 2));
}

#[test]
fn artillery_and_locked_units_do_not_roll() {
    let mut s = field();
    bystanders(&mut s);
    let a = pawn(&mut s, Owner::White, 2, 2);
    let b = pawn(&mut s, Owner::White, 4, 2);
    queue(&mut s, a, 2, 3);
    queue(&mut s, b, 4, 3);
    s.units.get_mut(&a).unwrap().kind = UnitKind::Artillery;
    s.units.get_mut(&b).unwrap().state = UnitState::Locked;
    assert!(moving_units(&s).is_empty());
    assert_eq!(rolls_for_tick(&s), 0);
}

#[test]
fn locks_are_mutual_and_pair_each_unit_once() {
    let cfg = SimulationConfig::default();
    let mut s = field();
    bystanders(&mut s);
    let w1 = pawn(&mut s, Owner::White, 3, 3);
    let b1 = pawn(&mut s, Owner::Black, 3, 4);
    let b2 = pawn(&mut s, Owner::Black, 4, 4);
    let w2 = pawn(&mut s, Owner::White, 5, 4);
    queue(&mut s, b2, 4, 5);
    let events = run(&mut s, &cfg, vec![NO]);
    assert!(matches!(
        events.as_slice(),
        [GameEvent::MeleeLocked { a, b }, GameEvent::MeleeLocked { a: c, b: d }]
            if (*a, *b, *c, *d) == (w1, b1, b2, w2)
    ));
    for (x, y) in [(w1, b1), (b1, w1), (b2, w2), (w2, b2)] {
        let u = &s.units[&x];
        assert_eq!(u.state, UnitState::Locked);
        assert_eq!(u.melee_target, Some(y));
        assert_eq!(u.pending_move, None);
        // Locked with the full cooldown, of which this tick took one.
        assert_eq!(u.attack_cooldown, 19);
    }
}

#[test]
fn blows_fall_when_the_cooldown_has_run_out() {
    let cfg = SimulationConfig::default();
    let mut s = field();
    bystanders(&mut s);
    let w = pawn(&mut s, Owner::White, 3, 3);
    let b = pawn(&mut s, Owner::Black, 3, 4);
    // The tick of the lock is the first of the twenty.
    for _ in 0..19 {
        let events = run(&mut s, &cfg, vec![]);
        assert!(!events.iter().any(|e| matches!(e, GameEvent::MeleeHit { .. })));
    }
    assert_eq!(s.units[&w].attack_cooldown, 1);
    let events = run(&mut s, &cfg, vec![]);
    assert!(matches!(
        events.as_slice(),
        [
            GameEvent::MeleeHit { attacker: a1, defender: d1, damage: 1, hp_left: 1 },
            GameEvent::MeleeHit { attacker: a2, defender: d2, damage: 1, hp_left: 1 }
        ] if (*a1, *d1, *a2, *d2) == (w, b, b, w)
    ));
    assert_eq!(s.units[&w].attack_cooldown, 20);
    assert_eq!((s.units[&w].hp, s.units[&b].hp), (1, 1));
    // The second blow takes both, even though one falls first.
    for _ in 0..19 {
        assert!(run(&mut s, &cfg, vec![]).is_empty());
    }
    let events = run(&mut s, &cfg, vec![]);
    assert_eq!(s.tick, 40);
    assert_eq!(events.len(), 4);
    assert!(matches!(&events[2], GameEvent::UnitDied { unit, owner: Owner::White, at }
        if *unit == w && *at == Tile::new(3, 3)));
    assert!(matches!(&events[3], GameEvent::UnitDied { unit, owner: Owner::Black, .. }
        if *unit == b));
    assert!(!s.units.contains_key(&w));
    assert!(!s.units.contains_key(&b));
    assert_eq!(s.status, MatchStatus::Active);
}

#[test]
fn a_swing_at_nobody_leaves_the_cooldown_at_zero() {
    for (before, after) in [(0, 0), (1, 0), (2, 1), (5, 4)] {
        let mut s = field();
        bystanders(&mut s);
        let a = pawn(&mut s, Owner::White, 3, 3);
        let u = s.units.get_mut(&a).unwrap();
        u.state = UnitState::Locked;
        u.melee_target = Some(99);
        u.attack_cooldown = before;
        assert!(run(&mut s, &SimulationConfig::default(), vec![]).is_empty());
        assert_eq!(s.units[&a].attack_cooldown, after);
        assert_eq!(s.units[&a].state, UnitState::Locked);
        assert_eq!(s.units[&a].melee_target, Some(99));
    }
}

#[test]
fn the_cleanup_buries_the_fallen_and_frees_their_opponents() {
    let mut s = field();
    let a = pawn(&mut s, Owner::White, 3, 3);
    let b = pawn(&mut s, Owner::Black, 3, 4);
    let c = pawn(&mut s, Owner::White, 0, 0);
    for (x, y) in [(a, b), (b, a)] {
        let u = s.units.get_mut(&x).unwrap();
        u.state = UnitState::Locked;
        u.melee_target = Some(y);
        u.attack_cooldown = 7;
    }
    s.units.get_mut(&b).unwrap().hp = -1;
    s.units.get_mut(&c).unwrap().hp = 0;
    let mut events: Vec<GameEvent> = Vec::new();
    cleanup_dead(&mut s, &mut events);
    assert!(matches!(
        events.as_slice(),
        [
            GameEvent::UnitDied { unit: x, owner: Owner::Black, .. },
            GameEvent::UnitDied { unit: y, owner: Owner::White, .. },
        ] if *x == b && *y == c
    ));
    assert_eq!(s.units.keys().copied().collect::<Vec<UnitId>>(), vec![a]);
    let u = s.units[&a];
    assert_eq!((u.state, u.melee_target, u.attack_cooldown), (UnitState::Idle, None, 0));
    let once = format!("{s:?}");
    cleanup_dead(&mut s, &mut events);
    assert_eq!(events.len(), 2);
    assert_eq!(format!("{s:?}"), once);
}

#[test]
fn a_death_frees_the_opponent() {
    let cfg = SimulationConfig::default();
    let mut s = field();
    bystanders(&mut s);
    let w = pawn(&mut s, Owner::White, 3, 3);
    let b = pawn(&mut s, Owner::Black, 3, 4);
    run(&mut s, &cfg, vec![]);
    s.units.get_mut(&b).unwrap().hp = 0;
    let events = run(&mut s, &cfg, vec![]);
    assert!(matches!(events.as_slice(), [GameEvent::UnitDied { unit, .. }] if *unit == b));
    let u = &s.units[&w];
    assert_eq!(u.state, UnitState::Idle);
    assert_eq!(u.melee_target, None);
    assert_eq!(u.attack_cooldown, 0);
}

#[test]
fn guns_load_fire_and_reload() {
    let cfg = SimulationConfig::default();
    let mut s = field();
    bystanders(&mut s);
    let gun = s.spawn_unit(UnitKind::Artillery, Owner::White, Tile::new(3, 1), 2);
    let target = pawn(&mut s, Owner::Black, 3, 6);
    s.units.get_mut(&gun).unwrap().fire_cooldown = 2;
    assert!(run(&mut s, &cfg, vec![]).is_empty());
    assert_eq!(s.units[&gun].fire_cooldown, 1);
    let events = run(&mut s, &cfg, vec![]);
    match events.as_slice() {
        [GameEvent::ArtilleryFired { unit, from, to, target: t, damage }] => {
            assert_eq!((*unit, *t, *damage), (gun, target, 1));
            assert_eq!((*from, *to), (Tile::new(3, 1), Tile::new(3, 6)));
        }
        other => panic!("unexpected {other:?}"),
    }
    assert_eq!(s.units[&target].hp, 1);
    assert_eq!(s.units[&gun].fire_cooldown, 30);
    // Without an enemy in sight a loaded gun waits at zero.
    s.units.get_mut(&gun).unwrap().fire_cooldown = 1;
    s.units.get_mut(&target).unwrap().pos = Tile::new(4, 6);
    for _ in 0..3 {
        assert!(run(&mut s, &cfg, vec![]).is_empty());
        assert_eq!(s.units[&gun].fire_cooldown, 0);
    }
    s.units.get_mut(&target).unwrap().pos = Tile::new(3, 6);
    // The second shot takes the target's last health.
    assert!(matches!(
        run(&mut s, &cfg, vec![]).as_slice(),
        [GameEvent::ArtilleryFired { .. }, GameEvent::UnitDied { unit, .. }] if *unit == target
    ));
}

#[test]
fn a_grappled_gun_does_not_fire() {
    let cfg = SimulationConfig::default();
    let mut s = field();
    bystanders(&mut s);
    let gun = s.spawn_unit(UnitKind::Artillery, Owner::White, Tile::new(3, 1), 2);
    pawn(&mut s, Owner::Black, 4, 2);
    pawn(&mut s, Owner::Black, 3, 6);
    let events = run(&mut s, &cfg, vec![]);
    assert!(matches!(events.as_slice(), [GameEvent::MeleeLocked { .. }]));
    assert_eq!(s.units[&gun].state, UnitState::Locked);
}

#[test]
fn events_account_for_all_damage() {
    let mut cfg = SimulationConfig::default();
    cfg.melee_cooldown_secs = double(0.1);
    cfg.artillery_cooldown_secs = double(0.2);
    cfg.melee_damage = 3;
    cfg.artillery_damage = 2;
    cfg.pawn_move_range = 2;
    let mut s = GameState::new(
        &BoardConfig {
            size: 8,
            pawn_row_depth: 2,
        },
        20,
    );
    s.status = MatchStatus::Active;
    for (i, id) in (1..=32).enumerate() {
        let u = s.units.get_mut(&id).unwrap();
        if i % 3 == 0 {
            u.kind = UnitKind::Artillery;
        }
    }
    let mut rng = StdRng::seed_from_u64(1);
    for round in 0..60 {
        for id in s.units.keys().copied().collect::<Vec<_>>() {
            let u = s.units.get_mut(&id).unwrap();
            if u.kind == UnitKind::Pawn && u.state == UnitState::Idle {
                let y = if u.owner == Owner::White {
                    u.pos.y.saturating_add(1)
                } else {
                    u.pos.y.saturating_sub(1)
                };
                u.pending_move = Some(Tile::new(u.pos.x, y));
                u.state = UnitState::Moving;
            }
        }
        let before = s.clone();
        let Some(events) = try_tick(&mut s, &cfg, half(), &mut rng) else {
            panic!("round {round} does not fit")
        };
        if before.status != MatchStatus::Active {
            assert!(events.is_empty());
            continue;
        }
        let mut dead: Vec<UnitId> = Vec::new();
        for e in &events {
            if let GameEvent::UnitDied { unit, .. } = e {
                dead.push(*unit);
            }
        }
        for (id, u) in &before.units {
            let lost: i32 = events
                .iter()
                .map(|e| match e {
                    GameEvent::MeleeHit { defender, damage, .. } if defender == id => *damage,
                    GameEvent::ArtilleryFired { target, damage, .. } if target == id => *damage,
                    _ => 0,
                })
                .sum();
            match s.units.get(id) {
                Some(v) => {
                    assert!(v.hp > 0);
                    assert_eq!(v.hp, u.hp - lost);
                    assert!(!dead.contains(id));
                    assert_eq!((v.id, v.owner, v.kind), (u.id, u.owner, u.kind));
                    if v.pos != u.pos {
                        assert_eq!(u.kind, UnitKind::Pawn);
                        assert_ne!(u.state, UnitState::Locked);
                        assert_eq!(u.pending_move, Some(v.pos));
                    }
                    if v.state == UnitState::Moving {
                        assert!(v.pending_move.is_some());
                    }
                    if v.state == UnitState::Locked {
                        assert!(v.melee_target.is_some());
                    }
                }
                None => {
                    assert!(u.hp - lost <= 0);
                    assert!(dead.contains(id));
                }
            }
        }
        let mut tiles: Vec<Tile> = s.units.values().map(|u| u.pos).collect();
        tiles.sort();
        tiles.dedup();
        assert_eq!(tiles.len(), s.units.len());
    }
    assert!(s.units.len() < 32);
}

#[test]
fn the_last_side_standing_wins() {
    let cfg = SimulationConfig::default();
    let mut s = field();
    pawn(&mut s, Owner::Black, 7, 7);
    let w = pawn(&mut s, Owner::White, 0, 0);
    s.units.get_mut(&w).unwrap().hp = 0;
    let events = run(&mut s, &cfg, vec![]);
    assert_eq!(s.status, MatchStatus::Finished);
    assert_eq!(s.winner, Some(Owner::Black));
    assert_eq!(s.end_reason, Some(EndReason::Annihilation));
    assert!(matches!(
        events.last(),
        Some(GameEvent::MatchOver {
            winner: Some(Owner::Black),
            reason: EndReason::Annihilation
        })
    ));
}

#[test]
fn time_runs_out_at_the_timeout() {
    let mut cfg = SimulationConfig::default();
    cfg.match_timeout_secs = double(0.3); // 3 ticks @ 10 Hz
    let mut s = field();
    bystanders(&mut s);
    for _ in 0..2 {
        run(&mut s, &cfg, vec![]);
        assert_eq!(s.status, MatchStatus::Active);
        assert!(s.end_reason.is_none());
    }
    let events = run(&mut s, &cfg, vec![]);
    assert_eq!(s.status, MatchStatus::Finished);
    assert_eq!(s.winner, None);
    assert_eq!(s.end_reason, Some(EndReason::Draw));
    assert_eq!(events.len(), 1);

    let mut s = field();
    bystanders(&mut s);
    pawn(&mut s, Owner::Black, 5, 5);
    s.tick = 2;
    run(&mut s, &cfg, vec![]);
    assert_eq!(s.winner, Some(Owner::Black));
    assert_eq!(s.end_reason, Some(EndReason::Timeout));
}

#[test]
fn numbers_that_leave_their_range_stop_the_tick() {
    let mut cfg = SimulationConfig::default();
    cfg.artillery_damage = i32::MAX;
    let mut s = field();
    bystanders(&mut s);
    s.spawn_unit(UnitKind::Artillery, Owner::White, Tile::new(3, 0), 2);
    s.spawn_unit(UnitKind::Artillery, Owner::White, Tile::new(0, 3), 2);
    pawn(&mut s, Owner::Black, 3, 3);
    let before = format!("{s:?}");
    // The second shot would leave the range of health.
    assert!(try_tick_with_rolls(&mut s, &cfg, half(), &vec![]).is_none());
    assert_eq!(format!("{s:?}"), before);
    let mut rng = StdRng::seed_from_u64(1);
    assert!(try_tick(&mut s, &cfg, half(), &mut rng).is_none());
    assert_eq!(format!("{s:?}"), before);
    cfg.artillery_damage = 1 << 29;
    assert_eq!(
        try_tick_with_rolls(&mut s, &cfg, half(), &vec![]).map(|events| events.len()),
        Some(3)
    );

    let mut s = field();
    bystanders(&mut s);
    s.tick = u64::MAX;
    assert!(try_tick_with_rolls(&mut s, &cfg, half(), &vec![]).is_none());
    assert_eq!(s.tick, u64::MAX);
}

#[test]
fn no_two_adjacent_enemies_stay_free() {
    let cfg = SimulationConfig::default();
    let mut s = field();
    for (i, (x, y)) in [(2, 2), (3, 2), (4, 2), (2, 3), (3, 3), (4, 3), (6, 6), (6, 7)]
        .into_iter()
        .enumerate()
    {
        let owner = if i % 2 == 0 { Owner::White } else { Owner::Black };
        pawn(&mut s, owner, x, y);
    }
    run(&mut s, &cfg, vec![]);
    for u in s.units.values() {
        for v in s.units.values() {
            if u.owner != v.owner && u.pos.chebyshev(v.pos) == 1 {
                assert!(u.state == UnitState::Locked || v.state == UnitState::Locked);
            }
        }
    }
}

#[test]
fn a_fight_is_not_left_for_another() {
    let cfg = SimulationConfig::default();
    let mut s = field();
    bystanders(&mut s);
    let w = pawn(&mut s, Owner::White, 3, 3);
    let b = pawn(&mut s, Owner::Black, 3, 4);
    run(&mut s, &cfg, vec![]);
    // A third unit steps up to the fight.
    let late = pawn(&mut s, Owner::Black, 4, 3);
    let events = run(&mut s, &cfg, vec![]);
    assert!(events.is_empty());
    assert_eq!(s.units[&w].melee_target, Some(b));
    assert_eq!(s.units[&b].melee_target, Some(w));
    assert_eq!(s.units[&w].attack_cooldown, 18);
    assert_eq!(s.units[&late].state, UnitState::Idle);
    // It gets its turn once the fight is over.
    s.units.get_mut(&b).unwrap().hp = 0;
    run(&mut s, &cfg, vec![]);
    assert_eq!(s.units[&w].state, UnitState::Idle);
    run(&mut s, &cfg, vec![]);
    assert_eq!(s.units[&w].melee_target, Some(late));
    assert_eq!(s.units[&late].melee_target, Some(w));
}

/// The ticks in which a fight of two hardy pawns sees hits by the first.
fn hit_ticks(tick_rate: u32, secs: f64, until: u64) -> Vec<u64> {
    let mut cfg = SimulationConfig::default();
    cfg.tick_rate = tick_rate;
    cfg.melee_cooldown_secs = double(secs);
    let mut s = field();
    let w = s.spawn_unit(UnitKind::Pawn, Owner::White, Tile::new(3, 3), 1000);
    s.spawn_unit(UnitKind::Pawn, Owner::Black, Tile::new(3, 4), 1000);
    let mut at = Vec::new();
    while s.tick < until {
        let events = run(&mut s, &cfg, vec![]);
        if events
            .iter()
            .any(|e| matches!(e, GameEvent::MeleeHit { attacker, .. } if *attacker == w))
        {
            at.push(s.tick);
        }
    }
    at
}

#[test]
fn hits_are_a_cooldown_apart() {
    assert_eq!(hit_ticks(1, 1.0, 4), vec![1, 2, 3, 4]);
    assert_eq!(hit_ticks(10, 2.0, 80), vec![20, 40, 60, 80]);
    assert_eq!(hit_ticks(30, 0.1, 12), vec![3, 6, 9, 12]);
}

#[test]
fn shots_are_a_cooldown_apart() {
    let cfg = SimulationConfig::default();
    let mut s = field();
    bystanders(&mut s);
    s.spawn_unit(UnitKind::Artillery, Owner::White, Tile::new(3, 1), 2);
    s.spawn_unit(UnitKind::Pawn, Owner::Black, Tile::new(3, 6), 1000);
    let mut at = Vec::new();
    for _ in 0..100 {
        if !run(&mut s, &cfg, vec![]).is_empty() {
            at.push(s.tick);
        }
    }
    assert_eq!(at, vec![1, 31, 61, 91]);
}

#[test]
fn nothing_is_drawn_where_nothing_is_rolled_for() {
    let cfg = SimulationConfig::default();
    let mut rng = StdRng::seed_from_u64(3);
    let fresh = StdRng::seed_from_u64(3);
    let mut s = field();
    bystanders(&mut s);
    tick(&mut s, &cfg, half(), &mut rng);
    assert_eq!(rng, fresh);
    queue(&mut s, 17, 0, 1);
    for status in [MatchStatus::Lobby, MatchStatus::Finished] {
        s.status = status;
        assert!(tick(&mut s, &cfg, half(), &mut rng).is_empty());
        assert!(try_tick(&mut s, &cfg, half(), &mut rng).unwrap().is_empty());
        assert_eq!(rng, fresh);
    }
    s.status = MatchStatus::Active;
    tick(&mut s, &cfg, half(), &mut rng);
    assert_ne!(rng, fresh);
}

fn phase(e: &GameEvent) -> u8 {
    match e {
        GameEvent::MoveResolved { .. } | GameEvent::MoveBlocked { .. } => 2,
        GameEvent::MeleeLocked { .. } => 3,
        GameEvent::MeleeHit { .. } => 4,
        GameEvent::ArtilleryFired { .. } => 5,
        GameEvent::UnitDied { .. } => 6,
        GameEvent::MatchOver { .. } => 7,
        other => panic!("unexpected {other:?}"),
    }
}

#[test]
fn events_come_in_phase_order() {
    let mut cfg = SimulationConfig::default();
    cfg.melee_cooldown_secs = double(0.1);
    let mut s = field();
    let mover = pawn(&mut s, Owner::White, 0, 0);
    queue(&mut s, mover, 0, 1);
    s.spawn_unit(UnitKind::Pawn, Owner::White, Tile::new(5, 5), 1);
    s.spawn_unit(UnitKind::Pawn, Owner::Black, Tile::new(5, 6), 1);
    s.spawn_unit(UnitKind::Artillery, Owner::White, Tile::new(0, 3), 2);
    s.spawn_unit(UnitKind::Pawn, Owner::Black, Tile::new(3, 3), 1);
    let events = run(&mut s, &cfg, vec![YES]);
    let phases: Vec<u8> = events.iter().map(phase).collect();
    assert_eq!(phases, vec![2, 3, 4, 4, 5, 6, 6, 6, 7]);
    assert_eq!(s.status, MatchStatus::Finished);
    assert_eq!(s.winner, Some(Owner::White));
    // The next tick finds nobody left to bury.
    assert!(run(&mut s, &cfg, vec![]).is_empty());
}

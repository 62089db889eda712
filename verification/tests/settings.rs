use haven_server::config::{BroadcastMode, Config};
use haven_server::double::Double;

fn double(x: f64) -> Double {
    Double { bits: x.to_bits() }
}

fn complaint(change: fn(&mut Config)) -> String {
    let mut cfg = Config::default();
    change(&mut cfg);
    cfg.validate().expect_err("must be refused")
}

fn accepted(change: fn(&mut Config)) {
    let mut cfg = Config::default();
    change(&mut cfg);
    cfg.validate().expect("must be accepted");
}

#[test]
fn default_values() {
    let cfg = Config::default();
    assert_eq!(cfg.server.host, "0.0.0.0");
    assert_eq!(cfg.server.port, 8080);
    assert_eq!(cfg.server.max_matches, 64);
    assert_eq!((cfg.board.size, cfg.board.pawn_row_depth), (8, 1));
    let sim = cfg.simulation;
    assert_eq!(sim.tick_rate, 10);
    assert_eq!(sim.move_probability_per_second, double(0.30));
    assert_eq!(sim.pawn_move_range, 1);
    assert_eq!((sim.unit_hp, sim.melee_damage, sim.artillery_damage), (2, 1, 1));
    assert_eq!(sim.melee_cooldown_secs, double(2.0));
    assert_eq!(sim.artillery_range, 8);
    assert_eq!(sim.artillery_cooldown_secs, double(3.0));
    assert_eq!(sim.match_timeout_secs, double(300.0));
    assert_eq!(sim.broadcast_mode, BroadcastMode::Snapshot);
    assert_eq!(cfg.lifecycle.lobby_ttl_secs, double(600.0));
    assert_eq!(cfg.lifecycle.finished_ttl_secs, double(300.0));
    let copy = cfg.clone();
    assert_eq!(format!("{cfg:?}"), format!("{copy:?}"));
}

#[test]
fn each_range_is_checked() {
    let rate = "simulation.tick_rate must be 1..=240";
    assert_eq!(complaint(|c| c.simulation.tick_rate = 0), rate);
    assert_eq!(complaint(|c| c.simulation.tick_rate = 241), rate);
    accepted(|c| c.simulation.tick_rate = 240);

    let chance = "simulation.move_probability_per_second must be in (0, 1]";
    assert_eq!(complaint(|c| c.simulation.move_probability_per_second = double(0.0)), chance);
    assert_eq!(complaint(|c| c.simulation.move_probability_per_second = double(-0.5)), chance);
    assert_eq!(complaint(|c| c.simulation.move_probability_per_second = double(1.1)), chance);
    assert_eq!(complaint(|c| c.simulation.move_probability_per_second = double(f64::NAN)), chance);
    accepted(|c| c.simulation.move_probability_per_second = double(1.0));
    accepted(|c| c.simulation.move_probability_per_second = double(5e-324));

    assert_eq!(
        complaint(|c| c.simulation.pawn_move_range = 0),
        "simulation.pawn_move_range must be >= 1"
    );

    let positive = "hp and damage values must be positive";
    assert_eq!(complaint(|c| c.simulation.unit_hp = 0), positive);
    assert_eq!(complaint(|c| c.simulation.melee_damage = -1), positive);
    assert_eq!(complaint(|c| c.simulation.artillery_damage = 0), positive);

    let cooldowns = "cooldowns must be positive";
    assert_eq!(complaint(|c| c.simulation.melee_cooldown_secs = double(0.0)), cooldowns);
    assert_eq!(complaint(|c| c.simulation.artillery_cooldown_secs = double(-2.0)), cooldowns);
    accepted(|c| c.simulation.melee_cooldown_secs = double(f64::NAN));

    let range = "simulation.artillery_range must be within 1..=board.size";
    assert_eq!(complaint(|c| c.simulation.artillery_range = 0), range);
    assert_eq!(complaint(|c| c.simulation.artillery_range = 9), range);

    assert_eq!(
        complaint(|c| c.simulation.match_timeout_secs = double(-0.0)),
        "simulation.match_timeout_secs must be positive"
    );

    let size = "board.size must be 4..=16";
    assert_eq!(complaint(|c| c.board.size = 17), size);
    assert_eq!(
        complaint(|c| {
            c.board.size = 3;
            c.simulation.artillery_range = 3;
        }),
        size
    );
    accepted(|c| c.board.size = 16);

    let rows = "board.pawn_row_depth must leave at least one empty row per side";
    assert_eq!(complaint(|c| c.board.pawn_row_depth = 0), rows);
    assert_eq!(complaint(|c| c.board.pawn_row_depth = 4), rows);
    assert_eq!(complaint(|c| c.board.pawn_row_depth = 128), rows);
    assert_eq!(complaint(|c| c.board.pawn_row_depth = 255), rows);
    accepted(|c| c.board.pawn_row_depth = 3);
    // On an odd board a single empty row is not one per side.
    assert_eq!(
        complaint(|c| {
            c.board.size = 5;
            c.board.pawn_row_depth = 2;
            c.simulation.artillery_range = 5;
        }),
        rows
    );
    accepted(|c| {
        c.board.size = 5;
        c.simulation.artillery_range = 5;
    });

    assert_eq!(
        complaint(|c| c.server.max_matches = 0),
        "server.max_matches must be >= 1"
    );
}

#[test]
fn the_first_complaint_wins() {
    assert_eq!(
        complaint(|c| {
            c.server.max_matches = 0;
            c.board.size = 40;
            c.simulation.unit_hp = -1;
        }),
        "hp and damage values must be positive"
    );
}

#[test]
fn derived_tick_counts() {
    let mut cfg = Config::default();
    cfg.simulation.tick_rate = 30;
    cfg.simulation.melee_cooldown_secs = double(0.25);
    cfg.simulation.artillery_cooldown_secs = double(0.001);
    cfg.simulation.match_timeout_secs = double(1e12);
    assert_eq!(cfg.simulation.melee_cooldown_ticks(), 8); // 7.5 rounds up
    assert_eq!(cfg.simulation.artillery_cooldown_ticks(), 1); // at least one
    assert_eq!(cfg.simulation.match_timeout_ticks(), u32::MAX as u64);
}

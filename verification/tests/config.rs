use haven_server::config::{Config, SimulationConfig};

#[test]
fn defaults_are_valid() {
    Config::default()
        .validate()
        .expect("default config must validate");
}

#[test]
fn cooldown_conversions() {
    let cfg = SimulationConfig::default();
    assert_eq!(cfg.melee_cooldown_ticks(), 20); // 2.0s @ 10Hz
    assert_eq!(cfg.artillery_cooldown_ticks(), 30); // 3.0s @ 10Hz
    assert_eq!(cfg.match_timeout_ticks(), 3000); // 300s @ 10Hz
}

//! Server, board and simulation configuration.
//!
//! Every value has a sensible default. Durations and probabilities are
//! double-precision numbers, held by their bit pattern.

use crate::double::Double;
use vstd::prelude::*;

verus! {

/// Everything a server is set up with.
#[derive(Debug)]
pub struct Config {
    pub server: ServerConfig,
    pub board: BoardConfig,
    pub simulation: SimulationConfig,
    pub lifecycle: LifecycleConfig,
}

#[derive(Debug)]
pub struct ServerConfig {
    pub host: String,
    pub port: u16,
    /// Maximum number of concurrently live matches (memory guard).
    pub max_matches: usize,
}

/// Size of the board and depth of the starting rows.
#[derive(Debug, Clone, Copy, PartialEq, Eq, Structural)]
pub struct BoardConfig {
    /// Board is `size x size` tiles.
    pub size: u8,
    /// How many pawn rows each side starts with (1 => classic chess placement).
    pub pawn_row_depth: u8,
}

#[derive(Debug, Clone, Copy, PartialEq, Eq, Structural)]
pub struct SimulationConfig {
    /// Ticks per second for the fixed-timestep simulation loop.
    pub tick_rate: u32,
    /// Chance per second that a queued move resolves.
    pub move_probability_per_second: Double,
    /// Pawn step range in tiles (Chebyshev distance).
    pub pawn_move_range: u8,
    /// Unit health. With `melee_damage = 1` and `unit_hp = 2` a unit dies on
    /// the second hit.
    pub unit_hp: i32,
    /// Melee damage dealt per hit.
    pub melee_damage: i32,
    /// Seconds between melee hits.
    pub melee_cooldown_secs: Double,
    /// Artillery: straight-line firing range in tiles.
    pub artillery_range: u8,
    /// Artillery damage per shot.
    pub artillery_damage: i32,
    /// Seconds between artillery shots.
    pub artillery_cooldown_secs: Double,
    /// Match hard timeout in seconds. On timeout the side with more units alive
    /// wins; equal counts draw.
    pub match_timeout_secs: Double,
    /// What each tick sends to the clients.
    pub broadcast_mode: BroadcastMode,
}

#[derive(Debug, Clone, Copy, PartialEq, Eq, Structural)]
pub enum BroadcastMode {
    /// The full state each tick.
    Snapshot,
    /// Only the units that changed, or that the tick's events are about.
    Delta,
}

#[derive(Debug, Clone, Copy, PartialEq, Eq, Structural)]
pub struct LifecycleConfig {
    /// Unstarted lobby matches older than this are garbage collected.
    pub lobby_ttl_secs: Double,
    /// Finished matches are removed this long after they end.
    pub finished_ttl_secs: Double,
}

/// What a `Config` holds.
#[verifier::ext_equal]
pub struct ConfigView {
    pub host: Seq<char>,
    pub port: u16,
    pub max_matches: usize,
    pub board: BoardConfig,
    pub simulation: SimulationConfig,
    pub lifecycle: LifecycleConfig,
}

impl View for Config {
    type V = ConfigView;

    open spec fn view(&self) -> ConfigView {
        ConfigView {
            host: self.server.host@,
            port: self.server.port,
            max_matches: self.server.max_matches,
            board: self.board,
            simulation: self.simulation,
            lifecycle: self.lifecycle,
        }
    }
}

impl Clone for ServerConfig {
    fn clone(&self) -> (r: Self)
        ensures
            r.host@ == self.host@,
            r.port == self.port,
            r.max_matches == self.max_matches,
    {
        ServerConfig { host: self.host.clone(), port: self.port, max_matches: self.max_matches }
    }
}

impl Clone for Config {
    fn clone(&self) -> (r: Self)
        ensures
            r@ == self@,
    {
        Config {
            server: self.server.clone(),
            board: self.board,
            simulation: self.simulation,
            lifecycle: self.lifecycle,
        }
    }
}

// ---------------------------------------------------------------------------
// Defaults
// ---------------------------------------------------------------------------

impl BoardConfig {
    /// A chess board with one row of pawns per side.
    pub open spec fn chess() -> BoardConfig {
        BoardConfig { size: 8, pawn_row_depth: 1 }
    }
}

impl SimulationConfig {
    /// Ten ticks a second, 30% moves a second, hits every 2 s, shots every 3 s,
    /// five minutes per match.
    pub open spec fn standard() -> SimulationConfig {
        SimulationConfig {
            tick_rate: 10,
            move_probability_per_second: Double { bits: 0x3FD3_3333_3333_3333 },
            pawn_move_range: 1,
            unit_hp: 2,
            melee_damage: 1,
            melee_cooldown_secs: Double { bits: 0x4000_0000_0000_0000 },
            artillery_range: 8,
            artillery_damage: 1,
            artillery_cooldown_secs: Double { bits: 0x4008_0000_0000_0000 },
            match_timeout_secs: Double { bits: 0x4072_C000_0000_0000 },
            broadcast_mode: BroadcastMode::Snapshot,
        }
    }
}

impl LifecycleConfig {
    /// Lobbies live ten minutes, finished matches five.
    pub open spec fn standard() -> LifecycleConfig {
        LifecycleConfig {
            lobby_ttl_secs: Double { bits: 0x4082_C000_0000_0000 },
            finished_ttl_secs: Double { bits: 0x4072_C000_0000_0000 },
        }
    }
}

impl Default for ServerConfig {
    fn default() -> (r: Self)
        ensures
            r.host@ == "0.0.0.0"@,
            r.port == 8080,
            r.max_matches == 64,
    {
        ServerConfig { host: "0.0.0.0".to_owned(), port: 8080, max_matches: 64 }
    }
}

impl Default for BoardConfig {
    fn default() -> (r: Self)
        ensures
            r == BoardConfig::chess(),
    {
        BoardConfig { size: 8, pawn_row_depth: 1 }
    }
}

impl Default for SimulationConfig {
    fn default() -> (r: Self)
        ensures
            r == SimulationConfig::standard(),
    {
        SimulationConfig {
            tick_rate: 10,
            move_probability_per_second: Double { bits: 0x3FD3_3333_3333_3333 },
            pawn_move_range: 1,
            unit_hp: 2,
            melee_damage: 1,
            melee_cooldown_secs: Double { bits: 0x4000_0000_0000_0000 },
            artillery_range: 8,
            artillery_damage: 1,
            artillery_cooldown_secs: Double { bits: 0x4008_0000_0000_0000 },
            match_timeout_secs: Double { bits: 0x4072_C000_0000_0000 },
            broadcast_mode: BroadcastMode::Snapshot,
        }
    }
}

impl Default for LifecycleConfig {
    fn default() -> (r: Self)
        ensures
            r == LifecycleConfig::standard(),
    {
        LifecycleConfig {
            lobby_ttl_secs: Double { bits: 0x4082_C000_0000_0000 },
            finished_ttl_secs: Double { bits: 0x4072_C000_0000_0000 },
        }
    }
}

impl Default for Config {
    fn default() -> (r: Self)
        ensures
            r@ == ConfigView::standard(),
    {
        Config {
            server: ServerConfig::default(),
            board: BoardConfig::default(),
            simulation: SimulationConfig::default(),
            lifecycle: LifecycleConfig::default(),
        }
    }
}

impl ConfigView {
    pub open spec fn standard() -> ConfigView {
        ConfigView {
            host: "0.0.0.0"@,
            port: 8080,
            max_matches: 64,
            board: BoardConfig::chess(),
            simulation: SimulationConfig::standard(),
            lifecycle: LifecycleConfig::standard(),
        }
    }

    /// What is wrong with this configuration; the first complaint in the order
    /// of the checks.
    pub open spec fn complaint(self) -> Option<Seq<char>> {
        let sim = self.simulation;
        if !(1 <= sim.tick_rate <= 240) {
            Some("simulation.tick_rate must be 1..=240"@)
        } else if !sim.move_probability_per_second.in_unit_interval() {
            Some("simulation.move_probability_per_second must be in (0, 1]"@)
        } else if sim.pawn_move_range == 0 {
            Some("simulation.pawn_move_range must be >= 1"@)
        } else if sim.unit_hp <= 0 || sim.melee_damage <= 0 || sim.artillery_damage <= 0 {
            Some("hp and damage values must be positive"@)
        } else if sim.melee_cooldown_secs.not_positive()
            || sim.artillery_cooldown_secs.not_positive() {
            Some("cooldowns must be positive"@)
        } else if sim.artillery_range == 0 || sim.artillery_range > self.board.size {
            Some("simulation.artillery_range must be within 1..=board.size"@)
        } else if sim.match_timeout_secs.not_positive() {
            Some("simulation.match_timeout_secs must be positive"@)
        } else if !(4 <= self.board.size <= 16) {
            Some("board.size must be 4..=16"@)
        } else if self.board.pawn_row_depth == 0 || self.board.pawn_row_depth * 2 + 2
            > self.board.size {
            Some("board.pawn_row_depth must leave at least one empty row per side"@)
        } else if self.max_matches == 0 {
            Some("server.max_matches must be >= 1"@)
        } else {
            None
        }
    }

    pub open spec fn valid(self) -> bool {
        self.complaint() is None
    }
}

// ---------------------------------------------------------------------------
// Derived quantities and validation
// ---------------------------------------------------------------------------

impl SimulationConfig {
    pub open spec fn melee_ticks(self) -> u32 {
        self.melee_cooldown_secs.ticks(self.tick_rate) as u32
    }

    pub open spec fn artillery_ticks(self) -> u32 {
        self.artillery_cooldown_secs.ticks(self.tick_rate) as u32
    }

    pub open spec fn timeout_ticks(self) -> u64 {
        self.match_timeout_secs.ticks(self.tick_rate) as u64
    }

    /// Ticks between two melee hits.
    pub fn melee_cooldown_ticks(&self) -> (r: u32)
        ensures
            r == self.melee_ticks(),
            r == self.melee_cooldown_secs.ticks(self.tick_rate),
            r >= 1,
    {
        self.melee_cooldown_secs.to_ticks(self.tick_rate)
    }

    /// Ticks between two artillery shots.
    pub fn artillery_cooldown_ticks(&self) -> (r: u32)
        ensures
            r == self.artillery_ticks(),
            r == self.artillery_cooldown_secs.ticks(self.tick_rate),
            r >= 1,
    {
        self.artillery_cooldown_secs.to_ticks(self.tick_rate)
    }

    /// Match duration in ticks before the timeout rule kicks in.
    pub fn match_timeout_ticks(&self) -> (r: u64)
        ensures
            r == self.timeout_ticks(),
            r == self.match_timeout_secs.ticks(self.tick_rate),
            r >= 1,
    {
        self.match_timeout_secs.to_ticks(self.tick_rate) as u64
    }
}

fn refuse(message: &str) -> (r: Result<(), String>)
    ensures
        r is Err,
        r->Err_0@ == message@,
{
    Err(message.to_owned())
}

impl Config {
    /// Checks every value against its allowed range.
    pub fn validate(&self) -> (r: Result<(), String>)
        ensures
            r is Ok <==> self@.valid(),
            r matches Err(e) ==> self@.complaint() == Some(e@),
    {
        let sim = self.simulation;
        if !(1 <= sim.tick_rate && sim.tick_rate <= 240) {
            return refuse("simulation.tick_rate must be 1..=240");
        }
        if !sim.move_probability_per_second.is_in_unit_interval() {
            return refuse("simulation.move_probability_per_second must be in (0, 1]");
        }
        if sim.pawn_move_range == 0 {
            return refuse("simulation.pawn_move_range must be >= 1");
        }
        if sim.unit_hp <= 0 || sim.melee_damage <= 0 || sim.artillery_damage <= 0 {
            return refuse("hp and damage values must be positive");
        }
        if sim.melee_cooldown_secs.is_not_positive()
            || sim.artillery_cooldown_secs.is_not_positive() {
            return refuse("cooldowns must be positive");
        }
        if sim.artillery_range == 0 || sim.artillery_range > self.board.size {
            return refuse("simulation.artillery_range must be within 1..=board.size");
        }
        if sim.match_timeout_secs.is_not_positive() {
            return refuse("simulation.match_timeout_secs must be positive");
        }
        if !(4 <= self.board.size && self.board.size <= 16) {
            return refuse("board.size must be 4..=16");
        }
        if self.board.pawn_row_depth == 0 || self.board.pawn_row_depth as u16 * 2 + 2
            > self.board.size as u16 {
            return refuse("board.pawn_row_depth must leave at least one empty row per side");
        }
        if self.server.max_matches == 0 {
            return refuse("server.max_matches must be >= 1");
        }
        Ok(())
    }
}

} // verus!

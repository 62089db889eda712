//! Rules and match lifecycle of an authoritative real-time chess server.

pub mod api;
pub mod chance;
pub mod config;
pub mod double;
pub mod events;
pub mod game_state;
pub mod input;
pub mod laws_blows;
pub mod laws_board;
pub mod laws_fight;
pub mod laws_lobby;
pub mod laws_match;
pub mod laws_news;
pub mod laws_orders;
pub mod laws_phases;
pub mod laws_tick;
pub mod laws_time;
pub mod laws_units;
pub mod laws_views;
pub mod match_manager;
pub mod network;
pub mod progress;
pub mod roster;
pub mod rules;
pub mod simulation;
pub mod text;

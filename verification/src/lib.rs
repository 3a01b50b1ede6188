use vstd::prelude::*;

pub mod assembly;
pub mod broad_phase;
pub mod client;
pub mod controller;
pub mod game_packets;
pub mod grid;
pub mod lobby;
pub mod packet;
pub mod particle;
pub mod player_model;
pub mod scalar;
pub mod solver;
pub mod timed_queue;

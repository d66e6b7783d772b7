//! Decision logic of a BitTorrent client engine: permit budgets and their
//! adaptive redistribution, disk I/O accounting and backoff, rate
//! limiting, the peer-wire codec, the peer-session state machine, piece
//! picking and verification, the choking algorithm, and the dashboard
//! state that the main loop keeps.

pub mod choking;
pub mod commands;
pub mod disk_io;
pub mod engine;
pub mod graph;
pub mod info_hash;
pub mod limits;
pub mod manager;
pub mod picker;
pub mod piece_store;
pub mod resources;
pub mod session;
pub mod state;
pub mod stats;
pub mod telemetry;
pub mod token_bucket;
pub mod torrents;
pub mod tuner;
pub mod wire;

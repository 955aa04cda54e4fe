//! Simulation and wire-synchronisation core of a multiplayer tile-grid snake game.
pub mod chunk;
pub mod codec;
pub mod entity;
pub mod error;
pub mod game;
pub mod movement;
pub mod packets;
pub mod physics;
pub mod presence;
pub mod primitives;
pub mod snake;
pub mod types;
pub mod varint;
pub mod world;

//! A minimal turn-based grid game core: a tile map carved out of rooms and
//! tunnels, with movement validated against blocked tiles.
//!
//! The crate covers the map generation and collision model only; drawing the
//! grid and polling the keyboard are left to the surrounding program.

pub mod tile;
pub mod rect;
pub mod grid;
pub mod builder;
pub mod paths;
pub mod entity;
pub mod input;

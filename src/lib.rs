//! A toroidal maze built from rotatable three-by-three tiles, a player that
//! walks it by compass moves, and a renderer that fits any grid-shaped model
//! into a fixed character buffer.
pub mod grid_view;
pub mod laws;
pub mod maze;
pub mod session;
pub mod tile;

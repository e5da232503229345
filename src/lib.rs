//! A streamed, chunked 2D tile world: coordinate transforms between tile and
//! chunk space, tile kinds and sprite indices, chunk data with its persisted
//! record form, and the chunk cache that follows a moving viewpoint.

pub mod cache;
pub mod chunk;
pub mod config;
pub mod coords;
pub mod game_state;
pub mod store;
pub mod terrain;

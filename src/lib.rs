//! Replay container parsing with rollback-tolerant frame reconstruction, and
//! the fixed-width interaction database with its similarity search.

use vstd::prelude::*;

pub mod catalog;
pub mod database;
pub mod search;
pub mod wire;
pub mod container;
pub mod frames;
pub mod game_start;
pub mod replay;

verus! {

} // verus!

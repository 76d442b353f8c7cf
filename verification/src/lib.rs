//! Core of a deterministic falling-block puzzle game: a grid of static
//! blocks, a four-block active piece, collision rules, atomic movement and
//! rotation, gravity-driven descent, line clearing with compaction, the
//! classic scoring and leveling formula, and the state machine that
//! sequences Title, Spawning, Playing, Paused and GameOver.
//!
//! Rendering, input-device polling and audio are collaborators outside this
//! crate: the core consumes resolved actions and elapsed time, and exposes
//! read-only state.

pub mod game;
pub mod grid;
pub mod lines;
pub mod movement;
pub mod score;
pub mod tetromino;

use vstd::prelude::*;

verus! {

} // verus!

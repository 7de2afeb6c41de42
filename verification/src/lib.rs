//! A falling-sand cellular simulation on a discrete grid.
//!
//! Granular blocks fall under gravity, pile up and slide sideways until the
//! pile is stable; immovable blocks never move.  Positions live on a grid
//! whose cells are `BLOCK_SIZE` units wide, the per-tick update rule is purely
//! local (a block consults only the three cells directly below it), and the
//! whole state of a run is a block list together with an occupancy index
//! rebuilt every tick.

pub mod block;
pub mod constants;
pub mod events;
pub mod index;
pub mod laws;
pub mod rng;
pub mod utils;
pub mod vector;

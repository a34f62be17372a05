//! Update core of a grid-based snake game.
//!
//! The board is a fixed 16 x 16 grid. The snake body is kept as a ring
//! buffer of cell indices ([`ring::OccupancyRing`]), the unoccupied tiles as
//! a dense array with a reverse index map ([`free::FreeSet`]), and
//! [`game::GameState`] ties both to a cell-kind grid and drives the per-tick
//! transition. Rendering and input polling are left to the caller, which
//! only sees the grid view, the phase returned by each tick, and the move
//! counter.

pub mod free;
pub mod game;
pub mod pos;
pub mod ring;
mod rng;

//! Conway's Game of Life on a fixed square grid.
//!
//! The core of the library is the [`grid::Grid`] data model together with the
//! generation-transition rule in [`rules`]: every cell lives or dies according
//! to how many of its up-to-8 grid-adjacent neighbors are alive, with no
//! wraparound at the edges. The transition, neighbor counting and population
//! count are verified against mathematical specifications of the rules, and
//! [`patterns`] proves the classic block and blinker behaviors from them.
//! [`seed`] builds a generation-0 grid from a pattern text or at random, and
//! [`render`] classifies per-cell changes for a renderer to draw.

pub mod grid;
pub mod patterns;
pub mod render;
pub mod rules;
pub mod seed;

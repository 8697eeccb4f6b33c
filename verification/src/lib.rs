//! Conway's Game of Life on a bounded grid with a permanently dead border.
//!
//! The crate has three parts: the grid and its accessors ([`grid`]), the
//! generation step ([`life`]) and the half-height glyph rendering
//! ([`render`]). Every function carries a contract that Verus proves.

pub mod grid;
pub mod life;
pub mod render;

//! A label-placement and canvas-composition engine for one terminal frame:
//! positioned glyphs and identifier-bound labels are composed into a single
//! character grid, with label boxes placed by a local-search optimizer and
//! connected to their glyphs by right-angle connector lines.

pub mod board;
pub mod canvas;
pub mod game;
pub mod geometry;
pub mod graphics;
pub mod handlers;
pub mod layout;
pub mod position;
pub mod rendering;
pub mod world;

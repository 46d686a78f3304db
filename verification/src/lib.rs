//! Signal pipeline and power-budget governor for an addressable LED matrix.
//!
//! The crate holds the coordinate map of the hexagonal board, the per-zone
//! current model with its adaptive limiter, the loudness window, the debounced
//! mode switch and the frame hand-off, each with a machine-checked contract.

pub mod app;
pub mod bitzet;
pub mod canvas;
pub mod color;
pub mod math;
pub mod i2s;
pub mod led_strip;
pub mod loudness;
pub mod mailbox;
pub mod matrix;
pub mod power_zones;
pub mod selector;
pub mod switch;

pub use color::RGB8;

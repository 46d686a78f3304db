//! The effects that need no more than integer arithmetic.

pub mod drawing;
pub mod hexlife;
pub mod hexlife2;
pub mod power;

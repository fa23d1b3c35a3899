//! A turn-based race engine: cars controlled by scripts buy power-ups from a
//! market priced on a bonding curve, bananas stop the cars that cross them and
//! shells take the speed of the nearest car ahead.

pub mod action;
pub mod car;
pub mod game;
pub mod laws;
pub mod log;
pub mod market;
pub mod track;

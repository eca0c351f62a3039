//! A guitar effects chain on fixed-point samples.
//!
//! - [`fixed`] and [`approx`]: the arithmetic that the pedals compute with.
//! - [`effects`]: what every pedal can do, the five pedals, and the chain
//!   that routes a block of samples through them.
//! - [`parser`]: the text grammar of the control channel.
//! - [`table`]: tables from names to values, as the chain keeps them.

pub mod approx;
pub mod effects;
pub mod fixed;
pub mod parser;
pub mod table;

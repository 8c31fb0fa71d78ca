//! Properties of the library that span several functions or all inputs.

pub mod distance;
pub mod dynamics;
pub mod spans;
pub mod registry;
pub mod temporal;
pub mod profiles;
pub mod whitespace;
pub mod components;
pub mod units;
pub mod pairs;
pub mod graph;
pub mod senses;
pub mod concepts;

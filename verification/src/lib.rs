//! Deterministic text-analysis kernels: UTF-8 spans, statistics, edit distance and
//! fuzzy matching, structural units, concept evidence and dynamics, temporal windows,
//! semantic graphs, and the operation registry that exposes them.

pub mod chars;
pub mod span;
pub mod distance;
pub mod fuzzy;
pub mod stats;
pub mod registry;
pub mod whitespace;
pub mod corpus;
pub mod order;
pub mod temporal;
pub mod dynamics;
pub mod laws;
pub mod vocabulary;
pub mod model;
pub mod cli;
pub mod senses;
pub mod profiles;
pub mod evidence;
pub mod interpretation;
pub mod components;
pub mod units;
pub mod query;
pub mod report;
pub mod pairs;
pub mod timeline;
pub mod contexts;
pub mod graph;

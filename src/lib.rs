//! Exports a workspace to a single text file: a layered include/exclude rule
//! engine, a bounded and deterministically ordered selection walk, and a
//! streaming exporter with newline normalisation and UTF-8-safe emission.
pub mod errors;
pub mod exporter;
pub mod globs;
pub mod models;
pub mod pathing;
pub mod rules;
pub mod scanner;
pub mod selection;
pub mod sorting;
pub mod stream;
pub mod structure;
pub mod text;

//! A directed graph engine: vertex and edge storage with referential
//! integrity, depth-first traversal, and a line-oriented text codec.
//!
//! A graph owns its vertices and edges. An edge names its endpoints by
//! vertex id; a vertex lists the edges that touch it by their ordered pair
//! of ids. The graph keeps the two in step: no edge without both its
//! vertices, no ordered pair with two edges, no vertex id twice.
//!
//! - [`vertex`], [`edge`]: the two entities.
//! - [`model`]: the graph as a mathematical value, and what each operation
//!   makes of it.
//! - [`graph`]: the graph itself.
//! - [`search`], [`report`]: depth-first search and the text of its result.
//! - [`text`], [`codec`]: the text form of a graph.
//! - [`round_trip`], [`laws`]: what holds of every graph.
//! - [`sequences`]: facts about filtered sequences.
//! - [`error`]: the error kinds.

pub mod error;
pub mod sequences;
pub mod text;
pub mod vertex;
pub mod edge;
pub mod model;
pub mod graph;
pub mod search;
pub mod codec;
pub mod report;
pub mod round_trip;
pub mod laws;

//! Rendering of the output chunks of a JavaScript bundle.
//!
//! A linked module graph that has been partitioned into chunks is turned
//! into text here: each chunk learns which symbols cross its boundary, every
//! symbol gets a name that is unique within its chunk, and the chunk's text
//! is assembled from generated import statements, the module bodies and a
//! generated export statement.
//!
//! - `graph`, `ids`, `options`, `bitset`: what the core reads of the linked
//!   graph and of the build's options.
//! - `chunk`: the chunk and the chunk graph; the choice of the file-name
//!   template.
//! - `table`: the insertion-ordered table that holds a chunk's names,
//!   imports and exports.
//! - `resolve`, `naming`, `links`: the resolver, which names the symbols of
//!   every chunk and links the chunks by imports and exports.
//! - `render`, `statements`, `collect`, `text`, `report`: the render engine,
//!   which writes a chunk's text and its size report.
//! - `symmetry`, `laws`: what is proved of resolving and rendering as a
//!   whole.
//! - `error`: the diagnostics.

pub mod bitset;
pub mod chunk;
pub mod collect;
pub mod error;
pub mod graph;
pub mod hashing;
pub mod ids;
pub mod laws;
pub mod links;
pub mod naming;
pub mod options;
pub mod render;
pub mod report;
pub mod resolve;
pub mod statements;
pub mod symmetry;
pub mod table;
pub mod text;

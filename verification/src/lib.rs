//! Inference of JSON Schema documents from example JSON texts, and a
//! structural diff between two schemas expressed as sets of field paths.
//!
//! The observation tree ([`node::Node`]) accumulates the JSON types seen at
//! every structural position across a set of sample documents; the emitter
//! turns the tree into a schema document (`type` / `properties` / `items`
//! keywords only); the path collector linearizes a schema into a flat set of
//! path strings, and the differ computes added / removed / common paths
//! between two schemas.

pub mod api;
pub mod codec;
pub mod emit;
pub mod laws;
pub mod node;
pub mod paths;
pub mod tags;
pub mod value;

pub use api::{diff_schemas_rs, infer_schema_rs, DiffError, InferError};
pub use tags::TypeTag;
pub use value::JsonValue;

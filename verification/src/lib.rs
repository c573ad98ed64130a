//! Composition of extension graphs: a data model for graphs of extension
//! nodes wired by typed message flows, the flattening of graph-valued nodes
//! ("subgraphs") into a graph that holds extensions only, and the validation
//! of the references of a graph. Beside it, a store of settings as one JSON
//! document that is addressed by dotted keys.
//!
//! The contracts are stated over mathematical views of the data and are
//! proved with Verus. What is taken on trust from the crates `serde_json` and
//! `regex` stands in the modules `json` and `pattern`, and, for reading and
//! writing a document as text and for reading a number, in `storage`.

pub mod graph;
pub mod json;
pub mod pattern;
pub mod storage;
pub mod text;

//! Core model of an FPGA control-program editor: the pin type system,
//! the catalog of node kinds with derived port shapes, the dataflow
//! graph with its connection protocol, the program aggregate, and a
//! lossless persistence codec.

pub mod codec;
pub mod file_structure;
pub mod graph;
pub mod node;

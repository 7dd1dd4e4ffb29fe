//! A compiler for a small language of typed graphs: nodes, edges, walkers and graph
//! instances. Source text is tokenized and parsed into blocks, the blocks are resolved
//! into a checked program, a graph's node instances can be placed on accelerator cores
//! under a byte budget per core, and C text is emitted for the host and the device.

pub mod base_type;
pub mod code_gen;
pub mod emitter;
pub mod graph_cut;
pub mod lexer;
pub mod parser;
pub mod sem_type;
pub mod semantics_analysis;

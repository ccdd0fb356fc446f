//! A grid of tiny lock-step processors that exchange values with their
//! neighbours: the instruction parser, the per-node state machine, the
//! single-step executor and the whole-grid stepping protocol.

pub mod dir;
pub mod storage;
pub mod text;
pub mod program;
pub mod node;
pub mod exec_node;
pub mod input_node;
pub mod grid;
pub mod seek;
pub mod sim;
pub mod workspace;

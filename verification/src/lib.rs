//! The logic of a server that reads, writes and compares files for a coding
//! agent, and checks the projects whose files were written.
//!
//! Nothing in here touches the file system or starts a program. Where a
//! request needs that, the library says what is to be done next, and is told
//! what came of it.
pub mod batch;
pub mod clip;
pub mod ctags;
pub mod diagnostics;
pub mod diff;
pub mod edit;
pub mod languages;
pub mod laws;
pub mod lines;
pub mod master;
pub mod number;
pub mod order;
pub mod paths;
pub mod read;
pub mod search;
pub mod text;
pub mod tree;
pub mod utils;
pub mod write;

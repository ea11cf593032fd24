//! A measurement harness for an HTML parser: the canonical text form of a
//! parsed document tree, and the protocol by which repeated parses of a corpus
//! are timed and summarised.

pub mod corpus;
pub mod order;
pub mod runner;
pub mod serialize;
pub mod sort;
pub mod tree;

//! Reader for a node-structured save container.
//!
//! A save file is a byte buffer that ends in a trailer pointing at a table of
//! named nodes. Each node records how many bytes it spans; nodes are linked
//! into a tree by index. This crate decodes the table and works out how many
//! of a node's bytes are its own rather than its immediate children's.

pub mod accounting;
pub mod error;
pub mod fields;
pub mod node;
pub mod packed_int;
pub mod pstr;
pub mod report;
pub mod save;

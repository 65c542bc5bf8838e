//! Storage primitives for a block-structured database file layer: block
//! identifiers, a page buffer with a typed cursor codec, and the decisions of
//! a file manager that moves whole blocks between pages and files.

pub mod block_id;
pub mod page;
pub mod file_manager;

//! Query planning and index customisation for an ordered key-value engine.
//!
//! The engine itself stays outside: every function here works on plain
//! values and answers with plain values, so that a caller can perform the
//! engine calls and hand the results back.

pub mod error;
pub mod query_value;
pub mod utils;
pub mod compound_directional_collator;
pub mod multi_key_extractor;
pub mod cursor;
pub mod index_spec;
pub mod multi_cursor;
pub mod find_cursor;
pub mod session;
pub mod wt_item;
pub mod registry;
pub mod table;
pub mod marshal;

//! Reading columns of stored table blocks and of their bloom indexes, the memory of aggregate
//! states, and the administrative procedures.

pub mod admin;
pub mod area;
pub mod arrow;
pub mod block;
pub mod block_laws;
pub mod block_model;
pub mod block_reader;
pub mod bloom;
pub mod column;
pub mod decimal;
pub mod decoding;
pub mod encoding;
pub mod error;
pub mod forms;
pub mod nested_laws;
pub mod nesting;
pub mod page_laws;
pub mod pages;
pub mod parquet;
pub mod read_laws;
pub mod shape;

//! The record of a built block.
pub mod built_block_trace;
pub mod consistency;
pub mod tables;

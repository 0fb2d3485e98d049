//! The logic of a terminal coding agent, stated and proved.

pub mod cli;
pub mod commands;
pub mod config;
pub mod context;
pub mod engine;
pub mod json;
pub mod mcp;
pub mod memory;
pub mod order;
pub mod paths;
pub mod permission;
pub mod protocol;
pub mod text;
pub mod text_laws;
pub mod text_map;

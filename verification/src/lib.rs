pub mod action;
pub mod assoc;
pub mod cli;
pub mod config;
pub mod date;
pub mod keys;
pub mod mcp;
pub mod notes;
pub mod text;
pub mod ui;
pub mod width;

//! Local masking of sensitive values (phone numbers, passwords, addresses, ...) in arbitrary text,
//! together with the rules around profiles, their import and export, and the command front ends.

pub mod bulk;
pub mod cluster;
pub mod crypto;
pub mod decode;
pub mod env_import;
pub mod export;
pub mod gui;
pub mod gui_import;
pub mod import_plan;
pub mod json;
pub mod mask_cli;
pub mod mcp;
pub mod masker;
pub mod matcher;
pub mod models;
pub mod offsets;
pub mod paths;
pub mod pending;
pub mod regex_engine;
pub mod text;
pub mod tray;
pub mod wipe;

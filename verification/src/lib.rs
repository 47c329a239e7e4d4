//! pore: manifests, depots and trees of many git repositories.
pub mod commands;
pub mod config;
pub mod depot;
pub mod display;
pub mod hooks;
pub mod lists;
pub mod manifest;
pub mod markup;
pub mod path;
pub mod pool;
pub mod rename;
pub mod replace;
pub mod replace_nested;
pub mod style;
pub mod text;
pub mod tree;
pub mod update_check;
pub mod xml;

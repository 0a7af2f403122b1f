//! Verified core of `rootrat`, a dotfiles manager.
pub mod text;
pub mod order;
pub mod sorted;
pub mod string_map;
pub mod path_set;
pub mod paths;
pub mod error;
pub mod manifest;
pub mod fsview;
pub mod commands;

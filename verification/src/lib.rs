//! Verified core of the games-menu backend: catalog merging, desktop-entry
//! parsing, version ordering, timestamps, filtering, sorting and
//! reconciliation of the game list; the store's files and defaults; what
//! the GitHub, SteamGridDB and web-page clients decide and read; and the
//! bookkeeping of the `ogm` commands.

pub mod text;
pub mod fmt;
pub mod time;
pub mod order;
pub mod version;
pub mod model;
pub mod catalog;
pub mod glob;
pub mod filter;
pub mod desktop;
pub mod reconcile;
pub mod sort;
pub mod web;
pub mod paths;
pub mod config;
pub mod user_games;
pub mod version_file;
pub mod sorting;
pub mod fragments;
pub mod state;
pub mod json;
pub mod net;
pub mod ids;
pub mod cli;
pub mod commands;

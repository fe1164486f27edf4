//! The logic of a terminal client for NetEase Cloud Music: lyrics, library,
//! downloads, playback cache, request signing and the interface state machine,
//! each with its behaviour stated in contracts and proved.

pub mod auth;
pub mod catalog;
pub mod config;
pub mod cover;
pub mod database;
pub mod decimal;
pub mod discovery;
pub mod download;
pub mod json;
pub mod library;
pub mod lyrics;
pub mod ncm_core;
pub mod organizer;
pub mod pagination;
pub mod palette;
pub mod path;
pub mod playback_cache;
pub mod player;
pub mod scanner;
pub mod sorting;
pub mod streaming;
pub mod text;
pub mod time;
pub mod tui;

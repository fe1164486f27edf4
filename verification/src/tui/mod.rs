//! The terminal interface: its state, what keys, clicks and events do to it,
//! where things stand on the screen and what is written there.

pub mod app;
pub mod browse;
pub mod command;
pub mod control;
pub mod events;
pub mod format;
pub mod frame;
pub mod input;
pub mod layout;
pub mod lyric_panel;
pub mod mouse;
pub mod palette;
pub mod panes;
pub mod playing;
pub mod routes;
pub mod rows;
pub mod screen;
pub mod tasks;
pub mod width;
pub mod wrap;

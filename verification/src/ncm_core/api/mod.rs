//! The requests that the service understands.

pub mod album;
pub mod artist;
pub mod login;
pub mod playlist;
pub mod recommend;
pub mod search;
pub mod track;
pub mod user;

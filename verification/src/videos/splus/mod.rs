//! The second catalogue of streams: titles that several sources can play.

pub mod title;
pub mod state;
pub mod detail;
pub mod home;
pub mod downloads;
pub mod library;
pub mod play;
pub mod settings;

//! Titles that are streamed from a remote catalogue: what is said of them, the
//! title that is open, and what is kept of it.

pub mod table;
pub mod title;
pub mod state;
pub mod detail;
pub mod download;
pub mod play;
pub mod cast;
pub mod hosts;
pub mod feed;
pub mod saved;
pub mod search;

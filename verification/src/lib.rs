//! Verified logic of a personal media suite: account sync, the status
//! dashboard, the tool runner, device transfer and the video sections.

pub mod ascii;
pub mod double;
pub mod find;
pub mod order;
pub mod outside;
pub mod single;
pub mod status;
pub mod sync;
pub mod text;
pub mod tools;
pub mod transfer;
pub mod videos;

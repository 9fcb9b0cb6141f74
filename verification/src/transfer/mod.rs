//! Sharing with devices on the network: the page about it, the code to scan, and
//! the table of what was sent and received.

pub mod qr;
pub mod words;
pub mod rates;
pub mod page;
pub mod wire;

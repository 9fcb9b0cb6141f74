//! Account sync: sign-in, tokens for remote streaming, codes, invitations, and
//! the rules of what is sent and kept.

pub mod account_toggle;
pub mod audit_log;
pub mod engine;
pub mod hex;
pub mod invitations;
pub mod oauth;
pub mod remote_stream;
pub mod shared_albums;
pub mod totp;

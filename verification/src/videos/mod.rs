//! The video sections: the library of files, live television, and titles that are
//! streamed.

pub mod names;
pub mod shelf;
pub mod livetv;
pub mod tuner;
pub mod stream;
pub mod splus;

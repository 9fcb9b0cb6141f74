//! The tool runner: what it offers, the form of each tool, the job that a form
//! makes, and how a job runs and reports.

pub mod catalog;
pub mod form;
pub mod paths;
pub mod job;
pub mod run;
pub mod media;
pub mod queue;
pub mod progress;
pub mod native;
pub mod step;
pub mod programs;
pub mod trim;
pub mod tree;
pub mod worker;
pub mod wire;

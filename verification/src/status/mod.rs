//! The status dashboard: how figures read, what each section's card says, how
//! the whole folds into one headline, and what the page may ask of the app.

pub mod card;
pub mod cloud;
pub mod collect;
pub mod figures;
pub mod jobs;
pub mod library;
pub mod metrics;
pub mod money;
pub mod sections;
pub mod server;
pub mod services;
pub mod timeline;

//! Publishes a local directory tree to a remote site: markdown sources are
//! turned into HTML pages, changed files are uploaded, and remote files
//! without a local counterpart are deleted.
//!
//! The library plans and decides; it reads no file and sends nothing. The
//! program around it walks the directory, talks to the remote site, and
//! hands the library what it found.
pub mod config;
pub mod error;
pub mod markdown;
pub mod processor;
pub mod step;
pub mod sync;
pub mod text;
pub mod utils;

pub use error::{cfg_error, SiteBuilderError};

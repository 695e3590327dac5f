//! Release histories of programs: version triples, the comma-separated
//! release list, the JSON cache document and the plain-text report.

pub mod cache;
pub mod error;
pub mod json;
pub mod lines;
pub mod program;
pub mod report;
pub mod source;
pub mod text;
pub mod version;

pub use crate::cache::{decode, encode, load, save};
pub use crate::error::ReleaseError;
pub use crate::lines::{parse_line, parse_releases};
pub use crate::program::Program;
pub use crate::report::render;
pub use crate::source::{gather, select_source, DataSource};
pub use crate::version::{MalformedVersion, Version};

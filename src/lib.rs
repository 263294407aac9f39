//! Statistics over a vault of notes: words, links and tags of every document,
//! merged into totals and ranked.
use vstd::prelude::*;

pub mod config;
pub mod extract;
pub mod input;
pub mod laws;
pub mod naming;
pub mod note;
pub mod scan;
pub mod screens;
pub mod tags;
pub mod template;
pub mod text;
pub mod vault;
pub mod walk;

pub use config::Config;
pub use extract::extract;
pub use tags::TagMap;
pub use template::{TemplArgs, Template, TemplateError};
pub use vault::{NoteStats, ScanReport, VaultStats};

verus! {

} // verus!

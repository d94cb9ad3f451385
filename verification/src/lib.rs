//! Offcut: find development projects, judge their git state and reclaim the
//! untracked junk that is safe to remove.
//!
//! What is decided is decided here; git, the file system and the terminal are
//! the caller's. A function that needs to know more returns the next question
//! and is called again with one more answer.

pub mod classify;
pub mod clean;
pub mod cleaning;
pub mod colored;
pub mod columns;
pub mod config;
pub mod discovery;
pub mod disk;
pub mod fit;
pub mod ignore_rules;
pub mod interactive;
pub mod json;
pub mod labels;
pub mod layout;
pub mod output;
pub mod paths;
pub mod progress;
pub mod replay;
pub mod safelist;
pub mod session;
pub mod style;
pub mod survey;
pub mod text;
pub mod visible;

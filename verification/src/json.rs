//! The documents of machine-readable output.
//!
//! Under `--json` a command writes exactly one document: an envelope with the
//! schema version, the command and either its result or an error. The types
//! here hold what the documents say; the caller puts them into JSON.

use vstd::prelude::*;

use crate::classify::Status;
use crate::clean::Classification;

verus! {

/// The version of the schema.
pub const VERSION: u32 = 1;

/// What every command writes. There is a result or an error, not both.
#[derive(Debug)]
pub struct Envelope<R> {
    pub version: u32,
    pub command: &'static str,
    pub ok: bool,
    pub result: Option<R>,
    pub error: Option<ErrorBody>,
}

/// What went wrong.
#[derive(Debug)]
pub struct ErrorBody {
    pub message: String,
}

/// One project in a listing.
#[derive(Debug)]
pub struct ProjectRow {
    pub path: String,
    pub status: &'static str,
    pub rank: u8,
    pub reclaimable_bytes: Option<u64>,
}

/// The result of `list`.
#[derive(Debug)]
pub struct ListResult {
    pub projects: Vec<ProjectRow>,
    pub cleanable_count: usize,
    pub total_reclaimable_bytes: u64,
}

/// The result of `classification`.
#[derive(Debug)]
pub struct ClassificationResult {
    pub projects: Vec<ProjectRow>,
}

/// One project in the result of `discovery`.
#[derive(Debug)]
pub struct DiscoveryProject {
    pub path: String,
    pub marker: String,
}

/// The result of `discovery`.
#[derive(Debug)]
pub struct DiscoveryResult {
    pub projects: Vec<DiscoveryProject>,
}

/// The result of `config`.
#[derive(Debug)]
pub struct ConfigResult {
    pub config_file: Option<String>,
    pub default_mode: String,
    pub max_depth: usize,
    pub workspace_roots: Vec<String>,
    pub safe_delete: Vec<String>,
    pub project_markers: Vec<String>,
    pub force: bool,
    pub dry_run: bool,
    pub verbose: bool,
}

/// The result of `ignore`.
#[derive(Debug)]
pub struct IgnoreResult {
    pub path: String,
    pub ignored: bool,
}

/// The result of `safelist`.
#[derive(Debug)]
pub struct SafelistResult {
    pub path: String,
    pub safe: bool,
}

/// The result of `init`.
#[derive(Debug)]
pub struct InitResult {
    pub config_file: String,
    pub created: bool,
}

/// One item of a project in the result of `clean`.
#[derive(Debug)]
pub struct CleanItemRow {
    pub path: String,
    pub is_dir: bool,
    pub classification: &'static str,
    pub fate: &'static str,
}

/// One project in the result of `clean`.
#[derive(Debug)]
pub struct CleanProjectRow {
    pub path: String,
    pub status: &'static str,
    pub approved: bool,
    pub deleted_count: usize,
    pub reclaimable_bytes: Option<u64>,
    pub items: Vec<CleanItemRow>,
}

/// The result of `clean`.
#[derive(Debug)]
pub struct CleanResult {
    pub approval_required: bool,
    pub projects: Vec<CleanProjectRow>,
}

/// The envelope of a success.
pub fn ok<R>(command: &'static str, result: R) -> (e: Envelope<R>)
    ensures
        e.version == VERSION,
        e.command == command,
        e.ok,
        e.result == Some(result),
        e.error is None,
{
    Envelope { version: VERSION, command, ok: true, result: Some(result), error: None }
}

/// The envelope of a failure.
pub fn err<R>(command: &'static str, message: String) -> (e: Envelope<R>)
    ensures
        e.version == VERSION,
        e.command == command,
        !e.ok,
        e.result is None,
        e.error == Some(ErrorBody { message }),
{
    Envelope { version: VERSION, command, ok: false, result: None, error: Some(ErrorBody { message }) }
}

/// The name of a status in documents: its label.
pub fn status_label(status: Status) -> (s: &'static str)
    ensures
        s@ == crate::classify::label_of(status),
{
    status.label()
}

/// The name of a classification in documents.
pub open spec fn classification_name(c: Classification) -> Seq<char> {
    match c {
        Classification::Protected => "protected"@,
        Classification::Safe => "safe"@,
        Classification::Surfaced => "surfaced"@,
    }
}

/// The name of a classification in documents.
pub fn classification_label(c: Classification) -> (s: &'static str)
    ensures
        s@ == classification_name(c),
{
    match c {
        Classification::Protected => "protected",
        Classification::Safe => "safe",
        Classification::Surfaced => "surfaced",
    }
}

} // verus!

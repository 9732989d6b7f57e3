//! The error taxonomy of the indexing pipeline.

use vstd::prelude::*;

verus! {

/// Every failure the pipeline can report.
///
/// * `FileReadError` — a source file named by the compilation unit could not
///   be read; fatal to the whole unit.
/// * `AnalysisDeserializationFailed` — one analysis artifact could not be
///   decoded; the artifact is skipped and the failure is reported as a
///   diagnostic, the rest of the unit goes on.
/// * `InvalidAnalysisRecord` — one analysis record is structurally
///   inconsistent (for example a span that lies outside the file it names);
///   that record is skipped and reported, the rest of the unit goes on.
/// * `WriteError` — the entry sink failed; always fatal.
/// * `MalformedEntity` — an entry was constructed with an empty identity
///   component where the schema requires a non-empty one.
#[derive(Debug)]
pub enum KytheError {
    FileReadError(String),
    AnalysisDeserializationFailed(String),
    InvalidAnalysisRecord(String),
    WriteError,
    MalformedEntity,
}

} // verus!

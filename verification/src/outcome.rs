use vstd::prelude::*;

verus! {

/// Severity levels for formatter diagnostics.
#[derive(Clone, Copy, Debug, PartialEq, Eq, Structural)]
pub enum DiagnosticSeverity {
    Info,
    Warning,
    Error,
}

/// A diagnostic emitted during formatting. `range` is absent for file-level
/// diagnostics; `source` identifies the component that emitted it.
#[derive(Debug)]
pub struct Diagnostic {
    pub range: Option<(usize, usize)>,
    pub message: String,
    pub severity: DiagnosticSeverity,
    pub source: Option<String>,
}

impl Diagnostic {
    /// An error diagnostic attributed to the engine itself.
    pub fn engine_error(range: Option<(usize, usize)>, message: String) -> (r: Self)
        ensures
            r.range == range,
            r.message == message,
            r.severity == DiagnosticSeverity::Error,
            r.source matches Some(s) && s@ == "engine"@,
    {
        Diagnostic {
            range,
            message,
            severity: DiagnosticSeverity::Error,
            source: Some("engine".to_owned()),
        }
    }
}

/// The net effect of one engine run on one input: whether the text changed,
/// the diagnostics the passes and the engine emitted, and a unified diff from
/// the original to the final text when the text changed.
#[derive(Debug)]
pub struct FileFormatOutcome {
    pub path: Option<String>,
    pub changed: bool,
    pub diagnostics: Vec<Diagnostic>,
    pub diff: Option<String>,
}

impl FileFormatOutcome {
    /// A fresh outcome for the given path: unchanged, no diagnostics, no diff.
    pub fn new(path: Option<String>) -> (r: Self)
        ensures
            r.path == path,
            r.changed == false,
            r.diagnostics@.len() == 0,
            r.diff is None,
    {
        FileFormatOutcome { path, changed: false, diagnostics: Vec::new(), diff: None }
    }
}

} // verus!

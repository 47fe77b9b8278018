use crate::outcome::{Diagnostic, DiagnosticSeverity};
use vstd::prelude::*;
use vstd::utf8::encode_utf8;

verus! {

/// What one pass sees while it runs: the configuration, the root of the
/// current tree, the current source text, and a sink for the diagnostics it
/// emits. A diagnostic pushed without a source is attributed to
/// `default_source`.
pub struct FormatterContext<'run, 'tree, Config> {
    pub config: &'run Config,
    pub root: tree_sitter::Node<'tree>,
    pub source: &'run str,
    pub diagnostics: Vec<Diagnostic>,
    pub default_source: Option<String>,
}

impl<'run, 'tree, Config> FormatterContext<'run, 'tree, Config> {
    /// The UTF-8 bytes of the source this context was built over.
    pub open spec fn src_bytes(&self) -> Seq<u8> {
        encode_utf8(self.source@)
    }

    /// A fresh context over one snapshot of config, tree and source.
    pub(crate) fn new(
        config: &'run Config,
        root: tree_sitter::Node<'tree>,
        source: &'run str,
    ) -> (r: Self)
        ensures
            r.config == config,
            r.source == source,
            r.diagnostics@.len() == 0,
            r.default_source is None,
    {
        FormatterContext { config, root, source, diagnostics: Vec::new(), default_source: None }
    }

    /// The same context, attributing source-less diagnostics to `source`.
    pub(crate) fn with_default_source(self, source: String) -> (r: Self)
        ensures
            r.config == self.config,
            r.source == self.source,
            r.diagnostics == self.diagnostics,
            r.default_source == Some(source),
    {
        FormatterContext { default_source: Some(source), ..self }
    }

    /// The configuration shared across passes.
    pub fn config(&self) -> (r: &'run Config)
        ensures
            r == self.config,
    {
        self.config
    }

    /// The root node of the current tree.
    pub fn root(&self) -> (r: tree_sitter::Node<'tree>)
        ensures
            r == self.root,
    {
        self.root
    }

    /// The current source text.
    pub fn source(&self) -> (r: &'run str)
        ensures
            r == self.source,
    {
        self.source
    }

    /// Record a diagnostic; one without a source is attributed to this
    /// context's default source.
    pub fn push_diagnostic(&mut self, diagnostic: Diagnostic)
        ensures
            final(self).diagnostics@ == old(self).diagnostics@.push(
                filled_diagnostic(diagnostic, old(self).default_source),
            ),
            final(self).config == old(self).config,
            final(self).source == old(self).source,
            final(self).default_source == old(self).default_source,
    {
        let source = match diagnostic.source {
            Some(s) => Some(s),
            None => match &self.default_source {
                Some(d) => Some(d.clone()),
                None => None,
            },
        };
        let filled = Diagnostic {
            range: diagnostic.range,
            message: diagnostic.message,
            severity: diagnostic.severity,
            source,
        };
        self.diagnostics.push(filled);
    }

    /// Record an informational diagnostic.
    pub fn info(&mut self, message: String, range: Option<(usize, usize)>)
        ensures
            final(self).diagnostics@ == old(self).diagnostics@.push(
                filled_diagnostic(
                    Diagnostic {
                        range,
                        message,
                        severity: DiagnosticSeverity::Info,
                        source: None,
                    },
                    old(self).default_source,
                ),
            ),
            final(self).config == old(self).config,
            final(self).source == old(self).source,
            final(self).default_source == old(self).default_source,
    {
        self.push_diagnostic(
            Diagnostic { range, message, severity: DiagnosticSeverity::Info, source: None },
        );
    }

    /// Record a warning diagnostic.
    pub fn warning(&mut self, message: String, range: Option<(usize, usize)>)
        ensures
            final(self).diagnostics@ == old(self).diagnostics@.push(
                filled_diagnostic(
                    Diagnostic {
                        range,
                        message,
                        severity: DiagnosticSeverity::Warning,
                        source: None,
                    },
                    old(self).default_source,
                ),
            ),
            final(self).config == old(self).config,
            final(self).source == old(self).source,
            final(self).default_source == old(self).default_source,
    {
        self.push_diagnostic(
            Diagnostic { range, message, severity: DiagnosticSeverity::Warning, source: None },
        );
    }

    /// Record an error diagnostic.
    pub fn error(&mut self, message: String, range: Option<(usize, usize)>)
        ensures
            final(self).diagnostics@ == old(self).diagnostics@.push(
                filled_diagnostic(
                    Diagnostic {
                        range,
                        message,
                        severity: DiagnosticSeverity::Error,
                        source: None,
                    },
                    old(self).default_source,
                ),
            ),
            final(self).config == old(self).config,
            final(self).source == old(self).source,
            final(self).default_source == old(self).default_source,
    {
        self.push_diagnostic(
            Diagnostic { range, message, severity: DiagnosticSeverity::Error, source: None },
        );
    }

    /// Take the diagnostics this pass emitted.
    pub(crate) fn into_diagnostics(self) -> (r: Vec<Diagnostic>)
        ensures
            r@ == self.diagnostics@,
    {
        self.diagnostics
    }
}

/// A diagnostic with its source attributed to `default_source` when it names
/// none of its own.
pub open spec fn filled_diagnostic(d: Diagnostic, default_source: Option<String>) -> Diagnostic {
    if d.source is Some {
        d
    } else {
        Diagnostic { source: default_source, ..d }
    }
}

} // verus!

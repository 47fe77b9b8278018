use std::cell::Cell;
use std::rc::Rc;

use fmt_runner::engine::run_file;
use fmt_runner::{
    Edit, EditTarget, Engine, FormatterContext, LanguageProvider, Parser, Pass, Pipeline,
    StructuredPass, SupportedExtension,
};

struct JsonLanguage;

impl LanguageProvider for JsonLanguage {
    fn language() -> tree_sitter::Language {
        tree_sitter_json::LANGUAGE.into()
    }

    fn supported_extension() -> SupportedExtension {
        SupportedExtension::new(vec!["json".to_string()])
    }
}

struct Config;

/// A pass that returns a fixed edit set, whatever the source looks like.
struct FixedPass {
    edits: Vec<(usize, usize, &'static str)>,
}

impl Pass for FixedPass {
    type Config = Config;

    fn run(&self, _ctx: &mut FormatterContext<Config>) -> Vec<Edit> {
        self.edits
            .iter()
            .map(|(start, end, content)| Edit::new((*start, *end), content.to_string()))
            .collect()
    }
}

/// A pass that rewrites the whole source to the given text, unless the
/// source already equals it.
struct RewriteWholePass {
    replacement: &'static str,
}

impl Pass for RewriteWholePass {
    type Config = Config;

    fn run(&self, ctx: &mut FormatterContext<Config>) -> Vec<Edit> {
        let source = ctx.source();
        if source == self.replacement {
            Vec::new()
        } else {
            vec![Edit::new((0, source.len()), self.replacement.to_string())]
        }
    }
}

/// A pass that counts its runs and never edits.
struct CountingPass {
    calls: Rc<Cell<usize>>,
}

impl Pass for CountingPass {
    type Config = Config;

    fn run(&self, _ctx: &mut FormatterContext<Config>) -> Vec<Edit> {
        self.calls.set(self.calls.get() + 1);
        Vec::new()
    }
}

/// A pass that deletes the first `b` of the source it currently sees.
struct DeleteFirstBPass;

impl Pass for DeleteFirstBPass {
    type Config = Config;

    fn run(&self, ctx: &mut FormatterContext<Config>) -> Vec<Edit> {
        match ctx.source().find('b') {
            Some(pos) => vec![Edit::new((pos, pos + 1), String::new())],
            None => Vec::new(),
        }
    }
}

/// Splits the whole source at commas and renders the items joined by
/// semicolons, relying on the default transform.
struct JoinPass;

impl StructuredPass for JoinPass {
    type Config = Config;
    type Item = String;

    fn extract(&self, _root: tree_sitter::Node<'_>, source: &str) -> Vec<EditTarget<String>> {
        let items: Vec<String> = source.split(',').map(|s| s.trim().to_string()).collect();
        vec![Edit::with_items((0, source.len()), items)]
    }

    fn build(&self, _config: &Config, items: &Vec<String>) -> String {
        items.join(";")
    }
}

/// A structured pass whose transform always fails.
struct FailingTransformPass;

impl StructuredPass for FailingTransformPass {
    type Config = Config;
    type Item = String;

    fn extract(&self, _root: tree_sitter::Node<'_>, source: &str) -> Vec<EditTarget<String>> {
        vec![Edit::with_items((0, source.len()), vec!["x".to_string()])]
    }

    fn transform(
        &self,
        _root: tree_sitter::Node<'_>,
        _source: &str,
        _config: &Config,
        _items: &mut Vec<String>,
    ) -> Result<(), String> {
        Err("cannot rework the items".to_string())
    }

    fn build(&self, _config: &Config, items: &Vec<String>) -> String {
        items.join(";")
    }
}

fn parser() -> Parser<JsonLanguage> {
    Parser::new().expect("the grammar should load")
}

#[test]
fn test_empty_pipeline_leaves_input_alone() {
    // Pipeline = [], codes = ["abc"], paths = ["/x"].
    let mut engine: Engine<JsonLanguage, Config> =
        Engine::new(Pipeline::new()).expect("the grammar should load");
    let outcomes = engine.check(
        &Config,
        &vec!["abc".to_string()],
        &vec![Some("/x".to_string())],
    );
    assert_eq!(outcomes.len(), 1);
    assert_eq!(outcomes[0].path, Some("/x".to_string()));
    assert!(!outcomes[0].changed);
    assert!(outcomes[0].diagnostics.is_empty());
    assert!(outcomes[0].diff.is_none());
}

#[test]
fn test_single_edit_rewrites_source() {
    // One pass replacing bytes 0..3 of "abc" with "XYZ".
    let mut pipeline: Pipeline<Config> = Pipeline::new();
    pipeline.add_pass(FixedPass { edits: vec![(0, 3, "XYZ")] });
    let (outcome, formatted) = run_file(&mut parser(), &pipeline, &Config, &"abc".to_string(), None);
    assert_eq!(formatted, "XYZ");
    assert!(outcome.changed);
    let diff = outcome.diff.expect("a changed outcome carries a diff");
    assert!(diff.contains("-abc"));
    assert!(diff.contains("+XYZ"));
    assert_eq!(diff, "--- original\n+++ formatted\n@@ -1,1 +1,1 @@\n-abc\n+XYZ\n");
}

#[test]
fn test_overlapping_edits_are_rejected_whole() {
    // Edits (0,5) and (4,6) overlap: one error diagnostic, nothing applied.
    let mut pipeline: Pipeline<Config> = Pipeline::new();
    pipeline.add_pass(FixedPass { edits: vec![(0, 5, "a"), (4, 6, "b")] });
    let (outcome, formatted) =
        run_file(&mut parser(), &pipeline, &Config, &"abcdefgh".to_string(), None);
    assert_eq!(formatted, "abcdefgh");
    assert!(!outcome.changed);
    assert!(outcome.diff.is_none());
    assert_eq!(outcome.diagnostics.len(), 1);
    let diag = &outcome.diagnostics[0];
    assert_eq!(diag.severity, fmt_runner::DiagnosticSeverity::Error);
    assert_eq!(diag.source, Some("pass#0".to_string()));
    assert_eq!(diag.range, Some((0, 5)));
    assert_eq!(diag.message, "conflicting edits at bytes 0..5 and 4..6");
}

#[test]
fn test_second_pass_sees_first_pass_output() {
    // P1 rewrites "hello" to "HELLO"; P2 rewrites it back: no net change.
    let mut pipeline: Pipeline<Config> = Pipeline::new();
    pipeline.add_pass(FixedPass { edits: vec![(0, 5, "HELLO")] });
    pipeline.add_pass(RewriteWholePass { replacement: "hello" });
    let (outcome, formatted) =
        run_file(&mut parser(), &pipeline, &Config, &"hello".to_string(), None);
    assert_eq!(formatted, "hello");
    assert!(!outcome.changed);
    assert!(outcome.diff.is_none());
}

#[test]
fn test_insertions_apply_at_intended_positions() {
    // Insertions at 3 and 1 of "abcde" land where they were aimed.
    let mut pipeline: Pipeline<Config> = Pipeline::new();
    pipeline.add_pass(FixedPass { edits: vec![(3, 3, "X"), (1, 1, "Y")] });
    let (outcome, formatted) =
        run_file(&mut parser(), &pipeline, &Config, &"abcde".to_string(), None);
    assert_eq!(formatted, "aYbcXde");
    assert!(outcome.changed);
}

#[test]
fn test_zero_width_insertion_at_start_prepends() {
    // Insert at byte 0, then a later pass still finds its target.
    let mut pipeline: Pipeline<Config> = Pipeline::new();
    pipeline.add_pass(FixedPass { edits: vec![(0, 0, "X")] });
    pipeline.add_pass(DeleteFirstBPass);
    let (_outcome, formatted) =
        run_file(&mut parser(), &pipeline, &Config, &"abc".to_string(), None);
    assert_eq!(formatted, "Xac");
}

#[test]
fn test_empty_input_runs_every_pass() {
    let calls = Rc::new(Cell::new(0));
    let mut pipeline: Pipeline<Config> = Pipeline::new();
    pipeline.add_pass(CountingPass { calls: calls.clone() });
    let (outcome, formatted) = run_file(&mut parser(), &pipeline, &Config, &String::new(), None);
    assert_eq!(calls.get(), 1);
    assert_eq!(formatted, "");
    assert!(!outcome.changed);
    assert!(outcome.diff.is_none());
}

#[test]
fn test_empty_edit_sets_change_nothing() {
    // Every pass returns no edits: unchanged outcome, both passes ran once.
    let first = Rc::new(Cell::new(0));
    let second = Rc::new(Cell::new(0));
    let mut pipeline: Pipeline<Config> = Pipeline::new();
    pipeline.add_pass(CountingPass { calls: first.clone() });
    pipeline.add_pass(CountingPass { calls: second.clone() });
    let (outcome, formatted) =
        run_file(&mut parser(), &pipeline, &Config, &"{ \"a\": 1 }".to_string(), None);
    assert_eq!(first.get(), 1);
    assert_eq!(second.get(), 1);
    assert_eq!(formatted, "{ \"a\": 1 }");
    assert!(!outcome.changed);
    assert!(outcome.diff.is_none());
    assert!(outcome.diagnostics.is_empty());
}

#[test]
fn test_check_twice_gives_identical_outcomes() {
    let mut pipeline: Pipeline<Config> = Pipeline::new();
    pipeline.add_pass(RewriteWholePass { replacement: "FOO" });
    let mut engine: Engine<JsonLanguage, Config> =
        Engine::new(pipeline).expect("the grammar should load");
    let codes = vec!["foo".to_string(), "FOO".to_string()];
    let paths = vec![Some("/a".to_string()), Some("/b".to_string())];
    let first = engine.check(&Config, &codes, &paths);
    let second = engine.check(&Config, &codes, &paths);
    assert_eq!(first.len(), second.len());
    for (x, y) in first.iter().zip(second.iter()) {
        assert_eq!(x.path, y.path);
        assert_eq!(x.changed, y.changed);
        assert_eq!(x.diff, y.diff);
        assert_eq!(x.diagnostics.len(), y.diagnostics.len());
    }
    assert!(first[0].changed);
    assert!(!first[1].changed);
}

#[test]
fn test_fixed_point_output_checks_clean() {
    // Formatting reaches a fixed point: checking the formatted text again
    // reports no change.
    let mut pipeline: Pipeline<Config> = Pipeline::new();
    pipeline.add_pass(RewriteWholePass { replacement: "FOO" });
    let (outcome, formatted) = run_file(&mut parser(), &pipeline, &Config, &"foo".to_string(), None);
    assert!(outcome.changed);
    assert_eq!(formatted, "FOO");
    let (again, reformatted) = run_file(&mut parser(), &pipeline, &Config, &formatted, None);
    assert!(!again.changed);
    assert_eq!(reformatted, "FOO");
}

#[test]
fn test_format_target_content_and_change_flag() {
    // The computation behind writing "foo" formatted as "FOO" to disk.
    let mut pipeline: Pipeline<Config> = Pipeline::new();
    pipeline.add_pass(RewriteWholePass { replacement: "FOO" });
    let mut engine: Engine<JsonLanguage, Config> =
        Engine::new(pipeline).expect("the grammar should load");
    let outcomes = engine.check(
        &Config,
        &vec!["foo".to_string()],
        &vec![Some("/tmp/f".to_string())],
    );
    assert_eq!(outcomes.len(), 1);
    assert!(outcomes[0].changed);
    assert_eq!(outcomes[0].path, Some("/tmp/f".to_string()));
}

#[test]
fn test_diff_shape() {
    let mut pipeline: Pipeline<Config> = Pipeline::new();
    pipeline.add_pass(FixedPass { edits: vec![(4, 5, "9")] });
    let (outcome, _formatted) =
        run_file(&mut parser(), &pipeline, &Config, &"a\nb\nc\nd\n".to_string(), None);
    let diff = outcome.diff.expect("a changed outcome carries a diff");
    assert!(diff.starts_with("--- original\n+++ formatted\n@@ "));
    assert!(diff.contains("-c\n"));
    assert!(diff.contains("+9\n"));
    assert!(diff.contains(" a\n"));
    assert!(diff.contains(" d\n"));
}

#[test]
fn test_structured_pass_uses_default_transform() {
    let mut pipeline: Pipeline<Config> = Pipeline::new();
    pipeline.add_pass(JoinPass);
    let (outcome, formatted) =
        run_file(&mut parser(), &pipeline, &Config, &"a, b, c".to_string(), None);
    assert_eq!(formatted, "a;b;c");
    assert!(outcome.changed);
    assert!(outcome.diagnostics.is_empty());
}

#[test]
fn test_structured_pass_transform_failure_drops_target() {
    let mut pipeline: Pipeline<Config> = Pipeline::new();
    pipeline.add_pass(FailingTransformPass);
    let (outcome, formatted) =
        run_file(&mut parser(), &pipeline, &Config, &"abc".to_string(), None);
    assert_eq!(formatted, "abc");
    assert!(!outcome.changed);
    assert_eq!(outcome.diagnostics.len(), 1);
    let diag = &outcome.diagnostics[0];
    assert_eq!(diag.severity, fmt_runner::DiagnosticSeverity::Error);
    assert_eq!(diag.message, "cannot rework the items");
    assert_eq!(diag.range, Some((0, 3)));
    assert_eq!(diag.source, Some("pass#0".to_string()));
}

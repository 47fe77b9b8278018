use fmt_runner::{Edit, FormatterContext, Pass, Pipeline};

struct DummyConfig;

struct DummyPass;

impl Pass for DummyPass {
    type Config = DummyConfig;

    fn run(&self, _ctx: &mut FormatterContext<DummyConfig>) -> Vec<Edit> {
        Vec::new()
    }
}

#[test]
fn test_new_pipeline_is_empty() {
    let pipeline: Pipeline<DummyConfig> = Pipeline::new();
    assert!(pipeline.is_empty());
    assert_eq!(pipeline.len(), 0);
}

#[test]
fn test_default_pipeline_is_empty() {
    let pipeline: Pipeline<DummyConfig> = Pipeline::default();
    assert!(pipeline.is_empty());
}

#[test]
fn test_add_pass_grows_pipeline() {
    let mut pipeline: Pipeline<DummyConfig> = Pipeline::new();
    pipeline.add_pass(DummyPass);
    assert_eq!(pipeline.len(), 1);
    assert!(!pipeline.is_empty());
    pipeline.add_pass(DummyPass);
    assert_eq!(pipeline.len(), 2);
    assert_eq!(pipeline.passes().len(), 2);
}

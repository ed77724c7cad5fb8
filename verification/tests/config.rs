use sentence_pipeline::annotator::Annotator;
use sentence_pipeline::config::{AnnotatorConfig, ConfigError, PipelineConfig, TokenizerConfig};

fn config(batch_size: usize, read_ahead: usize) -> PipelineConfig {
    PipelineConfig {
        annotator: "tagger".to_string(),
        batch_size,
        description: "Dutch".to_string(),
        read_ahead,
        tokenizer: "alpino".to_string(),
    }
}

#[test]
fn pipeline_is_made_from_its_configuration() {
    let annotator =
        AnnotatorConfig { max_len: Some(100), syntaxdot_config: "m.conf".to_string() }.annotator();
    assert_eq!(annotator.max_len(), Some(100));
    let pipeline = config(32, 4).new_pipeline("nl", Some(annotator), true).unwrap();
    assert_eq!(pipeline.name(), "nl");
    assert_eq!(pipeline.description(), "Dutch");
    assert_eq!(pipeline.batch_size(), 32);
    assert_eq!(pipeline.read_ahead(), 4);
    assert_eq!(pipeline.annotator(), annotator);
}

#[test]
fn unknown_annotator_is_reported_first() {
    assert_eq!(
        config(0, 0).new_pipeline("nl", None, false),
        Err(ConfigError::UnknownAnnotator("tagger".to_string()))
    );
}

#[test]
fn unknown_tokenizer_is_reported() {
    assert_eq!(
        config(1, 1).new_pipeline("nl", Some(Annotator::new(None)), false),
        Err(ConfigError::UnknownTokenizer("alpino".to_string()))
    );
}

#[test]
fn unusable_sizes_are_rejected() {
    let annotator = Some(Annotator::new(None));
    assert_eq!(config(0, 1).new_pipeline("nl", annotator, true), Err(ConfigError::InvalidSizes));
    assert_eq!(config(1, 0).new_pipeline("nl", annotator, true), Err(ConfigError::InvalidSizes));
    assert_eq!(
        config(usize::MAX, 2).new_pipeline("nl", annotator, true),
        Err(ConfigError::InvalidSizes)
    );
    assert!(config(usize::MAX, 1).new_pipeline("nl", annotator, true).is_ok());
}

#[test]
fn tokenizer_configurations_compare() {
    assert_eq!(TokenizerConfig::WhitespaceTokenizer, TokenizerConfig::WhitespaceTokenizer);
    assert_ne!(
        TokenizerConfig::AlpinoTokenizer("a.proto".to_string()),
        TokenizerConfig::WhitespaceTokenizer
    );
}

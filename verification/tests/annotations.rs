use sentence_pipeline::annotations::{
    unwrap_sentences, Annotations, AnnotationsAction, AnnotationsEvent,
};
use sentence_pipeline::annotator::{Annotator, SentenceWithPieces};
use sentence_pipeline::error::PipelineError;
use sentence_pipeline::sentence::Sentence;

fn sentence(word: &str) -> Sentence {
    Sentence::from_forms(vec![word.to_string()])
}

fn payload(word: &str) -> SentenceWithPieces {
    SentenceWithPieces { pieces: vec![1, 2], sentence: sentence(word), token_offsets: vec![1] }
}

#[test]
fn chunk_goes_to_the_tagger_and_comes_back_without_its_encoding() {
    let mut stage = Annotations::new(Annotator::new(Some(10)), 4);
    assert_eq!(stage.batch_size(), 4);
    assert_eq!(stage.annotator().max_len(), Some(10));
    assert!(!stage.is_annotating());
    let chunk = vec![sentence("a"), sentence("b")];
    assert_eq!(
        stage.step::<String>(AnnotationsEvent::Chunk(Some(Ok(chunk.clone())))),
        AnnotationsAction::Annotate(chunk.clone())
    );
    assert!(stage.is_annotating());
    assert_eq!(
        stage.step::<String>(AnnotationsEvent::Annotated(Ok(vec![payload("a"), payload("b")]))),
        AnnotationsAction::Yield(chunk)
    );
    assert!(!stage.is_annotating());
}

#[test]
fn tagger_failure_is_an_inference_error() {
    let mut stage = Annotations::new(Annotator::new(None), 1);
    stage.step::<String>(AnnotationsEvent::Chunk(Some(Ok(vec![sentence("a")]))));
    assert_eq!(
        stage.step::<String>(AnnotationsEvent::Annotated(Err("no model".to_string()))),
        AnnotationsAction::Fail(PipelineError::Inference("no model".to_string()))
    );
    assert!(!stage.is_annotating());
    assert!(stage.has_failed());
}

#[test]
fn no_chunk_is_tagged_or_handed_on_after_a_tagger_failure() {
    let mut stage = Annotations::new(Annotator::new(None), 1);
    stage.step::<String>(AnnotationsEvent::Chunk(Some(Ok(vec![sentence("a")]))));
    stage.step::<String>(AnnotationsEvent::Annotated(Err("no model".to_string())));
    let later: Vec<AnnotationsEvent<String>> = vec![
        AnnotationsEvent::Chunk(Some(Ok(vec![sentence("b")]))),
        AnnotationsEvent::Annotated(Ok(vec![payload("b")])),
        AnnotationsEvent::Chunk(Some(Err(PipelineError::Segmentation))),
        AnnotationsEvent::Chunk(None),
    ];
    for event in later {
        assert!(stage.accepts_event(&event));
        assert_eq!(stage.step(event), AnnotationsAction::Done);
        assert!(stage.has_failed());
    }
}

#[test]
fn events_are_accepted_in_turn() {
    let mut stage = Annotations::new(Annotator::new(None), 1);
    let chunk: AnnotationsEvent<String> = AnnotationsEvent::Chunk(None);
    let answer: AnnotationsEvent<String> = AnnotationsEvent::Annotated(Ok(Vec::new()));
    assert!(stage.accepts_event(&chunk));
    assert!(!stage.accepts_event(&answer));
    stage.step::<String>(AnnotationsEvent::Chunk(Some(Ok(vec![sentence("a")]))));
    assert!(!stage.accepts_event(&chunk));
    assert!(stage.accepts_event(&answer));
}

#[test]
fn upstream_error_and_end_are_passed_on() {
    let mut stage = Annotations::new(Annotator::new(None), 1);
    assert_eq!(stage.step::<String>(AnnotationsEvent::Chunk(None)), AnnotationsAction::Done);
    assert!(!stage.has_failed());
    assert_eq!(
        stage.step::<String>(AnnotationsEvent::Chunk(Some(Err(PipelineError::Segmentation)))),
        AnnotationsAction::Fail(PipelineError::Segmentation)
    );
    assert!(stage.has_failed());
    let mut stage = Annotations::new(Annotator::new(None), 1);
    assert_eq!(
        stage.step(AnnotationsEvent::Chunk(Some(Err(PipelineError::Upstream("io".to_string()))))),
        AnnotationsAction::Fail(PipelineError::Upstream("io".to_string()))
    );
    assert!(stage.has_failed());
}

#[test]
fn unwrapping_keeps_order() {
    let sentences = unwrap_sentences(vec![payload("x"), payload("y"), payload("z")]);
    assert_eq!(sentences, vec![sentence("x"), sentence("y"), sentence("z")]);
    assert_eq!(unwrap_sentences(Vec::new()), Vec::<Sentence>::new());
}

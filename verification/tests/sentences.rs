use sentence_pipeline::error::PipelineError;
use sentence_pipeline::sentence::Sentence;
use sentence_pipeline::sentences::{Sentences, SentencesAction, SentencesEvent};

fn forms(words: &[&str]) -> Vec<String> {
    words.iter().map(|word| word.to_string()).collect()
}

fn line(text: &str) -> SentencesEvent<String> {
    SentencesEvent::Line(Some(Ok(text.to_string())))
}

#[test]
fn first_demand_asks_for_a_line() {
    let mut stage = Sentences::new();
    assert_eq!(stage.step::<String>(SentencesEvent::Next), SentencesAction::ReadLine);
}

#[test]
fn blank_lines_give_no_sentence_and_no_error() {
    for blank in ["", " ", "\t \t", "\u{a0}\u{2003}", "\r"] {
        let mut stage = Sentences::new();
        assert_eq!(stage.step(line(blank)), SentencesAction::ReadLine, "{:?}", blank);
        // The stage still awaits a line: the segmenter was not asked.
        assert!(stage.accepts_event::<String>(&SentencesEvent::Line(None)));
        assert!(!stage.accepts_event::<String>(&SentencesEvent::Tokenized(None)));
    }
}

#[test]
fn other_lines_go_to_the_segmenter() {
    let mut stage = Sentences::new();
    assert_eq!(stage.step(line(" a b ")), SentencesAction::Tokenize(" a b ".to_string()));
    assert!(stage.accepts_event::<String>(&SentencesEvent::Tokenized(None)));
    assert!(!stage.accepts_event::<String>(&SentencesEvent::Next));
    assert!(!stage.accepts_event::<String>(&SentencesEvent::Line(None)));
}

#[test]
fn sentences_of_a_line_are_handed_on_one_by_one() {
    let mut stage = Sentences::new();
    stage.step(line("a b. c."));
    let groups = vec![forms(&["a", "b", "."]), forms(&["c", "."])];
    assert_eq!(
        stage.step::<String>(SentencesEvent::Tokenized(Some(groups))),
        SentencesAction::Yield(Sentence::from_forms(forms(&["a", "b", "."])))
    );
    assert!(!stage.accepts_event::<String>(&SentencesEvent::Line(None)));
    assert_eq!(
        stage.step::<String>(SentencesEvent::Next),
        SentencesAction::Yield(Sentence::from_forms(forms(&["c", "."])))
    );
    // The queue is empty: more input is asked for.
    assert_eq!(stage.step::<String>(SentencesEvent::Next), SentencesAction::ReadLine);
    assert!(stage.accepts_event::<String>(&SentencesEvent::Line(None)));
}

#[test]
fn line_without_sentences_asks_for_the_next_line() {
    let mut stage = Sentences::new();
    stage.step(line("x"));
    assert_eq!(
        stage.step::<String>(SentencesEvent::Tokenized(Some(Vec::new()))),
        SentencesAction::ReadLine
    );
}

#[test]
fn rejected_line_fails_the_stream() {
    let mut stage = Sentences::new();
    stage.step(line("x"));
    assert_eq!(
        stage.step::<String>(SentencesEvent::Tokenized(None)),
        SentencesAction::Fail(PipelineError::Segmentation)
    );
    assert!(stage.has_failed());
}

#[test]
fn nothing_comes_out_of_a_failed_stage() {
    let failing: Vec<Vec<SentencesEvent<String>>> = vec![
        vec![line("x"), SentencesEvent::Tokenized(None)],
        vec![SentencesEvent::Line(Some(Err("io".to_string())))],
    ];
    for events in failing {
        let mut stage = Sentences::new();
        let mut last = SentencesAction::Done;
        for event in events {
            last = stage.step(event);
        }
        assert!(matches!(last, SentencesAction::Fail(_)));
        assert!(stage.has_failed());
        let later = vec![
            SentencesEvent::Next,
            line("more text"),
            SentencesEvent::Tokenized(Some(vec![forms(&["more"])])),
            SentencesEvent::Line(None),
            SentencesEvent::Next,
        ];
        for event in later {
            assert!(stage.accepts_event(&event));
            assert_eq!(stage.step(event), SentencesAction::Done);
        }
    }
}

#[test]
fn upstream_error_is_passed_on() {
    let mut stage = Sentences::new();
    assert_eq!(
        stage.step(SentencesEvent::Line(Some(Err("io".to_string())))),
        SentencesAction::Fail(PipelineError::Upstream("io".to_string()))
    );
}

#[test]
fn end_of_lines_ends_the_stream() {
    let mut stage = Sentences::new();
    assert_eq!(stage.step::<String>(SentencesEvent::Line(None)), SentencesAction::Done);
}

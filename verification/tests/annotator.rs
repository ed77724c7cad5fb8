use sentence_pipeline::annotator::{
    dispatch_order, Annotator, BatchRun, SentenceWithPieces, TagStep,
};
use sentence_pipeline::sentence::Sentence;

/// A sentence named `id` with `pieces` pieces.
fn payload(id: usize, pieces: usize) -> SentenceWithPieces {
    SentenceWithPieces {
        pieces: vec![0; pieces],
        sentence: Sentence::from_forms(vec![format!("s{}", id)]),
        token_offsets: vec![0],
    }
}

fn id_of(payload: &SentenceWithPieces) -> String {
    payload.sentence.tokens()[0].form().to_string()
}

/// Marks a sentence as tagged.
fn tag(mut payload: SentenceWithPieces) -> SentenceWithPieces {
    let form = payload.sentence.tokens()[0].form().to_string();
    payload.sentence.token_mut(0).insert_misc("tag".to_string(), Some(form.to_uppercase()));
    payload
}

/// Drives a run with a tagger that marks every sentence, and records the
/// batches in the order and shape in which they went out.
fn drive(mut run: BatchRun) -> (Vec<SentenceWithPieces>, Vec<Vec<String>>) {
    let mut batches = Vec::new();
    let mut tagged: Option<Result<Vec<SentenceWithPieces>, String>> = None;
    loop {
        match run.step(tagged) {
            TagStep::Tag(batch) => {
                assert_eq!(run.in_flight(), batch.len());
                batches.push(batch.iter().map(id_of).collect());
                tagged = Some(Ok(batch.into_iter().map(tag).collect()));
            }
            TagStep::Finish(sentences) => return (sentences, batches),
            TagStep::Abort(cause) => panic!("{}", cause),
        }
    }
}

#[test]
fn dispatch_order_sorts_by_length_then_arrival() {
    assert_eq!(dispatch_order(&vec![5, 1, 3, 1, 5, 0]), vec![5, 1, 3, 2, 0, 4]);
    assert_eq!(dispatch_order(&vec![]), Vec::<usize>::new());
    assert_eq!(dispatch_order(&vec![7]), vec![0]);
    assert_eq!(dispatch_order(&vec![2, 2, 2]), vec![0, 1, 2]);
    assert_eq!(dispatch_order(&vec![3, 2, 1]), vec![2, 1, 0]);
}

#[test]
fn batches_go_out_by_ascending_length_in_runs_of_batch_size() {
    let payloads = vec![payload(0, 9), payload(1, 2), payload(2, 5), payload(3, 2), payload(4, 7)];
    let run = Annotator::new(None).annotate_sentences(payloads, 2);
    let (_, batches) = drive(run);
    assert_eq!(batches, vec![vec!["s1", "s3"], vec!["s2", "s4"], vec!["s0"]]);
}

#[test]
fn output_keeps_arrival_order_for_any_batch_size() {
    let lens = [4usize, 9, 1, 1, 7, 3, 3, 8, 2, 6, 5, 0, 9, 4];
    for n in 0..=lens.len() {
        for batch_size in [1usize, 2, 3, 16] {
            let payloads: Vec<_> = (0..n).map(|i| payload(i, lens[i])).collect();
            let expected: Vec<_> = (0..n).map(|i| tag(payload(i, lens[i]))).collect();
            let run = BatchRun::new(payloads, batch_size);
            let (sentences, batches) = drive(run);
            assert_eq!(sentences, expected);
            assert_eq!(batches.len(), (n + batch_size - 1) / batch_size);
        }
    }
}

#[test]
fn sentences_over_the_bound_are_dropped_and_those_at_the_bound_kept() {
    let payloads = vec![payload(0, 3), payload(1, 4), payload(2, 5), payload(3, 4), payload(4, 0)];
    let run = Annotator::new(Some(4)).annotate_sentences(payloads, 16);
    let (sentences, _) = drive(run);
    let ids: Vec<String> = sentences.iter().map(id_of).collect();
    assert_eq!(ids, vec!["s0", "s1", "s3", "s4"]);
}

#[test]
fn without_a_bound_nothing_is_dropped() {
    let payloads = vec![payload(0, 3), payload(1, 4000)];
    let annotator = Annotator::new(None);
    assert_eq!(annotator.max_len(), None);
    let (sentences, _) = drive(annotator.annotate_sentences(payloads, 1));
    assert_eq!(sentences.len(), 2);
}

#[test]
fn all_dropped_gives_an_empty_chunk() {
    let payloads = vec![payload(0, 3), payload(1, 4)];
    let mut run = Annotator::new(Some(2)).annotate_sentences(payloads, 2);
    assert_eq!(run.step::<String>(None), TagStep::Finish(Vec::new()));
}

#[test]
fn empty_chunk_finishes_at_once() {
    let mut run = BatchRun::new(Vec::new(), 4);
    assert_eq!(run.step::<String>(None), TagStep::Finish(Vec::new()));
}

#[test]
fn tagger_failure_aborts_the_remaining_runs() {
    let payloads = vec![payload(0, 1), payload(1, 2), payload(2, 3)];
    let mut run = BatchRun::new(payloads, 1);
    let first = match run.step::<String>(None) {
        TagStep::Tag(batch) => batch,
        other => panic!("{:?}", other),
    };
    assert_eq!(first.len(), 1);
    match run.step::<String>(Some(Ok(first))) {
        TagStep::Tag(batch) => assert_eq!(id_of(&batch[0]), "s1"),
        other => panic!("{:?}", other),
    }
    assert_eq!(
        run.step(Some(Err("out of memory".to_string()))),
        TagStep::Abort("out of memory".to_string())
    );
}

#[test]
fn one_batch_is_out_at_a_time() {
    let payloads = vec![payload(0, 1), payload(1, 2), payload(2, 3)];
    let mut run = BatchRun::new(payloads, 2);
    assert_eq!(run.in_flight(), 0);
    let batch = match run.step::<String>(None) {
        TagStep::Tag(batch) => batch,
        other => panic!("{:?}", other),
    };
    assert_eq!(run.in_flight(), 2);
    match run.step::<String>(Some(Ok(batch))) {
        TagStep::Tag(batch) => assert_eq!(batch.len(), 1),
        other => panic!("{:?}", other),
    }
    assert_eq!(run.in_flight(), 1);
}

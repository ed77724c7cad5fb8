use sentence_pipeline::annotator::{Annotator, SentenceWithPieces, TagStep};
use sentence_pipeline::error::PipelineError;
use sentence_pipeline::pipeline::{Pipeline, TOKEN_CHUNK_LEN};
use sentence_pipeline::sentence::{Comment, Sentence, Token};
use sentence_pipeline::sentences::{SentencesAction, SentencesEvent};
use sentence_pipeline::streams::{
    AnnotationStream, ChunkedAction, PipelineAction, PipelineEvent,
};

/// A segmenter for the tests: sentences end in a full stop, tokens are
/// separated by spaces, and a line that holds `#` is rejected.
fn segment(line: &str) -> Option<Vec<Vec<String>>> {
    if line.contains('#') {
        return None;
    }
    Some(
        line.split_inclusive('.')
            .map(|s| s.split_ascii_whitespace().map(ToOwned::to_owned).collect::<Vec<String>>())
            .filter(|s| !s.is_empty())
            .collect(),
    )
}

/// An encoder for the tests: one piece for each character of each token.
fn encode(sentence: Sentence) -> SentenceWithPieces {
    let mut pieces = Vec::new();
    let mut token_offsets = Vec::new();
    for token in sentence.tokens() {
        token_offsets.push(pieces.len());
        pieces.extend(token.form().chars().map(|c| c as i64));
    }
    SentenceWithPieces { pieces, sentence, token_offsets }
}

/// A tagger for the tests: every token gets its form in upper case as
/// attribute `tag`. It fails on the call whose number is `fail_on`.
struct Tagger {
    calls: usize,
    fail_on: Option<usize>,
    batches: Vec<Vec<usize>>,
}

impl Tagger {
    fn new(fail_on: Option<usize>) -> Self {
        Tagger { calls: 0, fail_on, batches: Vec::new() }
    }

    fn tag(&mut self, batch: Vec<SentenceWithPieces>) -> Result<Vec<SentenceWithPieces>, String> {
        self.calls += 1;
        if self.fail_on == Some(self.calls) {
            return Err(format!("call {} failed", self.calls));
        }
        self.batches.push(batch.iter().map(|p| p.pieces.len()).collect());
        Ok(batch.into_iter().map(tagged).collect())
    }
}

fn tagged(mut payload: SentenceWithPieces) -> SentenceWithPieces {
    for i in 0..payload.sentence.len() {
        let token = payload.sentence.token_mut(i);
        let tag = token.form().to_uppercase();
        token.insert_misc("tag".to_string(), Some(tag));
    }
    payload
}

fn annotate(
    stream: &AnnotationStream,
    chunk: Vec<Sentence>,
    tagger: &mut Tagger,
) -> Result<Vec<SentenceWithPieces>, String> {
    let encoded = chunk.into_iter().map(encode).collect();
    let mut run = stream.annotator().annotate_sentences(encoded, stream.batch_size());
    let mut answer = None;
    loop {
        match run.step(answer) {
            TagStep::Tag(batch) => answer = Some(tagger.tag(batch)),
            TagStep::Finish(sentences) => return Ok(sentences),
            TagStep::Abort(cause) => return Err(cause),
        }
    }
}

/// Runs a whole request and returns the chunks that came out and how the
/// stream ended.
fn request(
    pipeline: &Pipeline,
    lines: Vec<Result<String, String>>,
    tagger: &mut Tagger,
) -> (Vec<Vec<Sentence>>, Option<PipelineError<String>>) {
    let mut stream = pipeline.annotations();
    let mut lines = lines.into_iter();
    let mut out = Vec::new();
    let mut event = PipelineEvent::Next;
    loop {
        assert!(stream.accepts_event(&event));
        event = match stream.step(event) {
            PipelineAction::ReadLine => PipelineEvent::Line(lines.next()),
            PipelineAction::Tokenize(line) => PipelineEvent::Tokenized(segment(&line)),
            PipelineAction::Annotate(chunk) => {
                PipelineEvent::Annotated(annotate(&stream, chunk, tagger))
            }
            PipelineAction::Yield(chunk) => {
                out.push(chunk);
                PipelineEvent::Next
            }
            PipelineAction::Fail(error) => return (out, Some(error)),
            PipelineAction::Done => return (out, None),
        };
    }
}

fn pipeline(name: &str, max_len: Option<usize>, batch_size: usize, read_ahead: usize) -> Pipeline {
    Pipeline::new("for tests", name, Annotator::new(max_len), batch_size, read_ahead)
}

/// `n` one-sentence lines; sentence `i` holds the token `w<i>` followed by
/// a token whose length varies with `i`.
fn numbered_lines(n: usize) -> Vec<Result<String, String>> {
    (0..n).map(|i| Ok(format!("w{} {}", i, "x".repeat(1 + (i * 7) % 5)))).collect()
}

fn first_forms(chunks: &[Vec<Sentence>]) -> Vec<String> {
    chunks.iter().flatten().map(|s| s.tokens()[0].form().to_string()).collect()
}

#[test]
fn output_order_is_input_order() {
    for (batch_size, read_ahead) in [(1usize, 1usize), (2, 1), (3, 2), (16, 4)] {
        for n in [0usize, 1, 2, 5, 6, 7, 17, 64, 65, 130] {
            let p = pipeline("p", None, batch_size, read_ahead);
            let (chunks, error) = request(&p, numbered_lines(n), &mut Tagger::new(None));
            assert_eq!(error, None);
            let expected: Vec<String> = (0..n).map(|i| format!("w{}", i)).collect();
            assert_eq!(first_forms(&chunks), expected);
            let chunk_len = batch_size * read_ahead;
            assert!(chunks.iter().all(|c| !c.is_empty() && c.len() <= chunk_len));
            assert_eq!(chunks.len(), (n + chunk_len - 1) / chunk_len);
        }
    }
}

#[test]
fn every_sentence_carries_the_pipeline_name_and_the_tags() {
    let p = pipeline("nl-ud-large", None, 2, 2);
    let (chunks, error) = request(&p, numbered_lines(9), &mut Tagger::new(None));
    assert_eq!(error, None);
    let stamp =
        Comment::AttrVal { attr: "pipeline".to_string(), val: "nl-ud-large".to_string() };
    for sentence in chunks.iter().flatten() {
        assert_eq!(sentence.comments(), &vec![stamp.clone()]);
        for token in sentence.tokens() {
            assert_eq!(token.get_misc("tag"), Some(&Some(token.form().to_uppercase())));
        }
    }
}

#[test]
fn batches_are_sorted_by_length_and_bounded_by_batch_size() {
    let p = pipeline("p", None, 3, 2);
    let mut tagger = Tagger::new(None);
    let (_, error) = request(&p, numbered_lines(14), &mut tagger);
    assert_eq!(error, None);
    // 14 sentences in chunks of 6, 6 and 2: two batches each, then one.
    let sizes: Vec<usize> = tagger.batches.iter().map(Vec::len).collect();
    assert_eq!(sizes, vec![3, 3, 3, 3, 2]);
    for batch in &tagger.batches {
        assert!(batch.windows(2).all(|pair| pair[0] <= pair[1]));
    }
    // Within a chunk, no sentence of a later batch is shorter than one of an
    // earlier batch.
    assert!(tagger.batches[0].last() <= tagger.batches[1].first());
    assert!(tagger.batches[2].last() <= tagger.batches[3].first());
}

#[test]
fn sentences_over_the_bound_are_absent_and_those_at_the_bound_present() {
    // "w<i>" has 2 pieces for i < 10; the second token has 1 to 5.
    let lines = vec![
        Ok("w0 xxx".to_string()),
        Ok("w1 xxxx".to_string()),
        Ok("w2 xx".to_string()),
        Ok("w3 xxxxx".to_string()),
        Ok("w4 xxx".to_string()),
    ];
    let p = pipeline("p", Some(5), 2, 1);
    let (chunks, error) = request(&p, lines, &mut Tagger::new(None));
    assert_eq!(error, None);
    assert_eq!(first_forms(&chunks), vec!["w0", "w2", "w4"]);
}

#[test]
fn tagger_failure_on_second_call_yields_first_chunk_then_error() {
    // Three chunks of one batch each.
    let p = pipeline("p", None, 2, 1);
    let mut tagger = Tagger::new(Some(2));
    let (chunks, error) = request(&p, numbered_lines(6), &mut tagger);
    assert_eq!(first_forms(&chunks), vec!["w0", "w1"]);
    assert_eq!(error, Some(PipelineError::Inference("call 2 failed".to_string())));
    // The third chunk never reached the tagger.
    assert_eq!(tagger.calls, 2);
}

#[test]
fn nothing_comes_after_a_failure() {
    // The line source fails, the segmenter rejects a line, the tagger fails.
    let requests: Vec<(Vec<Result<String, String>>, Option<usize>)> = vec![
        (vec![Ok("a.".to_string()), Err("io".to_string()), Ok("b.".to_string())], None),
        (vec![Ok("a.".to_string()), Ok("# bad".to_string()), Ok("b.".to_string())], None),
        (vec![Ok("a.".to_string()), Ok("b.".to_string()), Ok("c.".to_string())], Some(1)),
    ];
    for (lines, fail_on) in requests {
        let p = pipeline("p", None, 1, 1);
        let mut tagger = Tagger::new(fail_on);
        let mut stream = p.annotations();
        let mut lines = lines.into_iter();
        let mut event = PipelineEvent::Next;
        loop {
            event = match stream.step(event) {
                PipelineAction::ReadLine => PipelineEvent::Line(lines.next()),
                PipelineAction::Tokenize(line) => PipelineEvent::Tokenized(segment(&line)),
                PipelineAction::Annotate(chunk) => {
                    PipelineEvent::Annotated(annotate(&stream, chunk, &mut tagger))
                }
                PipelineAction::Yield(_) => PipelineEvent::Next,
                PipelineAction::Fail(_) => break,
                PipelineAction::Done => panic!("the request should fail"),
            };
        }
        let calls = tagger.calls;
        // Whatever the stream is told from now on, it has ended.
        let later: Vec<PipelineEvent<String>> = vec![
            PipelineEvent::Next,
            PipelineEvent::Line(Some(Ok("d.".to_string()))),
            PipelineEvent::Tokenized(segment("d. e.")),
            PipelineEvent::Annotated(Ok(vec![encode(Sentence::from_forms(vec!["x".to_string()]))])),
            PipelineEvent::Line(None),
            PipelineEvent::Next,
        ];
        for event in later {
            assert!(stream.accepts_event(&event));
            assert_eq!(stream.step(event), PipelineAction::Done);
        }
        assert_eq!(tagger.calls, calls);
    }
}

#[test]
fn failure_inside_a_chunk_gives_none_of_that_chunk() {
    // One chunk of 4 sentences in two batches; the second batch fails.
    let p = pipeline("p", None, 2, 2);
    let mut tagger = Tagger::new(Some(2));
    let (chunks, error) = request(&p, numbered_lines(4), &mut tagger);
    assert!(chunks.is_empty());
    assert_eq!(error, Some(PipelineError::Inference("call 2 failed".to_string())));
}

#[test]
fn blank_lines_are_skipped() {
    let lines = vec![
        Ok("".to_string()),
        Ok("a b.".to_string()),
        Ok("   \t".to_string()),
        Ok("\u{a0}".to_string()),
        Ok("c.".to_string()),
        Ok("".to_string()),
    ];
    let p = pipeline("p", None, 1, 1);
    let (chunks, error) = request(&p, lines, &mut Tagger::new(None));
    assert_eq!(error, None);
    assert_eq!(first_forms(&chunks), vec!["a", "c."]);
}

#[test]
fn rejected_line_aborts_with_a_segmentation_error() {
    let lines = vec![Ok("a.".to_string()), Ok("b.".to_string()), Ok("# bad".to_string())];
    let p = pipeline("p", None, 1, 1);
    let (chunks, error) = request(&p, lines, &mut Tagger::new(None));
    assert_eq!(first_forms(&chunks), vec!["a.", "b."]);
    assert_eq!(error, Some(PipelineError::Segmentation));
}

#[test]
fn request_upstream_error_discards_the_partial_chunk() {
    let lines =
        vec![Ok("a.".to_string()), Ok("b.".to_string()), Ok("c.".to_string()), Err("io".to_string())];
    let p = pipeline("p", None, 2, 1);
    let mut tagger = Tagger::new(None);
    let (chunks, error) = request(&p, lines, &mut tagger);
    // "c." was buffered when the error came and does not survive.
    assert_eq!(first_forms(&chunks), vec!["a.", "b."]);
    assert_eq!(error, Some(PipelineError::Upstream("io".to_string())));
    assert_eq!(tagger.calls, 1);
}

#[test]
fn several_sentences_of_one_line_cross_chunk_borders() {
    let lines = vec![Ok("a. b. c. d. e.".to_string()), Ok("f.".to_string())];
    let p = pipeline("p", None, 2, 1);
    let (chunks, error) = request(&p, lines, &mut Tagger::new(None));
    assert_eq!(error, None);
    let sizes: Vec<usize> = chunks.iter().map(Vec::len).collect();
    assert_eq!(sizes, vec![2, 2, 2]);
    assert_eq!(first_forms(&chunks), vec!["a.", "b.", "c.", "d.", "e.", "f."]);
}

#[test]
fn forms_are_normalized_before_they_are_tagged() {
    let lines = vec![Ok("«e\u{301}»".to_string())];
    let p = pipeline("p", None, 1, 1);
    let (chunks, _) = request(&p, lines, &mut Tagger::new(None));
    let token: &Token = &chunks[0][0].tokens()[0];
    assert_eq!(token.form(), "\"\u{e9}\"");
    assert_eq!(token.get_misc("orth"), Some(&Some("«e\u{301}»".to_string())));
    assert_eq!(token.get_misc("tag"), Some(&Some("\"\u{c9}\"".to_string())));
}

#[test]
fn many_instances_do_not_mix_their_outputs() {
    // A hundred requests of one pipeline, stepped in turn, each with its own
    // input; all share one tagger.
    let p = pipeline("shared", None, 3, 2);
    let mut tagger = Tagger::new(None);
    let mut streams: Vec<AnnotationStream> = (0..100).map(|_| p.annotations()).collect();
    let mut inputs: Vec<std::vec::IntoIter<String>> = (0..100usize)
        .map(|r| (0..(r % 9)).map(|i| format!("r{}s{}", r, i)).collect::<Vec<_>>().into_iter())
        .collect();
    let mut events: Vec<Option<PipelineEvent<String>>> =
        (0..100).map(|_| Some(PipelineEvent::Next)).collect();
    let mut outputs: Vec<Vec<String>> = vec![Vec::new(); 100];
    let mut open = 100;
    while open > 0 {
        for r in 0..100 {
            let Some(event) = events[r].take() else { continue };
            let action = streams[r].step(event);
            events[r] = match action {
                PipelineAction::ReadLine => Some(PipelineEvent::Line(inputs[r].next().map(Ok))),
                PipelineAction::Tokenize(line) => Some(PipelineEvent::Tokenized(segment(&line))),
                PipelineAction::Annotate(chunk) => {
                    Some(PipelineEvent::Annotated(annotate(&streams[r], chunk, &mut tagger)))
                }
                PipelineAction::Yield(chunk) => {
                    outputs[r].extend(first_forms(&[chunk]));
                    Some(PipelineEvent::Next)
                }
                PipelineAction::Fail(error) => panic!("{:?}", error),
                PipelineAction::Done => {
                    open -= 1;
                    None
                }
            };
        }
    }
    for r in 0..100usize {
        let expected: Vec<String> = (0..(r % 9)).map(|i| format!("r{}s{}", r, i)).collect();
        assert_eq!(outputs[r], expected);
    }
}

#[test]
fn sentence_stream_normalizes_what_it_hands_on() {
    let p = pipeline("p", None, 1, 1);
    let mut stream = p.sentences();
    assert_eq!(stream.step::<String>(SentencesEvent::Next), SentencesAction::ReadLine);
    assert_eq!(
        stream.step::<String>(SentencesEvent::Line(Some(Ok("“hi”".to_string())))),
        SentencesAction::Tokenize("“hi”".to_string())
    );
    let action = stream.step::<String>(SentencesEvent::Tokenized(segment("“hi”")));
    let mut token = Token::new("\"hi\"");
    token.insert_misc("orth".to_string(), Some("“hi”".to_string()));
    let mut expected = Sentence::new();
    expected.push(token);
    assert_eq!(action, SentencesAction::Yield(expected));
}

#[test]
fn token_chunks_hold_sixteen_sentences() {
    assert_eq!(TOKEN_CHUNK_LEN, 16);
    let p = pipeline("p", None, 1, 1);
    let mut stream = p.token_chunks();
    let mut lines = (0..40).map(|i| format!("t{}", i));
    let mut sizes = Vec::new();
    let mut event: SentencesEvent<String> = SentencesEvent::Next;
    loop {
        assert!(stream.accepts_event(&event));
        event = match stream.step(event) {
            ChunkedAction::ReadLine => SentencesEvent::Line(lines.next().map(Ok)),
            ChunkedAction::Tokenize(line) => SentencesEvent::Tokenized(segment(&line)),
            ChunkedAction::Yield(chunk) => {
                assert!(chunk.iter().all(|s| s.comments().is_empty()));
                sizes.push(chunk.len());
                SentencesEvent::Next
            }
            ChunkedAction::Fail(error) => panic!("{:?}", error),
            ChunkedAction::Done => break,
        };
    }
    assert_eq!(sizes, vec![16, 16, 8]);
}

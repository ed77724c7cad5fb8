use sentence_pipeline::metadata::{stamp_chunk, Metadata};
use sentence_pipeline::sentence::{Comment, Sentence};

fn sentence(words: &[&str]) -> Sentence {
    Sentence::from_forms(words.iter().map(|word| word.to_string()).collect())
}

fn pipeline_comment(name: &str) -> Comment {
    Comment::AttrVal { attr: "pipeline".to_string(), val: name.to_string() }
}

#[test]
fn every_sentence_is_stamped() {
    let mut chunk = vec![sentence(&["a"]), sentence(&["b", "c"]), sentence(&[])];
    stamp_chunk(&mut chunk, "nl-ud");
    for stamped in &chunk {
        assert_eq!(stamped.comments().last(), Some(&pipeline_comment("nl-ud")));
    }
    assert_eq!(chunk[1].len(), 2);
}

#[test]
fn stamp_follows_earlier_comments() {
    let mut first = sentence(&["a"]);
    first.push_comment(Comment::String("text".to_string()));
    let mut chunk = vec![first];
    stamp_chunk(&mut chunk, "p");
    assert_eq!(
        chunk[0].comments(),
        &vec![Comment::String("text".to_string()), pipeline_comment("p")]
    );
}

#[test]
fn stage_stamps_chunks_and_passes_the_rest_on() {
    let stage = Metadata::new("p".to_string());
    let out = stage.step::<String>(Some(Ok(vec![sentence(&["a"])])));
    let mut expected = sentence(&["a"]);
    expected.push_comment(pipeline_comment("p"));
    assert_eq!(out, Some(Ok(vec![expected])));
    assert_eq!(stage.step::<String>(None), None);
    assert_eq!(stage.step(Some(Err("e".to_string()))), Some(Err("e".to_string())));
}

#[test]
fn empty_chunk_stays_empty() {
    let mut chunk: Vec<Sentence> = Vec::new();
    stamp_chunk(&mut chunk, "p");
    assert!(chunk.is_empty());
}

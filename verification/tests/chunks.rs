use sentence_pipeline::chunks::TryChunks;
use sentence_pipeline::stage::Step;

/// Feeds every item to the accumulator, then the end of the upstream until
/// the accumulator is done, and collects what it hands on.
fn run_chunks<I>(items: Vec<I>, chunk_len: usize) -> Result<Vec<Vec<I>>, String> {
    let mut chunks = TryChunks::new(chunk_len);
    let mut out = Vec::new();
    let mut upstream = items.into_iter();
    loop {
        let polled: Option<Result<I, String>> = upstream.next().map(Ok);
        match chunks.step(polled) {
            Step::Pull => {}
            Step::Yield(chunk) => out.push(chunk),
            Step::Fail(error) => return Err(error),
            Step::Done => return Ok(out),
        }
    }
}

#[test]
fn can_chunk() {
    let chunks = run_chunks((1..6).collect(), 3).unwrap();

    assert_eq!(chunks, vec![vec![1, 2, 3], vec![4, 5]]);
}

#[test]
fn can_chunk_empty_stream() {
    let chunks: Vec<Vec<usize>> = run_chunks(Vec::new(), 3).unwrap();

    assert_eq!(chunks, vec![] as Vec<Vec<usize>>);
}

#[test]
fn can_chunk_multiple_of_chunk_size() {
    let chunks = run_chunks((1..=6).collect(), 3).unwrap();

    assert_eq!(chunks, vec![vec![1, 2, 3], vec![4, 5, 6]]);
}

#[test]
fn chunks_concatenate_to_the_input() {
    for len in 0..20usize {
        for chunk_len in 1..7usize {
            let items: Vec<usize> = (0..len).collect();
            let chunks = run_chunks(items.clone(), chunk_len).unwrap();
            assert!(chunks.iter().all(|chunk| !chunk.is_empty() && chunk.len() <= chunk_len));
            if let Some((_, full)) = chunks.split_last() {
                assert!(full.iter().all(|chunk| chunk.len() == chunk_len));
            }
            assert_eq!(chunks.concat(), items);
        }
    }
}

#[test]
fn chunk_sizes_follow_the_capacity() {
    let sizes = |len: usize| -> Vec<usize> {
        run_chunks((0..len).collect::<Vec<usize>>(), 3).unwrap().iter().map(Vec::len).collect()
    };
    assert_eq!(sizes(5), vec![3, 2]);
    assert_eq!(sizes(6), vec![3, 3]);
    assert_eq!(sizes(0), Vec::<usize>::new());
}

#[test]
fn upstream_error_discards_the_partial_buffer() {
    let mut chunks: TryChunks<u32> = TryChunks::new(3);
    assert_eq!(chunks.step::<String>(Some(Ok(1))), Step::Pull);
    assert_eq!(chunks.step::<String>(Some(Ok(2))), Step::Pull);
    assert_eq!(chunks.step(Some(Err("broken".to_string()))), Step::Fail("broken".to_string()));
    // What was buffered before the error is gone.
    assert_eq!(chunks.step::<String>(None), Step::Done);
}

#[test]
fn chunk_of_one_is_handed_on_at_once() {
    let mut chunks: TryChunks<u32> = TryChunks::new(1);
    assert_eq!(chunks.step::<String>(Some(Ok(7))), Step::Yield(vec![7]));
    assert_eq!(chunks.step::<String>(None), Step::Done);
}

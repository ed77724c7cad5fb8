//! The output side: chunks of sentences are serialized as CoNLL-U blocks and
//! handed out as bytes, a blank line between any two blocks.

use crate::error::PipelineError;
use crate::sentence::{sentence_views, Comment, Sentence, SentenceView};
use conllu::io::{WriteSentence, Writer};
use vstd::prelude::*;

verus! {

/// The error type of `conllu`.
#[verifier::external_type_specification]
#[verifier::external_body]
pub struct ExConlluError(conllu::Error);

/// The CoNLL-U text of a sentence, as `conllu` writes it: a line for each
/// comment, then a line for each token.
pub uninterp spec fn conllu_block(sentence: SentenceView) -> Seq<u8>;

/// `WriteSentence::write_sentence` of `conllu`, on a fresh `Writer` over an
/// empty buffer. The sentence is handed over as a graph with the same
/// comments, forms and attributes. The call succeeds, since formatting into
/// a buffer in memory cannot fail, and the buffer then holds the sentence's
/// CoNLL-U text.
#[verifier::external_body]
fn write_sentence(sentence: &Sentence) -> (written: Result<Vec<u8>, conllu::Error>)
    ensures
        written is Ok,
        written matches Ok(bytes) ==> bytes@ == conllu_block(sentence@),
{
    let mut graph = udgraph::graph::Sentence::new();
    for comment in sentence.comments() {
        graph.comments_mut().push(match comment.clone() {
            Comment::AttrVal { attr, val } => udgraph::graph::Comment::AttrVal { attr, val },
            Comment::String(text) => udgraph::graph::Comment::String(text),
        });
    }
    for token in sentence.tokens() {
        let mut node = udgraph::token::Token::new(token.form());
        node.set_misc(token.misc().iter().cloned().collect());
        graph.push(node);
    }
    let mut bytes = Vec::new();
    let written = Writer::new(&mut bytes).write_sentence(&graph);
    written.map(|_| bytes)
}

/// The line feed.
pub open spec fn line_feed() -> u8 {
    0x0a
}

/// The blocks of a chunk, each separated from the next by a line feed.
pub open spec fn joined(blocks: Seq<Seq<u8>>) -> Seq<u8>
    decreases blocks.len(),
{
    if blocks.len() == 0 {
        Seq::empty()
    } else if blocks.len() == 1 {
        blocks[0]
    } else {
        joined(blocks.drop_last()) + seq![line_feed()] + blocks.last()
    }
}

/// The bytes of a chunk on the output: its blocks joined, behind a line feed
/// unless the chunk is the first of the stream.
pub open spec fn framed(first: bool, blocks: Seq<Seq<u8>>) -> Seq<u8> {
    if first {
        joined(blocks)
    } else {
        seq![line_feed()] + joined(blocks)
    }
}

/// The CoNLL-U text of each sentence of a chunk.
pub open spec fn blocks_of(chunk: Seq<SentenceView>) -> Seq<Seq<u8>> {
    Seq::new(chunk.len(), |i: int| conllu_block(chunk[i]))
}

/// The views of a run of byte buffers.
pub open spec fn byte_rows(blocks: Seq<Vec<u8>>) -> Seq<Seq<u8>> {
    Seq::new(blocks.len(), |i: int| blocks[i]@)
}

/// Serializes every sentence of a chunk: the CoNLL-U text of each, in
/// order. Serialization into memory succeeds for every chunk.
pub fn serialize_chunk<E>(chunk: &Vec<Sentence>) -> (blocks: Result<Vec<Vec<u8>>, PipelineError<E>>)
    ensures
        blocks matches Ok(rows) && byte_rows(rows@) == blocks_of(sentence_views(chunk@)),
{
    let mut rows: Vec<Vec<u8>> = Vec::new();
    let mut i: usize = 0;
    while i < chunk.len()
        invariant
            i <= chunk.len(),
            rows@.len() == i,
            forall|j: int| 0 <= j < i ==> (#[trigger] rows@[j])@ == conllu_block(chunk@[j]@),
        decreases chunk.len() - i,
    {
        match write_sentence(&chunk[i]) {
            Ok(bytes) => {
                rows.push(bytes);
            },
            Err(error) => {
                return Err(PipelineError::Serialization(error.to_string()));
            },
        }
        i += 1;
    }
    assert(byte_rows(rows@) =~= blocks_of(sentence_views(chunk@)));
    Ok(rows)
}

/// Appends all bytes of `block` to `out`.
fn append_bytes(out: &mut Vec<u8>, block: &Vec<u8>)
    ensures
        final(out)@ == old(out)@ + block@,
{
    let mut i: usize = 0;
    while i < block.len()
        invariant
            i <= block.len(),
            out@ == old(out)@ + block@.take(i as int),
        decreases block.len() - i,
    {
        out.push(block[i]);
        assert(block@.take(i + 1) =~= block@.take(i as int).push(block@[i as int]));
        i += 1;
    }
    assert(block@.take(block@.len() as int) =~= block@);
}

/// The bytes of a chunk on the output, from the blocks of its sentences.
pub fn frame_blocks(first: bool, blocks: &Vec<Vec<u8>>) -> (bytes: Vec<u8>)
    ensures
        bytes@ == framed(first, byte_rows(blocks@)),
{
    let ghost rows = byte_rows(blocks@);
    let mut bytes: Vec<u8> = Vec::new();
    if !first {
        bytes.push(0x0a);
    }
    let ghost lead = bytes@;
    let mut i: usize = 0;
    while i < blocks.len()
        invariant
            i <= blocks.len(),
            rows == byte_rows(blocks@),
            bytes@ == lead + joined(rows.take(i as int)),
        decreases blocks.len() - i,
    {
        proof {
            assert(rows.take(i + 1).drop_last() =~= rows.take(i as int));
            assert(rows.take(i + 1).last() == blocks@[i as int]@);
        }
        if i > 0 {
            bytes.push(0x0a);
        }
        append_bytes(&mut bytes, &blocks[i]);
        assert(bytes@ =~= lead + joined(rows.take(i + 1)));
        i += 1;
    }
    assert(rows.take(rows.len() as int) =~= rows);
    bytes
}

/// Joining two runs of blocks, neither empty, is joining each and putting a
/// line feed between them.
pub proof fn lemma_joined_concat(first: Seq<Seq<u8>>, second: Seq<Seq<u8>>)
    requires
        first.len() > 0,
        second.len() > 0,
    ensures
        joined(first + second) == joined(first) + seq![line_feed()] + joined(second),
    decreases second.len(),
{
    let all = first + second;
    assert(all.drop_last() =~= first + second.drop_last());
    assert(all.last() == second.last());
    if second.len() == 1 {
        assert(first + second.drop_last() =~= first);
        assert(joined(all) =~= joined(first) + seq![line_feed()] + joined(second));
    } else {
        lemma_joined_concat(first, second.drop_last());
        assert(joined(all) =~= joined(first) + seq![line_feed()] + joined(second));
    }
}

/// Chunk borders do not show in the output: the bytes of a chunk followed by
/// the bytes of the next chunk are the bytes of one chunk that holds the
/// blocks of both.
pub proof fn lemma_framed_concat(first_chunk: bool, first: Seq<Seq<u8>>, second: Seq<Seq<u8>>)
    requires
        first.len() > 0,
        second.len() > 0,
    ensures
        framed(first_chunk, first) + framed(false, second) == framed(first_chunk, first + second),
{
    lemma_joined_concat(first, second);
    assert(framed(first_chunk, first) + framed(false, second) =~= framed(
        first_chunk,
        first + second,
    ));
}

/// The contract of filling the reader. At the end of the upstream the answer
/// is `Ok(false)` and an upstream error is passed on, the reader staying as
/// it was. A chunk becomes the bytes to be read, framed, and the answer is
/// `Ok(true)`.
pub open spec fn fill_spec<E>(
    first: bool,
    pending: Seq<u8>,
    polled: Option<Result<Vec<Sentence>, PipelineError<E>>>,
    filled: Result<bool, PipelineError<E>>,
    first_after: bool,
    pending_after: Seq<u8>,
) -> bool {
    match polled {
        None => filled == Ok::<bool, PipelineError<E>>(false) && pending_after == pending
            && first_after == first,
        Some(Err(error)) => filled == Err::<bool, PipelineError<E>>(error) && pending_after
            == pending && first_after == first,
        Some(Ok(chunk)) => filled == Ok::<bool, PipelineError<E>>(true) && !first_after
            && pending_after == framed(first, blocks_of(sentence_views(chunk@))),
    }
}

/// The reader's state: whether anything has been put out yet, and the bytes
/// that are still to be read.
pub struct SentenceStreamReader {
    first_output: bool,
    parse_buf: Vec<u8>,
    position: usize,
}

impl SentenceStreamReader {
    /// The bytes that are still to be read.
    pub closed spec fn pending(&self) -> Seq<u8> {
        self.parse_buf@.skip(self.position as int)
    }

    /// Whether no chunk has been put out yet.
    pub closed spec fn at_start(&self) -> bool {
        self.first_output
    }

    /// The state is consistent.
    pub closed spec fn wf(&self) -> bool {
        self.position <= self.parse_buf@.len()
    }

    /// A reader that has put out nothing.
    pub fn new() -> (reader: SentenceStreamReader)
        ensures
            reader.wf(),
            reader.at_start(),
            reader.pending() == Seq::<u8>::empty(),
    {
        SentenceStreamReader { first_output: true, parse_buf: Vec::new(), position: 0 }
    }

    /// Whether all bytes have been read, so that the next chunk is wanted.
    pub fn is_empty(&self) -> (empty: bool)
        requires
            self.wf(),
        ensures
            empty == (self.pending().len() == 0),
    {
        self.position == self.parse_buf.len()
    }

    /// Makes the blocks of a chunk the bytes to be read, behind a line feed
    /// unless the chunk is the first.
    pub fn load(&mut self, blocks: &Vec<Vec<u8>>)
        ensures
            final(self).wf(),
            !final(self).at_start(),
            final(self).pending() == framed(old(self).at_start(), byte_rows(blocks@)),
    {
        self.parse_buf = frame_blocks(self.first_output, blocks);
        self.position = 0;
        self.first_output = false;
    }

    /// Takes what the upstream gave, which is asked for only when nothing is
    /// left to be read. A chunk is serialized and becomes the bytes to be
    /// read, and the answer is `Ok(true)`; at the end of the upstream the
    /// answer is `Ok(false)`; an upstream error is passed on.
    pub fn fill<E>(&mut self, polled: Option<Result<Vec<Sentence>, PipelineError<E>>>) -> (filled:
        Result<bool, PipelineError<E>>)
        requires
            old(self).wf(),
            old(self).pending().len() == 0,
        ensures
            final(self).wf(),
            fill_spec(
                old(self).at_start(),
                old(self).pending(),
                polled,
                filled,
                final(self).at_start(),
                final(self).pending(),
            ),
    {
        match polled {
            None => Ok(false),
            Some(Err(error)) => Err(error),
            Some(Ok(chunk)) => {
                match serialize_chunk(&chunk) {
                    Ok(blocks) => {
                        self.load(&blocks);
                        Ok(true)
                    },
                    Err(error) => Err(error),
                }
            },
        }
    }

    /// Copies as many pending bytes as fit into `buf`, from its start on, and
    /// returns their number.
    pub fn read(&mut self, buf: &mut [u8]) -> (copied: usize)
        requires
            old(self).wf(),
        ensures
            final(self).wf(),
            final(self).at_start() == old(self).at_start(),
            copied == if old(buf)@.len() <= old(self).pending().len() {
                old(buf)@.len()
            } else {
                old(self).pending().len()
            },
            final(buf)@ == old(self).pending().take(copied as int) + old(buf)@.skip(copied as int),
            final(self).pending() == old(self).pending().skip(copied as int),
    {
        let len = self.parse_buf.len();
        let available = len - self.position;
        let bytes_to_copy = if buf.len() <= available {
            buf.len()
        } else {
            available
        };
        let ghost pending = self.pending();
        let mut i: usize = 0;
        while i < bytes_to_copy
            invariant
                i <= bytes_to_copy,
                bytes_to_copy <= available,
                len == self.parse_buf@.len(),
                available == len - self.position,
                bytes_to_copy <= buf@.len(),
                buf@.len() == old(buf)@.len(),
                pending == self.parse_buf@.skip(self.position as int),
                buf@ == pending.take(i as int) + old(buf)@.skip(i as int),
            decreases bytes_to_copy - i,
        {
            buf[i] = self.parse_buf[self.position + i];
            assert(buf@ =~= pending.take(i + 1) + old(buf)@.skip(i + 1));
            i += 1;
        }
        self.position = self.position + bytes_to_copy;
        assert(self.pending() =~= pending.skip(bytes_to_copy as int));
        bytes_to_copy
    }
}

} // verus!

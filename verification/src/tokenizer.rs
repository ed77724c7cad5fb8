//! A segmenter that needs no resources: sentences are lines, tokens are what
//! ASCII whitespace separates.

use crate::text::{ascii_space, is_ascii_space, text_rows, texts};
use vstd::prelude::*;

verus! {

/// The lines of a text. A line feed ends a line and is not part of it; what
/// follows the last line feed is a line of its own unless it is empty.
pub open spec fn lines_of(text: Seq<char>) -> Seq<Seq<char>>
    decreases text.len(),
{
    if text.len() == 0 {
        Seq::empty()
    } else {
        let before = lines_of(text.drop_last());
        let c = text.last();
        if text.len() >= 2 && text[text.len() - 2] != '\n' {
            if c == '\n' {
                before
            } else {
                before.drop_last().push(before.last().push(c))
            }
        } else {
            if c == '\n' {
                before.push(Seq::empty())
            } else {
                before.push(seq![c])
            }
        }
    }
}

/// The words of a line: its maximal runs of characters that are not ASCII
/// whitespace, in order.
pub open spec fn words_of(line: Seq<char>) -> Seq<Seq<char>>
    decreases line.len(),
{
    if line.len() == 0 {
        Seq::empty()
    } else {
        let before = words_of(line.drop_last());
        let c = line.last();
        if is_ascii_space(c) {
            before
        } else if line.len() >= 2 && !is_ascii_space(line[line.len() - 2]) {
            before.drop_last().push(before.last().push(c))
        } else {
            before.push(seq![c])
        }
    }
}

/// The words of each line of a run of lines.
pub open spec fn rows_of(lines: Seq<Seq<char>>) -> Seq<Seq<Seq<char>>> {
    Seq::new(lines.len(), |i: int| words_of(lines[i]))
}

/// The sentences of a text: the words of each of its lines.
pub open spec fn tokenized(text: Seq<char>) -> Seq<Seq<Seq<char>>> {
    rows_of(lines_of(text))
}

/// A text that does not end in a line feed has a last line, and that line
/// ends as the text does.
proof fn lemma_open_line(text: Seq<char>)
    requires
        text.len() > 0,
        text.last() != '\n',
    ensures
        lines_of(text).len() > 0,
        lines_of(text).last().len() > 0,
        lines_of(text).last().last() == text.last(),
        lines_of(text).last().len() >= 2 ==> text.len() >= 2 && lines_of(text).last()[lines_of(
            text,
        ).last().len() - 2] == text[text.len() - 2],
        lines_of(text).last().len() == 1 ==> (text.len() == 1 || text[text.len() - 2] == '\n'),
    decreases text.len(),
{
    if text.len() >= 2 && text[text.len() - 2] != '\n' {
        lemma_open_line(text.drop_last());
    }
}

/// A line has a word that is still growing exactly when it ends in a
/// character that is not whitespace.
proof fn lemma_words_nonempty(line: Seq<char>)
    requires
        line.len() > 0,
        !is_ascii_space(line.last()),
    ensures
        words_of(line).len() > 0,
        words_of(line).last().len() > 0,
    decreases line.len(),
{
    if line.len() >= 2 && !is_ascii_space(line[line.len() - 2]) {
        lemma_words_nonempty(line.drop_last());
    }
}

/// Every word holds at least one character and no ASCII whitespace.
pub proof fn lemma_words_are_solid(line: Seq<char>, k: int, i: int)
    requires
        0 <= k < words_of(line).len(),
        0 <= i < words_of(line)[k].len(),
    ensures
        !is_ascii_space(words_of(line)[k][i]),
    decreases line.len(),
{
    if line.len() > 0 {
        let before = words_of(line.drop_last());
        let c = line.last();
        if is_ascii_space(c) {
            lemma_words_are_solid(line.drop_last(), k, i);
        } else if line.len() >= 2 && !is_ascii_space(line[line.len() - 2]) {
            lemma_words_nonempty(line.drop_last());
            if k < before.len() - 1 {
                lemma_words_are_solid(line.drop_last(), k, i);
            } else if i < before.last().len() {
                lemma_words_are_solid(line.drop_last(), k, i);
            }
        } else if k < before.len() {
            lemma_words_are_solid(line.drop_last(), k, i);
        }
    }
}

/// No word is empty.
pub proof fn lemma_words_are_not_empty(line: Seq<char>, k: int)
    requires
        0 <= k < words_of(line).len(),
    ensures
        words_of(line)[k].len() > 0,
    decreases line.len(),
{
    if line.len() > 0 {
        let before = words_of(line.drop_last());
        let c = line.last();
        if is_ascii_space(c) {
            lemma_words_are_not_empty(line.drop_last(), k);
        } else if line.len() >= 2 && !is_ascii_space(line[line.len() - 2]) {
            lemma_words_nonempty(line.drop_last());
            if k < before.len() - 1 {
                lemma_words_are_not_empty(line.drop_last(), k);
            }
        } else if k < before.len() {
            lemma_words_are_not_empty(line.drop_last(), k);
        }
    }
}

/// The characters of a text that are not ASCII whitespace, in order.
pub open spec fn solid_chars(text: Seq<char>) -> Seq<char>
    decreases text.len(),
{
    if text.len() == 0 {
        Seq::empty()
    } else if is_ascii_space(text.last()) {
        solid_chars(text.drop_last())
    } else {
        solid_chars(text.drop_last()).push(text.last())
    }
}

/// The words of a line, one after the other, are the line without its
/// whitespace: no character is lost, added or moved.
pub proof fn lemma_words_keep_all_characters(line: Seq<char>)
    ensures
        words_of(line).flatten() == solid_chars(line),
    decreases line.len(),
{
    if line.len() == 0 {
        assert(words_of(line).flatten() =~= solid_chars(line));
    } else {
        let rest = line.drop_last();
        let before = words_of(rest);
        let c = line.last();
        lemma_words_keep_all_characters(rest);
        if is_ascii_space(c) {
        } else if line.len() >= 2 && !is_ascii_space(line[line.len() - 2]) {
            lemma_words_nonempty(rest);
            let grown = before.drop_last().push(before.last().push(c));
            assert(before =~= before.drop_last() + seq![before.last()]);
            vstd::seq_lib::lemma_flatten_concat(before.drop_last(), seq![before.last()]);
            seq![before.last()].lemma_flatten_one_element();
            assert(grown =~= before.drop_last() + seq![before.last().push(c)]);
            vstd::seq_lib::lemma_flatten_concat(
                before.drop_last(),
                seq![before.last().push(c)],
            );
            seq![before.last().push(c)].lemma_flatten_one_element();
            assert(grown.flatten() =~= before.flatten().push(c));
        } else {
            assert(before.push(seq![c]) =~= before + seq![seq![c]]);
            vstd::seq_lib::lemma_flatten_concat(before, seq![seq![c]]);
            seq![seq![c]].lemma_flatten_one_element();
            assert(before.push(seq![c]).flatten() =~= before.flatten().push(c));
        }
    }
}

/// The whitespace segmenter.
#[derive(Clone, Copy, Debug, PartialEq, Eq)]
pub struct WhitespaceTokenizer;

/// What the segmenter has read so far: the finished sentences, and of the
/// line that is being read the finished words and the word that is growing.
spec fn scanned(
    text: Seq<char>,
    sentences: Seq<Seq<Seq<char>>>,
    words: Seq<Seq<char>>,
    word: Seq<char>,
    open: bool,
    in_word: bool,
) -> bool {
    let lines = lines_of(text);
    &&& open == (text.len() > 0 && text.last() != '\n')
    &&& in_word == (text.len() > 0 && !is_ascii_space(text.last()))
    &&& in_word == (word.len() > 0)
    &&& if open {
        &&& sentences == rows_of(lines.drop_last())
        &&& words_of(lines.last()) == (if in_word {
            words.push(word)
        } else {
            words
        })
    } else {
        &&& sentences == tokenized(text)
        &&& words.len() == 0
        &&& word.len() == 0
    }
}

/// Reading a line feed finishes the sentence.
proof fn lemma_scan_newline(
    text: Seq<char>,
    sentences: Seq<Seq<Seq<char>>>,
    words: Seq<Seq<char>>,
    word: Seq<char>,
    open: bool,
    in_word: bool,
)
    requires
        scanned(text, sentences, words, word, open, in_word),
    ensures
        scanned(
            text.push('\n'),
            sentences.push(
                if in_word {
                    words.push(word)
                } else {
                    words
                },
            ),
            Seq::empty(),
            Seq::empty(),
            false,
            false,
        ),
{
    let next = text.push('\n');
    assert(next.drop_last() =~= text);
    let lines = lines_of(text);
    if open {
        lemma_open_line(text);
        assert(lines_of(next) == lines);
        assert(lines =~= lines.drop_last().push(lines.last()));
        assert(rows_of(lines) =~= rows_of(lines.drop_last()).push(words_of(lines.last())));
    } else {
        assert(lines_of(next) == lines.push(Seq::empty()));
        assert(words =~= Seq::<Seq<char>>::empty());
        assert(words_of(Seq::<char>::empty()) =~= Seq::<Seq<char>>::empty());
        assert(rows_of(lines.push(Seq::empty())) =~= rows_of(lines).push(
            words_of(Seq::<char>::empty()),
        ));
    }
}

/// Reading any other character extends the line that is being read.
proof fn lemma_scan_char(
    text: Seq<char>,
    sentences: Seq<Seq<Seq<char>>>,
    words: Seq<Seq<char>>,
    word: Seq<char>,
    open: bool,
    in_word: bool,
    c: char,
)
    requires
        scanned(text, sentences, words, word, open, in_word),
        c != '\n',
    ensures
        is_ascii_space(c) ==> scanned(
            text.push(c),
            sentences,
            if in_word {
                words.push(word)
            } else {
                words
            },
            Seq::empty(),
            true,
            false,
        ),
        !is_ascii_space(c) ==> scanned(text.push(c), sentences, words, word.push(c), true, true),
{
    let next = text.push(c);
    assert(next.drop_last() =~= text);
    let lines = lines_of(text);
    let next_lines = lines_of(next);
    if open {
        lemma_open_line(text);
        let line = lines.last();
        assert(next_lines == lines.drop_last().push(line.push(c)));
        assert(next_lines.drop_last() =~= lines.drop_last());
        assert(next_lines.last() == line.push(c));
        assert(line.push(c).drop_last() =~= line);
        let grown = line.push(c);
        assert(grown[grown.len() - 2] == line.last());
        if !is_ascii_space(c) {
            if in_word {
                assert(!is_ascii_space(line.last()));
                assert(words.push(word).drop_last() =~= words);
                assert(words.push(word).last() == word);
                assert(words_of(grown) == words.push(word.push(c)));
            } else {
                assert(is_ascii_space(line.last()));
                assert(word =~= Seq::<char>::empty());
                assert(word.push(c) =~= seq![c]);
                assert(words_of(grown) == words.push(word.push(c)));
            }
        }
    } else {
        assert(next_lines == lines.push(seq![c]));
        assert(next_lines.drop_last() =~= lines);
        assert(next_lines.last() == seq![c]);
        assert(seq![c].drop_last() =~= Seq::<char>::empty());
        assert(words_of(Seq::<char>::empty()) =~= Seq::<Seq<char>>::empty());
        assert(words =~= Seq::<Seq<char>>::empty());
        assert(word =~= Seq::<char>::empty());
        assert(word.push(c) =~= seq![c]);
        assert(words.push(word.push(c)) =~= seq![seq![c]]);
        assert(words_of(seq![c]) =~= if is_ascii_space(c) {
            Seq::<Seq<char>>::empty()
        } else {
            seq![seq![c]]
        });
    }
}

impl WhitespaceTokenizer {
    /// Splits a text into sentences and tokens: a sentence for each line, a
    /// token for each run of characters between ASCII whitespace. This
    /// segmenter never fails.
    pub fn tokenize(&self, text: &str) -> (sentences: Option<Vec<Vec<String>>>)
        ensures
            sentences matches Some(rows) && text_rows(rows@) == tokenized(text@),
    {
        let mut sentences: Vec<Vec<String>> = Vec::new();
        let mut words: Vec<String> = Vec::new();
        let mut word = String::new();
        let mut open = false;
        let mut in_word = false;
        assert(text_rows(sentences@) =~= tokenized(text@.take(0)));
        assert(texts(words@) =~= Seq::<Seq<char>>::empty());
        for c in it: text.chars()
            invariant
                it.seq() == text@,
                scanned(
                    text@.take(it.index() as int),
                    text_rows(sentences@),
                    texts(words@),
                    word@,
                    open,
                    in_word,
                ),
        {
            let ghost read = text@.take(it.index() as int);
            let ghost rows = text_rows(sentences@);
            let ghost row = texts(words@);
            let ghost old_word = word@;
            proof {
                assert(text@.take(it.index() + 1) =~= read.push(c));
            }
            if c == '\n' {
                proof {
                    lemma_scan_newline(read, rows, row, old_word, open, in_word);
                }
                if in_word {
                    words.push(word);
                    word = String::new();
                    assert(texts(words@) =~= row.push(old_word));
                }
                let ghost full_row = texts(words@);
                sentences.push(words);
                words = Vec::new();
                open = false;
                in_word = false;
                assert(text_rows(sentences@) =~= rows.push(full_row));
                assert(texts(words@) =~= Seq::<Seq<char>>::empty());
            } else {
                proof {
                    lemma_scan_char(read, rows, row, old_word, open, in_word, c);
                }
                if ascii_space(c) {
                    if in_word {
                        words.push(word);
                        word = String::new();
                        assert(texts(words@) =~= row.push(old_word));
                    }
                    in_word = false;
                } else {
                    word.push(c);
                    in_word = true;
                }
                open = true;
            }
        }
        assert(text@.take(text@.len() as int) =~= text@);
        if open {
            let ghost rows = text_rows(sentences@);
            let ghost row = texts(words@);
            let ghost old_word = word@;
            if in_word {
                words.push(word);
                assert(texts(words@) =~= row.push(old_word));
            }
            let ghost full_row = texts(words@);
            sentences.push(words);
            proof {
                let lines = lines_of(text@);
                lemma_open_line(text@);
                assert(text_rows(sentences@) =~= rows.push(full_row));
                assert(lines =~= lines.drop_last().push(lines.last()));
                assert(rows_of(lines) =~= rows_of(lines.drop_last()).push(words_of(lines.last())));
            }
        }
        Some(sentences)
    }
}

} // verus!

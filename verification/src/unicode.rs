//! Simplification of token forms: a form is brought into a Unicode normal
//! form, and its typographic punctuation is replaced by the ASCII
//! counterpart.

use unicode_normalization::UnicodeNormalization;
use vstd::prelude::*;

verus! {

/// The Unicode normal form that token forms are brought into.
#[derive(Clone, Copy, Debug, PartialEq, Eq, Structural)]
pub enum Normalization {
    /// Canonical decomposition followed by canonical composition.
    Nfc,
    /// Compatibility decomposition followed by canonical composition.
    Nfkc,
}

/// Normalization Form C of a text, as `unicode_normalization` computes it.
pub uninterp spec fn nfc_form(text: Seq<char>) -> Seq<char>;

/// Normalization Form KC of a text, as `unicode_normalization` computes it.
pub uninterp spec fn nfkc_form(text: Seq<char>) -> Seq<char>;

/// The chosen normal form of a text.
pub open spec fn normal_form(text: Seq<char>, normalization: Normalization) -> Seq<char> {
    match normalization {
        Normalization::Nfc => nfc_form(text),
        Normalization::Nfkc => nfkc_form(text),
    }
}

/// What one character becomes when typographic punctuation is simplified:
/// guillemets and curly double quotes become `"`, curly single quotes become
/// `'`, hyphens and dashes become `-`, the ellipsis becomes three full stops,
/// and every other character stays.
pub open spec fn simple_char(c: char) -> Seq<char> {
    if c == '\u{ab}' || c == '\u{bb}' || c == '\u{201c}' || c == '\u{201d}' || c == '\u{201e}' || c
        == '\u{201f}' {
        seq!['"']
    } else if c == '\u{2018}' || c == '\u{2019}' || c == '\u{201a}' || c == '\u{201b}' {
        seq!['\'']
    } else if c == '\u{2010}' || c == '\u{2011}' || c == '\u{2012}' || c == '\u{2013}' || c
        == '\u{2014}' || c == '\u{2015}' {
        seq!['-']
    } else if c == '\u{2026}' {
        seq!['.', '.', '.']
    } else {
        seq![c]
    }
}

/// A text with its typographic punctuation simplified, character by
/// character.
pub open spec fn simple_punct(text: Seq<char>) -> Seq<char>
    decreases text.len(),
{
    if text.len() == 0 {
        Seq::empty()
    } else {
        simple_punct(text.drop_last()) + simple_char(text.last())
    }
}

/// The simplified text: the normal form, with its punctuation simplified.
pub open spec fn simplified(text: Seq<char>, normalization: Normalization) -> Seq<char> {
    simple_punct(normal_form(text, normalization))
}

/// Simplifying punctuation goes through a text piece by piece.
pub proof fn lemma_simple_punct_concat(first: Seq<char>, second: Seq<char>)
    ensures
        simple_punct(first + second) == simple_punct(first) + simple_punct(second),
    decreases second.len(),
{
    if second.len() == 0 {
        assert(first + second =~= first);
        assert(simple_punct(first) + simple_punct(second) =~= simple_punct(first));
    } else {
        lemma_simple_punct_concat(first, second.drop_last());
        assert((first + second).drop_last() =~= first + second.drop_last());
        assert(simple_punct(first + second) =~= simple_punct(first) + simple_punct(second));
    }
}

/// What a character becomes holds no typographic punctuation.
proof fn lemma_simple_char_stable(c: char)
    ensures
        simple_punct(simple_char(c)) == simple_char(c),
{
    reveal_with_fuel(simple_punct, 4);
    let out = simple_char(c);
    if out.len() == 3 {
        assert(out.drop_last() =~= seq!['.', '.']);
        assert(out.drop_last().drop_last() =~= seq!['.']);
        assert(out.drop_last().drop_last().drop_last() =~= Seq::<char>::empty());
        assert(simple_punct(out) =~= out);
    } else {
        assert(out.drop_last() =~= Seq::<char>::empty());
        assert(simple_punct(out) =~= out);
    }
}

/// Simplifying punctuation twice gives what simplifying it once gives.
pub proof fn lemma_simple_punct_idempotent(text: Seq<char>)
    ensures
        simple_punct(simple_punct(text)) == simple_punct(text),
    decreases text.len(),
{
    if text.len() > 0 {
        lemma_simple_punct_idempotent(text.drop_last());
        lemma_simple_punct_concat(simple_punct(text.drop_last()), simple_char(text.last()));
        lemma_simple_char_stable(text.last());
    }
}

/// `String::push` appends one character to the string.
pub assume_specification[ std::string::String::push ](text: &mut std::string::String, c: char)
    ensures
        final(text)@ == old(text)@.push(c),
;

/// `UnicodeNormalization::nfc` of `unicode_normalization`, collected into a
/// string: the text in Normalization Form C.
#[verifier::external_body]
fn nfc(text: &str) -> (normal: String)
    ensures
        normal@ == nfc_form(text@),
{
    text.nfc().collect()
}

/// `UnicodeNormalization::nfkc` of `unicode_normalization`, collected into a
/// string: the text in Normalization Form KC.
#[verifier::external_body]
fn nfkc(text: &str) -> (normal: String)
    ensures
        normal@ == nfkc_form(text@),
{
    text.nfkc().collect()
}

/// Appends to `out` what `c` becomes when punctuation is simplified.
fn push_simple_char(out: &mut String, c: char)
    ensures
        final(out)@ == old(out)@ + simple_char(c),
{
    if c == '\u{ab}' || c == '\u{bb}' || c == '\u{201c}' || c == '\u{201d}' || c == '\u{201e}' || c
        == '\u{201f}' {
        out.push('"');
    } else if c == '\u{2018}' || c == '\u{2019}' || c == '\u{201a}' || c == '\u{201b}' {
        out.push('\'');
    } else if c == '\u{2010}' || c == '\u{2011}' || c == '\u{2012}' || c == '\u{2013}' || c
        == '\u{2014}' || c == '\u{2015}' {
        out.push('-');
    } else if c == '\u{2026}' {
        out.push('.');
        out.push('.');
        out.push('.');
    } else {
        out.push(c);
    }
    assert(out@ =~= old(out)@ + simple_char(c));
}

/// Replaces typographic punctuation in `text` by its ASCII counterpart.
pub fn simplify_unicode_punct(text: &str) -> (simple: String)
    ensures
        simple@ == simple_punct(text@),
{
    let mut simple = String::new();
    for c in it: text.chars()
        invariant
            it.seq() == text@,
            simple@ == simple_punct(text@.take(it.index() as int)),
    {
        proof {
            let i = it.index() as int;
            assert(text@.take(i + 1).drop_last() =~= text@.take(i));
            assert(text@.take(i + 1).last() == c);
        }
        push_simple_char(&mut simple, c);
    }
    assert(text@.take(text@.len() as int) =~= text@);
    simple
}

/// Brings `text` into the given normal form and simplifies its punctuation.
pub fn simplify_unicode(text: &str, normalization: Normalization) -> (simple: String)
    ensures
        simple@ == simplified(text@, normalization),
{
    let normal = match normalization {
        Normalization::Nfc => nfc(text),
        Normalization::Nfkc => nfkc(text),
    };
    simplify_unicode_punct(normal.as_str())
}

} // verus!

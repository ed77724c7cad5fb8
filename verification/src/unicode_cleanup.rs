//! The normalization stage: every token form of a sentence is simplified, and
//! a form that changes is kept under the attribute `orth`.

use crate::sentence::{Sentence, SentenceView, TokenView};
use crate::unicode::{
    lemma_simple_punct_idempotent, normal_form, simplified, simplify_unicode, Normalization,
};
use vstd::prelude::*;

verus! {

/// The key under which the form before normalization is kept.
pub open spec fn orth_key() -> Seq<char> {
    "orth"@
}

/// A token after normalization: where the simplified form differs, it
/// replaces the form and the old form is bound to `orth`; otherwise the token
/// is unchanged.
pub open spec fn cleaned_token(token: TokenView, normalization: Normalization) -> TokenView {
    let clean = simplified(token.form, normalization);
    if clean == token.form {
        token
    } else {
        TokenView { form: clean, misc: token.misc.insert(orth_key(), Some(token.form)) }
    }
}

/// A sentence after normalization: every token normalized, the comments kept.
pub open spec fn cleaned_sentence(sentence: SentenceView, normalization: Normalization)
    -> SentenceView {
    SentenceView {
        tokens: Seq::new(
            sentence.tokens.len(),
            |i: int| cleaned_token(sentence.tokens[i], normalization),
        ),
        comments: sentence.comments,
    }
}

/// Normalizes every token of `sentence` in place.
pub fn cleanup_sentence_unicode(sentence: &mut Sentence, normalization: Normalization)
    ensures
        final(sentence)@ == cleaned_sentence(old(sentence)@, normalization),
{
    let n = sentence.len();
    let mut i: usize = 0;
    while i < n
        invariant
            i <= n,
            n == old(sentence)@.tokens.len(),
            sentence@.tokens.len() == n,
            sentence@.comments == old(sentence)@.comments,
            forall|j: int|
                0 <= j < i ==> sentence@.tokens[j] == cleaned_token(
                    #[trigger] old(sentence)@.tokens[j],
                    normalization,
                ),
            forall|j: int| i <= j < n ==> sentence@.tokens[j] == old(sentence)@.tokens[j],
        decreases n - i,
    {
        let token = sentence.token_mut(i);
        let form = token.form().to_owned();
        let clean = simplify_unicode(form.as_str(), normalization);
        if !(form == clean) {
            token.set_form(clean);
            token.insert_misc("orth".to_owned(), Some(form));
        }
        i += 1;
    }
    assert(sentence@.tokens =~= cleaned_sentence(old(sentence)@, normalization).tokens);
}

/// What the stage makes of what its upstream gave: a sentence is normalized,
/// an error or the end is passed on.
pub open spec fn cleanup_step<E>(
    polled: Option<Result<SentenceView, E>>,
    normalization: Normalization,
) -> Option<Result<SentenceView, E>> {
    match polled {
        Some(Ok(sentence)) => Some(Ok(cleaned_sentence(sentence, normalization))),
        other => other,
    }
}

/// The view of what a stream of sentences gives.
pub open spec fn polled_sentence<E>(polled: Option<Result<Sentence, E>>) -> Option<
    Result<SentenceView, E>,
> {
    match polled {
        Some(Ok(sentence)) => Some(Ok(sentence@)),
        Some(Err(error)) => Some(Err(error)),
        None => None,
    }
}

/// The normalization stage.
#[derive(Clone, Copy, Debug, PartialEq, Eq)]
pub struct UnicodeCleanup {
    normalization: Normalization,
}

impl UnicodeCleanup {
    /// The normal form that the stage brings forms into.
    pub closed spec fn form(&self) -> Normalization {
        self.normalization
    }

    /// The stage that normalizes to `normalization`.
    pub fn new(normalization: Normalization) -> (stage: UnicodeCleanup)
        ensures
            stage.form() == normalization,
    {
        UnicodeCleanup { normalization }
    }

    /// Takes what the upstream gave and hands it on, a sentence normalized.
    /// The stage never fails and never waits.
    pub fn step<E>(&self, polled: Option<Result<Sentence, E>>) -> (out: Option<
        Result<Sentence, E>,
    >)
        ensures
            polled_sentence(out) == cleanup_step(polled_sentence(polled), self.form()),
    {
        match polled {
            Some(Ok(sentence)) => {
                let mut sentence = sentence;
                cleanup_sentence_unicode(&mut sentence, self.normalization);
                Some(Ok(sentence))
            },
            Some(Err(error)) => Some(Err(error)),
            None => None,
        }
    }
}

/// A simplified form that is in normal form already is not changed by a
/// second simplification.
pub proof fn lemma_simplified_stable(form: Seq<char>, normalization: Normalization)
    requires
        normal_form(simplified(form, normalization), normalization) == simplified(
            form,
            normalization,
        ),
    ensures
        simplified(simplified(form, normalization), normalization) == simplified(
            form,
            normalization,
        ),
{
    lemma_simple_punct_idempotent(normal_form(form, normalization));
}

/// Normalizing a sentence twice gives what normalizing it once gives,
/// wherever the simplified forms of its tokens are in normal form, that is,
/// wherever the normal form of a simplified form is that form itself.
pub proof fn lemma_cleanup_idempotent(sentence: SentenceView, normalization: Normalization)
    requires
        forall|i: int|
            0 <= i < sentence.tokens.len() ==> normal_form(
                simplified(#[trigger] sentence.tokens[i].form, normalization),
                normalization,
            ) == simplified(sentence.tokens[i].form, normalization),
    ensures
        cleaned_sentence(cleaned_sentence(sentence, normalization), normalization)
            == cleaned_sentence(sentence, normalization),
{
    let once = cleaned_sentence(sentence, normalization);
    let twice = cleaned_sentence(once, normalization);
    assert forall|i: int| 0 <= i < sentence.tokens.len() implies #[trigger] twice.tokens[i]
        == once.tokens[i] by {
        assert(sentence.tokens[i].form == sentence.tokens[i].form);
        lemma_simplified_stable(sentence.tokens[i].form, normalization);
    }
    assert(twice.tokens =~= once.tokens);
}

} // verus!

//! Sentences, tokens and comments, with their mathematical views.

use crate::text::texts;
use vstd::prelude::*;

verus! {

/// What a token is, mathematically: its surface form and its side-table of
/// attributes, a map from key to optional value.
pub struct TokenView {
    pub form: Seq<char>,
    pub misc: Map<Seq<char>, Option<Seq<char>>>,
}

/// What a comment is, mathematically.
pub enum CommentView {
    AttrVal { attr: Seq<char>, val: Seq<char> },
    String(Seq<char>),
}

/// What a sentence is, mathematically: its tokens in order, then its comments
/// in order.
pub struct SentenceView {
    pub tokens: Seq<TokenView>,
    pub comments: Seq<CommentView>,
}

/// The view of an optional string.
pub open spec fn opt_text(value: Option<String>) -> Option<Seq<char>> {
    match value {
        Some(s) => Some(s@),
        None => None,
    }
}

/// The map that an attribute list stands for: each entry binds its key, a
/// later entry overriding an earlier one with the same key.
pub open spec fn entries_map(entries: Seq<(String, Option<String>)>) -> Map<
    Seq<char>,
    Option<Seq<char>>,
>
    decreases entries.len(),
{
    if entries.len() == 0 {
        Map::empty()
    } else {
        entries_map(entries.drop_last()).insert(entries.last().0@, opt_text(entries.last().1))
    }
}

/// A key that no entry of the list holds is outside the map's domain.
pub proof fn lemma_entries_map_absent(entries: Seq<(String, Option<String>)>, key: Seq<char>)
    requires
        forall|i: int| 0 <= i < entries.len() ==> (#[trigger] entries[i]).0@ != key,
    ensures
        !entries_map(entries).dom().contains(key),
    decreases entries.len(),
{
    if entries.len() > 0 {
        lemma_entries_map_absent(entries.drop_last(), key);
    }
}

/// The last entry that holds a key is the one that the map shows.
pub proof fn lemma_entries_map_last(entries: Seq<(String, Option<String>)>, i: int)
    requires
        0 <= i < entries.len(),
        forall|j: int| i < j < entries.len() ==> (#[trigger] entries[j]).0@ != entries[i].0@,
    ensures
        entries_map(entries).dom().contains(entries[i].0@),
        entries_map(entries)[entries[i].0@] == opt_text(entries[i].1),
    decreases entries.len(),
{
    if i < entries.len() - 1 {
        lemma_entries_map_last(entries.drop_last(), i);
    }
}

/// Replacing the last entry that holds a key updates the map at that key.
pub proof fn lemma_entries_map_update(
    entries: Seq<(String, Option<String>)>,
    i: int,
    entry: (String, Option<String>),
)
    requires
        0 <= i < entries.len(),
        entry.0@ == entries[i].0@,
        forall|j: int| i < j < entries.len() ==> (#[trigger] entries[j]).0@ != entry.0@,
    ensures
        entries_map(entries.update(i, entry)) == entries_map(entries).insert(
            entry.0@,
            opt_text(entry.1),
        ),
    decreases entries.len(),
{
    let updated = entries.update(i, entry);
    if i < entries.len() - 1 {
        lemma_entries_map_update(entries.drop_last(), i, entry);
        assert(updated.drop_last() =~= entries.drop_last().update(i, entry));
        assert(updated.last() == entries.last());
        assert(entries.last().0@ != entry.0@);
        assert(entries_map(updated) =~= entries_map(entries).insert(entry.0@, opt_text(entry.1)));
    } else {
        assert(updated.drop_last() =~= entries.drop_last());
        assert(entries_map(updated) =~= entries_map(entries).insert(entry.0@, opt_text(entry.1)));
    }
}

/// One token of a sentence: a surface form and a side-table of attributes.
///
/// The side-table is a list of entries; where a key occurs more than once,
/// the last entry counts.
#[derive(Clone, Debug, PartialEq, Eq)]
pub struct Token {
    form: String,
    misc: Vec<(String, Option<String>)>,
}

impl View for Token {
    type V = TokenView;

    closed spec fn view(&self) -> TokenView {
        TokenView { form: self.form@, misc: entries_map(self.misc@) }
    }
}

impl Token {
    /// A token with the given form and no attributes.
    pub fn new(form: &str) -> (token: Token)
        ensures
            token@.form == form@,
            token@.misc == Map::<Seq<char>, Option<Seq<char>>>::empty(),
    {
        Token { form: form.to_owned(), misc: Vec::new() }
    }

    /// The surface form.
    pub fn form(&self) -> (form: &str)
        ensures
            form@ == self@.form,
    {
        self.form.as_str()
    }

    /// Replaces the surface form and returns the previous one.
    pub fn set_form(&mut self, form: String) -> (previous: String)
        ensures
            previous@ == old(self)@.form,
            final(self)@.form == form@,
            final(self)@.misc == old(self)@.misc,
    {
        let mut form = form;
        std::mem::swap(&mut self.form, &mut form);
        form
    }

    /// The entries of the side-table, in insertion order.
    pub fn misc(&self) -> (entries: &Vec<(String, Option<String>)>)
        ensures
            entries_map(entries@) == self@.misc,
    {
        &self.misc
    }

    /// Looks up an attribute: `None` when the key is absent, otherwise the
    /// value bound to it, which may itself be missing.
    pub fn get_misc(&self, key: &str) -> (value: Option<&Option<String>>)
        ensures
            value is Some <==> self@.misc.dom().contains(key@),
            value matches Some(v) ==> opt_text(*v) == self@.misc[key@],
    {
        let wanted = key.to_owned();
        let mut i: usize = self.misc.len();
        while i > 0
            invariant
                i <= self.misc.len(),
                wanted@ == key@,
                forall|j: int| i <= j < self.misc.len() ==> (#[trigger] self.misc@[j]).0@ != key@,
            decreases i,
        {
            i -= 1;
            if self.misc[i].0 == wanted {
                proof {
                    lemma_entries_map_last(self.misc@, i as int);
                }
                return Some(&self.misc[i].1);
            }
        }
        proof {
            lemma_entries_map_absent(self.misc@, key@);
        }
        None
    }

    /// Binds `key` to `value` in the side-table, replacing any earlier binding
    /// of the same key.
    pub fn insert_misc(&mut self, key: String, value: Option<String>)
        ensures
            final(self)@.form == old(self)@.form,
            final(self)@.misc == old(self)@.misc.insert(key@, opt_text(value)),
    {
        let mut i: usize = self.misc.len();
        while i > 0
            invariant
                i <= self.misc.len(),
                forall|j: int| i <= j < self.misc.len() ==> (#[trigger] self.misc@[j]).0@ != key@,
                *self == *old(self),
            decreases i,
        {
            i -= 1;
            if self.misc[i].0 == key {
                proof {
                    lemma_entries_map_update(self.misc@, i as int, (key, value));
                }
                self.misc.set(i, (key, value));
                return ;
            }
        }
        proof {
            assert(self.misc@.push((key, value)).drop_last() =~= self.misc@);
        }
        self.misc.push((key, value));
    }
}

/// A sentence comment: an attribute with its value, or free text.
#[derive(Clone, Debug, PartialEq, Eq)]
pub enum Comment {
    AttrVal { attr: String, val: String },
    String(String),
}

impl View for Comment {
    type V = CommentView;

    open spec fn view(&self) -> CommentView {
        match self {
            Comment::AttrVal { attr, val } => CommentView::AttrVal { attr: attr@, val: val@ },
            Comment::String(text) => CommentView::String(text@),
        }
    }
}

/// The views of a run of tokens.
pub open spec fn token_views(tokens: Seq<Token>) -> Seq<TokenView> {
    Seq::new(tokens.len(), |i: int| tokens[i]@)
}

/// The views of a run of comments.
pub open spec fn comment_views(comments: Seq<Comment>) -> Seq<CommentView> {
    Seq::new(comments.len(), |i: int| comments[i]@)
}

/// The tokens that a run of forms gives: one per form, without attributes.
pub open spec fn bare_tokens(forms: Seq<Seq<char>>) -> Seq<TokenView> {
    Seq::new(
        forms.len(),
        |i: int| TokenView { form: forms[i], misc: Map::<Seq<char>, Option<Seq<char>>>::empty() },
    )
}

/// The sentence that a run of forms gives: its tokens carry the forms, and
/// it has no comments.
pub open spec fn bare_sentence(forms: Seq<Seq<char>>) -> SentenceView {
    SentenceView { tokens: bare_tokens(forms), comments: Seq::empty() }
}

/// The views of a run of sentences.
pub open spec fn sentence_views(sentences: Seq<Sentence>) -> Seq<SentenceView> {
    Seq::new(sentences.len(), |i: int| sentences[i]@)
}

/// A sentence: tokens in order, and the comments that go with them.
#[derive(Clone, Debug, PartialEq, Eq)]
pub struct Sentence {
    tokens: Vec<Token>,
    comments: Vec<Comment>,
}

impl View for Sentence {
    type V = SentenceView;

    closed spec fn view(&self) -> SentenceView {
        SentenceView { tokens: token_views(self.tokens@), comments: comment_views(self.comments@) }
    }
}

impl Sentence {
    /// The empty sentence.
    pub fn new() -> (sentence: Sentence)
        ensures
            sentence@.tokens == Seq::<TokenView>::empty(),
            sentence@.comments == Seq::<CommentView>::empty(),
    {
        let sentence = Sentence { tokens: Vec::new(), comments: Vec::new() };
        assert(sentence@.tokens =~= Seq::<TokenView>::empty());
        assert(sentence@.comments =~= Seq::<CommentView>::empty());
        sentence
    }

    /// The sentence whose tokens carry the given forms, in order.
    pub fn from_forms(forms: Vec<String>) -> (sentence: Sentence)
        ensures
            sentence@ == bare_sentence(texts(forms@)),
    {
        let mut sentence = Sentence::new();
        let mut i: usize = 0;
        while i < forms.len()
            invariant
                i <= forms.len(),
                sentence@.tokens == bare_tokens(texts(forms@.take(i as int))),
                sentence@.comments == Seq::<CommentView>::empty(),
            decreases forms.len() - i,
        {
            let token = Token::new(forms[i].as_str());
            sentence.push(token);
            assert(bare_tokens(texts(forms@.take(i as int))).push(token@) =~= bare_tokens(
                texts(forms@.take(i + 1)),
            ));
            i += 1;
        }
        assert(forms@.take(forms.len() as int) =~= forms@);
        sentence
    }

    /// Appends a token.
    pub fn push(&mut self, token: Token)
        ensures
            final(self)@.tokens == old(self)@.tokens.push(token@),
            final(self)@.comments == old(self)@.comments,
    {
        self.tokens.push(token);
        assert(self@.tokens =~= old(self)@.tokens.push(token@));
    }

    /// The number of tokens.
    pub fn len(&self) -> (n: usize)
        ensures
            n == self@.tokens.len(),
    {
        self.tokens.len()
    }

    /// The tokens, in order.
    pub fn tokens(&self) -> (tokens: &Vec<Token>)
        ensures
            token_views(tokens@) == self@.tokens,
    {
        &self.tokens
    }

    /// The comments, in order.
    pub fn comments(&self) -> (comments: &Vec<Comment>)
        ensures
            comment_views(comments@) == self@.comments,
    {
        &self.comments
    }

    /// Appends a comment.
    pub fn push_comment(&mut self, comment: Comment)
        ensures
            final(self)@.tokens == old(self)@.tokens,
            final(self)@.comments == old(self)@.comments.push(comment@),
    {
        self.comments.push(comment);
        assert(self@.comments =~= old(self)@.comments.push(comment@));
    }

    /// The token at `index`, for changing it in place.
    pub fn token_mut(&mut self, index: usize) -> (token: &mut Token)
        requires
            index < old(self)@.tokens.len(),
        ensures
            token@ == old(self)@.tokens[index as int],
            final(self)@.tokens == old(self)@.tokens.update(index as int, final(token)@),
            final(self)@.comments == old(self)@.comments,
    {
        &mut self.tokens[index]
    }

    /// Replaces the token at `index`.
    pub fn set_token(&mut self, index: usize, token: Token)
        requires
            index < old(self)@.tokens.len(),
        ensures
            final(self)@.tokens == old(self)@.tokens.update(index as int, token@),
            final(self)@.comments == old(self)@.comments,
    {
        self.tokens.set(index, token);
        assert(self@.tokens =~= old(self)@.tokens.update(index as int, token@));
    }
}

} // verus!

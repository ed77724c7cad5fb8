use sentence_pipeline::sentence::{Comment, Sentence, Token};

#[test]
fn new_token_has_form_and_no_attributes() {
    let token = Token::new("word");
    assert_eq!(token.form(), "word");
    assert!(token.misc().is_empty());
    assert_eq!(token.get_misc("orth"), None);
}

#[test]
fn insert_misc_binds_and_replaces() {
    let mut token = Token::new("word");
    token.insert_misc("a".to_string(), Some("1".to_string()));
    token.insert_misc("b".to_string(), None);
    token.insert_misc("a".to_string(), Some("2".to_string()));
    assert_eq!(token.get_misc("a"), Some(&Some("2".to_string())));
    assert_eq!(token.get_misc("b"), Some(&None));
    assert_eq!(token.get_misc("c"), None);
    assert_eq!(
        token.misc(),
        &vec![("a".to_string(), Some("2".to_string())), ("b".to_string(), None)]
    );
}

#[test]
fn set_form_returns_the_previous_form() {
    let mut token = Token::new("old");
    token.insert_misc("k".to_string(), None);
    assert_eq!(token.set_form("new".to_string()), "old");
    assert_eq!(token.form(), "new");
    assert_eq!(token.get_misc("k"), Some(&None));
}

#[test]
fn sentence_from_forms_keeps_order() {
    let sentence = Sentence::from_forms(vec!["a".to_string(), "b".to_string(), "c".to_string()]);
    let forms: Vec<&str> = sentence.tokens().iter().map(Token::form).collect();
    assert_eq!(forms, vec!["a", "b", "c"]);
    assert_eq!(sentence.len(), 3);
    assert!(sentence.comments().is_empty());
}

#[test]
fn empty_sentence() {
    let sentence = Sentence::new();
    assert_eq!(sentence.len(), 0);
    assert_eq!(sentence, Sentence::from_forms(Vec::new()));
}

#[test]
fn tokens_and_comments_can_be_changed() {
    let mut sentence = Sentence::from_forms(vec!["a".to_string(), "b".to_string()]);
    sentence.token_mut(1).set_form("B".to_string());
    sentence.set_token(0, Token::new("A"));
    sentence.push_comment(Comment::String("note".to_string()));
    sentence.push_comment(Comment::AttrVal { attr: "k".to_string(), val: "v".to_string() });
    let forms: Vec<&str> = sentence.tokens().iter().map(Token::form).collect();
    assert_eq!(forms, vec!["A", "B"]);
    assert_eq!(
        sentence.comments(),
        &vec![
            Comment::String("note".to_string()),
            Comment::AttrVal { attr: "k".to_string(), val: "v".to_string() }
        ]
    );
}

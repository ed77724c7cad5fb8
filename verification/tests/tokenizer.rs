use sentence_pipeline::tokenizer::WhitespaceTokenizer;

#[test]
fn test_whitespace_tokenizer() {
    let tokenizer = WhitespaceTokenizer;
    assert_eq!(
        tokenizer.tokenize("Dit is een zin .\nDit is de tweede zin .\r\nEn de derde zin\n"),
        Some(vec![
            vec![
                "Dit".to_string(),
                "is".to_string(),
                "een".to_string(),
                "zin".to_string(),
                ".".to_string()
            ],
            vec![
                "Dit".to_string(),
                "is".to_string(),
                "de".to_string(),
                "tweede".to_string(),
                "zin".to_string(),
                ".".to_string()
            ],
            vec![
                "En".to_string(),
                "de".to_string(),
                "derde".to_string(),
                "zin".to_string()
            ]
        ])
    )
}

fn std_tokenize(text: &str) -> Vec<Vec<String>> {
    text.lines()
        .map(|s| s.split_ascii_whitespace().map(ToOwned::to_owned).collect())
        .collect()
}

#[test]
fn whitespace_tokenizer_agrees_with_std_splitting() {
    let tokenizer = WhitespaceTokenizer;
    let samples = [
        "",
        "\n",
        "\n\n",
        "a",
        "a\n",
        "a\nb",
        "a\n\nb",
        " a  b \n",
        "a\r\nb\r",
        "\r",
        "a\tb\x0Cc d",
        " \n \n",
        "trailing space \n x",
        "é ü\u{a0}x\n",
    ];
    for sample in samples {
        assert_eq!(tokenizer.tokenize(sample), Some(std_tokenize(sample)), "{:?}", sample);
    }
}

#[test]
fn whitespace_tokenizer_keeps_empty_lines_as_empty_sentences() {
    let tokenizer = WhitespaceTokenizer;
    assert_eq!(
        tokenizer.tokenize("a\n\nb"),
        Some(vec![vec!["a".to_string()], vec![], vec!["b".to_string()]])
    );
}

#[test]
fn whitespace_tokenizer_of_empty_text_has_no_sentence() {
    let tokenizer = WhitespaceTokenizer;
    assert_eq!(tokenizer.tokenize(""), Some(vec![]));
}

use sentence_pipeline::text::{ascii_space, is_blank, white_space};

#[test]
fn white_space_is_what_std_calls_whitespace() {
    for code in 0..=0x10ffffu32 {
        if let Some(c) = char::from_u32(code) {
            assert_eq!(white_space(c), c.is_whitespace(), "U+{:04X}", code);
            assert_eq!(ascii_space(c), c.is_ascii_whitespace(), "U+{:04X}", code);
        }
    }
}

#[test]
fn blank_lines_are_those_that_trim_to_nothing() {
    let samples = [
        "",
        " ",
        "\t",
        " \t \r\n",
        "\u{a0}",
        "\u{3000}\u{2003}",
        "a",
        " a ",
        "\u{200b}",
        "  .  ",
        "\u{feff}",
    ];
    for sample in samples {
        assert_eq!(is_blank(sample), sample.trim().is_empty(), "{:?}", sample);
    }
}

#[test]
fn empty_line_is_blank() {
    assert!(is_blank(""));
}

#[test]
fn zero_width_space_is_not_blank() {
    assert!(!is_blank("\u{200b}"));
}

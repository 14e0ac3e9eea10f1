use minidb::frontend::token::{Token, TokenType, Tokenizer};

#[test]
fn token_new_keeps_kind_and_text() {
    let token = Token::new(TokenType::Select, "SELECT".to_string());
    assert_eq!(token.token_type, TokenType::Select);
    assert_eq!(token.literal, "SELECT");
}

fn split(input: &str) -> Vec<(TokenType, String)> {
    let mut tokenizer = Tokenizer::new(input.to_string());
    tokenizer.tokenize().into_iter().map(|t| (t.token_type, t.literal)).collect()
}

#[test]
fn words_and_single_characters() {
    assert_eq!(
        split("abc def"),
        vec![
            (TokenType::Identifier, "abc".to_string()),
            (TokenType::Unknown, " ".to_string()),
            (TokenType::Identifier, "def".to_string()),
        ]
    );
}

#[test]
fn keywords_are_plain_identifiers_here() {
    assert_eq!(split("SELECT"), vec![(TokenType::Identifier, "SELECT".to_string())]);
}

#[test]
fn digits_and_underscores_split_words() {
    assert_eq!(
        split("a1_b"),
        vec![
            (TokenType::Identifier, "a".to_string()),
            (TokenType::Unknown, "1".to_string()),
            (TokenType::Unknown, "_".to_string()),
            (TokenType::Identifier, "b".to_string()),
        ]
    );
}

#[test]
fn tokenizer_empty_input_has_no_tokens() {
    assert_eq!(split(""), vec![]);
}

#[test]
fn tokenizer_texts_rebuild_the_ascii_input() {
    let input = "SELECT a, b FROM t WHERE a <= 10;";
    let rebuilt: String = split(input).into_iter().map(|(_, text)| text).collect();
    assert_eq!(rebuilt, input);
}

#[test]
fn alphabetic_words_beyond_ascii() {
    assert_eq!(
        split("\u{e9}ab!"),
        vec![
            (TokenType::Identifier, "\u{e9}ab".to_string()),
            (TokenType::Unknown, "!".to_string()),
        ]
    );
    assert_eq!(
        split("ab \u{e9}"),
        vec![
            (TokenType::Identifier, "ab".to_string()),
            (TokenType::Unknown, " ".to_string()),
            (TokenType::Identifier, "\u{e9}".to_string()),
        ]
    );
}

#[test]
fn tokenizer_texts_rebuild_any_input() {
    let input = "caf\u{e9} \u{4eac}\u{90fd} 42 \u{1f600}!";
    let rebuilt: String = split(input).into_iter().map(|(_, text)| text).collect();
    assert_eq!(rebuilt, input);
}

#[test]
fn tokenizer_step_by_step_then_nothing_more() {
    let mut tokenizer = Tokenizer::new("ab!".to_string());
    let first = tokenizer.get_next_token().unwrap();
    assert_eq!((first.token_type, first.literal.as_str()), (TokenType::Identifier, "ab"));
    let second = tokenizer.get_next_token().unwrap();
    assert_eq!((second.token_type, second.literal.as_str()), (TokenType::Unknown, "!"));
    assert!(tokenizer.get_next_token().is_none());
}

#[test]
fn collect_identifier_reads_the_whole_word() {
    let mut tokenizer = Tokenizer::new("word rest".to_string());
    let token = tokenizer.collect_identifier().unwrap();
    assert_eq!(token.literal, "word");
}

#[test]
fn ascii_letters_are_the_alphabetic_ascii_characters() {
    for code in 0u8..=0x7f {
        let c = code as char;
        let mut tokenizer = Tokenizer::new(c.to_string());
        let token = tokenizer.get_next_token().unwrap();
        let expected = if c.is_ascii_alphabetic() { TokenType::Identifier } else { TokenType::Unknown };
        assert_eq!(token.token_type, expected, "character {:?}", c);
    }
}

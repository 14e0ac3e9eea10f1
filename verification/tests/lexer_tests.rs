use minidb::frontend::lexer::Lexer;
use minidb::frontend::text::char_is_whitespace;
use minidb::frontend::token::{Token, TokenType};

fn kinds_and_texts(tokens: &[Token]) -> Vec<(TokenType, String)> {
    tokens.iter().map(|t| (t.token_type, t.literal.clone())).collect()
}

fn lex(input: &str) -> Vec<(TokenType, String)> {
    let mut lexer = Lexer::new(input.to_string());
    kinds_and_texts(&lexer.tokenize())
}

fn pair(kind: TokenType, text: &str) -> (TokenType, String) {
    (kind, text.to_string())
}

#[test]
fn select_statement() {
    assert_eq!(
        lex("SELECT * FROM users;"),
        vec![
            pair(TokenType::Select, "SELECT"),
            pair(TokenType::Asterisk, "*"),
            pair(TokenType::From, "FROM"),
            pair(TokenType::Identifier, "users"),
            pair(TokenType::Semicolon, ";"),
        ]
    );
}

#[test]
fn keywords_in_any_case_keep_their_text() {
    assert_eq!(
        lex("select Where iNsErT"),
        vec![
            pair(TokenType::Select, "select"),
            pair(TokenType::Where, "Where"),
            pair(TokenType::Insert, "iNsErT"),
        ]
    );
}

#[test]
fn every_keyword() {
    let words = "SELECT FROM WHERE INSERT INTO VALUES CREATE TABLE DELETE UPDATE SET INT AND OR";
    let kinds: Vec<TokenType> = lex(words).into_iter().map(|(k, _)| k).collect();
    assert_eq!(
        kinds,
        vec![
            TokenType::Select,
            TokenType::From,
            TokenType::Where,
            TokenType::Insert,
            TokenType::Into,
            TokenType::Values,
            TokenType::Create,
            TokenType::Table,
            TokenType::Delete,
            TokenType::Update,
            TokenType::SetKeyword,
            TokenType::Int,
            TokenType::And,
            TokenType::Or,
        ]
    );
}

#[test]
fn two_character_operators_are_read_whole() {
    assert_eq!(
        lex("a<=b >= c != d = e < f > g"),
        vec![
            pair(TokenType::Identifier, "a"),
            pair(TokenType::LessThanEqual, "<="),
            pair(TokenType::Identifier, "b"),
            pair(TokenType::GreaterThanEqual, ">="),
            pair(TokenType::Identifier, "c"),
            pair(TokenType::NotEqual, "!="),
            pair(TokenType::Identifier, "d"),
            pair(TokenType::Equal, "="),
            pair(TokenType::Identifier, "e"),
            pair(TokenType::LessThan, "<"),
            pair(TokenType::Identifier, "f"),
            pair(TokenType::GreaterThan, ">"),
            pair(TokenType::Identifier, "g"),
        ]
    );
}

#[test]
fn symbols() {
    assert_eq!(
        lex("(a, b);"),
        vec![
            pair(TokenType::LeftParen, "("),
            pair(TokenType::Identifier, "a"),
            pair(TokenType::Comma, ","),
            pair(TokenType::Identifier, "b"),
            pair(TokenType::RightParen, ")"),
            pair(TokenType::Semicolon, ";"),
        ]
    );
}

#[test]
fn lone_bang_is_an_identifier() {
    assert_eq!(lex("!"), vec![pair(TokenType::Identifier, "!")]);
    assert_eq!(lex("!!"), vec![pair(TokenType::Identifier, "!"), pair(TokenType::Identifier, "!")]);
}

#[test]
fn operator_pair_not_in_table_is_split() {
    assert_eq!(
        lex("=<"),
        vec![pair(TokenType::Equal, "="), pair(TokenType::LessThan, "<")]
    );
}

#[test]
fn underscores_belong_to_identifiers() {
    assert_eq!(
        lex("_my_table x_"),
        vec![pair(TokenType::Identifier, "_my_table"), pair(TokenType::Identifier, "x_")]
    );
}

#[test]
fn digits_and_other_characters_are_unknown_one_by_one() {
    assert_eq!(
        lex("x1 @"),
        vec![
            pair(TokenType::Identifier, "x"),
            pair(TokenType::Unknown, "1"),
            pair(TokenType::Unknown, "@"),
        ]
    );
}

#[test]
fn whitespace_only_input_has_no_tokens() {
    assert_eq!(lex(" \t\n\r "), vec![]);
    assert_eq!(lex(""), vec![]);
}

#[test]
fn whitespace_is_skipped_between_tokens() {
    assert_eq!(
        lex("\tSELECT\n\nid\r\n"),
        vec![pair(TokenType::Select, "SELECT"), pair(TokenType::Identifier, "id")]
    );
}

#[test]
fn step_by_step_then_nothing_more() {
    let mut lexer = Lexer::new("INSERT INTO t".to_string());
    let first = lexer.get_next_token().unwrap();
    assert_eq!(first.token_type, TokenType::Insert);
    let second = lexer.get_next_token().unwrap();
    assert_eq!(second.token_type, TokenType::Into);
    let third = lexer.get_next_token().unwrap();
    assert_eq!((third.token_type, third.literal.as_str()), (TokenType::Identifier, "t"));
    assert!(lexer.get_next_token().is_none());
    assert!(lexer.get_next_token().is_none());
}

#[test]
fn after_tokenize_nothing_is_left() {
    let mut lexer = Lexer::new("UPDATE t SET a = b".to_string());
    assert_eq!(lexer.tokenize().len(), 6);
    assert!(lexer.get_next_token().is_none());
    assert_eq!(lexer.tokenize().len(), 0);
}

#[test]
fn any_input_lexes_to_its_end() {
    let mut lexer = Lexer::new("DELETE FROM t WHERE a != 3 OR b <= c;".to_string());
    assert_eq!(lexer.tokenize().len(), 12);
    assert!(lexer.get_next_token().is_none());
}

#[test]
fn current_char_and_skip_whitespace() {
    let mut lexer = Lexer::new("  ab".to_string());
    assert_eq!(lexer.current_char(), Some(' '));
    lexer.skip_whitespace();
    assert_eq!(lexer.current_char(), Some('a'));
    let word = lexer.collect_identifier();
    assert_eq!(word.literal, "ab");
    assert_eq!(lexer.current_char(), None);
}

#[test]
fn collect_operator_reads_one_or_two_characters() {
    let mut lexer = Lexer::new(">=>".to_string());
    let first = lexer.collect_operator();
    assert_eq!((first.token_type, first.literal.as_str()), (TokenType::GreaterThanEqual, ">="));
    let second = lexer.collect_operator();
    assert_eq!((second.token_type, second.literal.as_str()), (TokenType::GreaterThan, ">"));
}

#[test]
fn multibyte_character_is_one_unknown_token() {
    assert_eq!(lex("\u{e9}"), vec![pair(TokenType::Unknown, "\u{e9}")]);
}

#[test]
fn position_moves_past_wide_characters() {
    assert_eq!(
        lex("\u{e9} a"),
        vec![pair(TokenType::Unknown, "\u{e9}"), pair(TokenType::Identifier, "a")]
    );
    assert_eq!(
        lex("\u{e9}\u{e9}a"),
        vec![
            pair(TokenType::Unknown, "\u{e9}"),
            pair(TokenType::Unknown, "\u{e9}"),
            pair(TokenType::Identifier, "a"),
        ]
    );
}

#[test]
fn wide_whitespace_is_skipped() {
    assert_eq!(lex("\u{3000}ab\u{a0}"), vec![pair(TokenType::Identifier, "ab")]);
}

#[test]
fn current_char_after_a_wide_character() {
    let mut lexer = Lexer::new("\u{e9}a".to_string());
    assert_eq!(lexer.current_char(), Some('\u{e9}'));
    let first = lexer.get_next_token().unwrap();
    assert_eq!((first.token_type, first.literal.as_str()), (TokenType::Unknown, "\u{e9}"));
    assert_eq!(lexer.current_char(), Some('a'));
}

#[test]
fn whitespace_matches_std_for_every_character() {
    for code in 0..=0x10FFFFu32 {
        if let Some(c) = char::from_u32(code) {
            assert_eq!(char_is_whitespace(c), c.is_whitespace(), "character {:?}", c);
        }
    }
    for c in ['\u{85}', '\u{2009}', '\u{200b}', '\u{feff}'] {
        let mut lexer = Lexer::new(format!("{}x", c));
        let skipped = lexer.tokenize().len() == 1;
        assert_eq!(skipped, c.is_whitespace(), "character {:?}", c);
    }
}

#[test]
fn uppercase_input_gives_the_same_kinds() {
    let input = "select a, b from t where x <= y and z = w;";
    let lower = lex(input);
    let upper = lex(&input.to_ascii_uppercase());
    assert_eq!(lower.len(), upper.len());
    for (l, u) in lower.iter().zip(upper.iter()) {
        assert_eq!(l.0, u.0);
        assert_eq!(l.1.to_ascii_uppercase(), u.1);
    }
}

#[test]
fn other_whitespace_runs_give_the_same_tokens() {
    assert_eq!(lex("SELECT a  ,\tb FROM t"), lex("SELECT a\n,\u{3000}b   FROM t"));
    assert_eq!(lex("x <= y"), lex("x\t<=\n\ny"));
}

#[test]
fn lexer_texts_are_the_input_without_whitespace() {
    let input = " SELECT a,b\tFROM t WHERE a>=1 ;\u{3000}\u{e9}\n";
    let joined: String = lex(input).into_iter().map(|(_, text)| text).collect();
    let expected: String = input.chars().filter(|c| !c.is_whitespace()).collect();
    assert_eq!(joined, expected);
}

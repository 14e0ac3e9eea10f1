use vstd::prelude::*;
use vstd::string::*;
use crate::frontend::keywords::{
    keyword_entries, keyword_table, operator_entries, operator_table, table_view,
};
use crate::frontend::text::{
    byte_len_fits, byte_offset, byte_substring, char_at_offset, char_index, char_is_alphabetic,
    char_to_string, is_alphabetic, lemma_advance, lemma_char_index, lemma_cursor,
    lemma_offset_before_end, lemma_offsets, len_utf8,
};

verus! {
/// The kinds of token the lexers produce.
#[derive(Clone, Copy, Debug, PartialEq, Eq, Structural)]
pub enum TokenType {
    Unknown,
    Identifier,
    Number,
    String,
    Select,
    From,
    Where,
    Insert,
    Into,
    Values,
    Create,
    Table,
    Delete,
    Update,
    SetKeyword,
    Int,
    And,
    Or,
    Equal,
    NotEqual,
    LessThan,
    GreaterThan,
    LessThanEqual,
    GreaterThanEqual,
    Asterisk,
    Comma,
    Semicolon,
    LeftParen,
    RightParen,
}

/// A token: its kind and the text it was read from.
pub struct Token {
    pub token_type: TokenType,
    pub literal: String,
}

/// What a token stands for in contracts: its kind and its text as characters.
pub struct TokenView {
    pub token_type: TokenType,
    pub literal: Seq<char>,
}

impl View for Token {
    type V = TokenView;

    open spec fn view(&self) -> TokenView {
        TokenView { token_type: self.token_type, literal: self.literal@ }
    }
}

/// The views of a sequence of tokens.
pub open spec fn token_views(tokens: Seq<Token>) -> Seq<TokenView> {
    tokens.map_values(|t: Token| t@)
}

/// The view of a token that may be absent.
pub open spec fn token_view_opt(token: Option<Token>) -> Option<TokenView> {
    match token {
        Some(t) => Some(t@),
        None => None,
    }
}

impl Token {
    /// Builds a token of the given kind and text.
    pub fn new(token_type: TokenType, literal: String) -> (token: Token)
        ensures
            token.token_type == token_type,
            token.literal == literal,
    {
        Token { token_type, literal }
    }
}

/// Where the word of alphabetic characters that starts at index `k` ends.
pub open spec fn word_end(s: Seq<char>, k: nat) -> nat
    decreases s.len() - k,
{
    if k < s.len() && is_alphabetic(s[k as int]) {
        word_end(s, k + 1)
    } else {
        k
    }
}

/// One step of the tokenizer from index `k`: a word of alphabetic characters as an
/// identifier, or any other single character as an unknown token, with the index after it;
/// no token at the end of the text.
pub open spec fn word_step(s: Seq<char>, k: nat) -> (Option<TokenView>, nat) {
    if k >= s.len() {
        (None, k)
    } else if is_alphabetic(s[k as int]) {
        let end = word_end(s, k);
        (
            Some(
                TokenView {
                    token_type: TokenType::Identifier,
                    literal: s.subrange(k as int, end as int),
                },
            ),
            end,
        )
    } else {
        (Some(TokenView { token_type: TokenType::Unknown, literal: seq![s[k as int]] }), k + 1)
    }
}

proof fn lemma_word_end_bounds(s: Seq<char>, k: nat)
    ensures
        forall|i: int| k <= i < word_end(s, k) ==> is_alphabetic(s[i]),
        word_end(s, k) < s.len() ==> !is_alphabetic(s[word_end(s, k) as int]),
        k <= word_end(s, k),
        k <= s.len() ==> word_end(s, k) <= s.len(),
        k < s.len() && is_alphabetic(s[k as int]) ==> k < word_end(s, k),
    decreases s.len() - k,
{
    if k < s.len() && is_alphabetic(s[k as int]) {
        lemma_word_end_bounds(s, k + 1);
    }
}

/// A tokenizer step that yields a token moves forward and stays within the text.
pub proof fn lemma_word_step_advances(s: Seq<char>, k: nat)
    ensures
        word_step(s, k).0 is Some ==> k < word_step(s, k).1 <= s.len(),
        word_step(s, k).0 is None ==> word_step(s, k).1 == k && s.len() <= k,
{
    lemma_word_end_bounds(s, k);
}

/// The tokens that the tokenizer reads from index `k` on, with the index where it stops.
pub open spec fn word_tokens(s: Seq<char>, k: nat) -> (Seq<TokenView>, nat)
    decreases s.len() - k,
{
    let (token, next) = word_step(s, k);
    match token {
        None => (Seq::empty(), next),
        Some(t) => {
            proof {
                lemma_word_step_advances(s, k);
            }
            let (rest, stop) = word_tokens(s, next);
            (seq![t] + rest, stop)
        },
    }
}

/// The texts of the tokens, one after another.
pub open spec fn concat_literals(tokens: Seq<TokenView>) -> Seq<char>
    decreases tokens.len(),
{
    if tokens.len() == 0 {
        Seq::empty()
    } else {
        tokens[0].literal + concat_literals(tokens.drop_first())
    }
}

/// The tokenizer loses nothing: it reads to the end of the text, and the texts of its tokens,
/// one after another, are the text from index `k` on.
pub proof fn lemma_tokens_rebuild_input(s: Seq<char>, k: nat)
    requires
        k <= s.len(),
    ensures
        word_tokens(s, k).1 == s.len(),
        concat_literals(word_tokens(s, k).0) == s.subrange(k as int, s.len() as int),
    decreases s.len() - k,
{
    lemma_word_step_advances(s, k);
    if k < s.len() {
        let next = word_step(s, k).1;
        if !is_alphabetic(s[k as int]) {
            assert(seq![s[k as int]] =~= s.subrange(k as int, k as int + 1));
        }
        lemma_tokens_rebuild_input(s, next);
        let token = word_step(s, k).0.unwrap();
        let rest = word_tokens(s, next).0;
        let all = seq![token] + rest;
        assert(all[0] == token);
        assert(all.drop_first() =~= rest);
        assert(s.subrange(k as int, s.len() as int) =~= s.subrange(k as int, next as int)
            + s.subrange(next as int, s.len() as int));
    } else {
        assert(s.subrange(k as int, s.len() as int) =~= Seq::<char>::empty());
    }
}

/// Each step of the tokenizer reads either a word or one other character. A word is a
/// maximal run of alphabetic characters: it holds at least one character, every one of them
/// alphabetic, and the character after it, if any, is not alphabetic. Any other token is the
/// single non-alphabetic character at the position, as an unknown token.
pub proof fn lemma_word_step_shape(s: Seq<char>, k: nat)
    requires
        k <= s.len(),
    ensures
        word_step(s, k).0 matches Some(t) ==> {
            let next = word_step(s, k).1;
            &&& t.token_type == TokenType::Identifier || t.token_type == TokenType::Unknown
            &&& t.token_type == TokenType::Identifier ==> {
                &&& t.literal == s.subrange(k as int, next as int)
                &&& t.literal.len() >= 1
                &&& forall|i: int| 0 <= i < t.literal.len() ==> is_alphabetic(#[trigger] t.literal[i])
                &&& next < s.len() ==> !is_alphabetic(s[next as int])
            }
            &&& t.token_type == TokenType::Unknown ==> {
                &&& t.literal == seq![s[k as int]]
                &&& !is_alphabetic(s[k as int])
                &&& next == k + 1
            }
        },
{
    lemma_word_end_bounds(s, k);
    if k < s.len() && is_alphabetic(s[k as int]) {
        let e = word_end(s, k);
        let text = s.subrange(k as int, e as int);
        assert forall|i: int| 0 <= i < text.len() implies is_alphabetic(#[trigger] text[i]) by {
            assert(text[i] == s[k + i]);
        }
    }
}

/// The tokens of the tokenizer are words and single characters: each word is made of
/// alphabetic characters and is followed, if by anything, by an unknown token, so no two words
/// touch; each unknown token is one character that is not alphabetic.
pub proof fn lemma_word_tokens_shape(s: Seq<char>, k: nat)
    requires
        k <= s.len(),
    ensures
        forall|i: int|
            0 <= i < word_tokens(s, k).0.len() ==> {
                let t = #[trigger] word_tokens(s, k).0[i];
                &&& t.token_type == TokenType::Identifier || t.token_type == TokenType::Unknown
                &&& t.token_type == TokenType::Identifier ==> {
                    &&& t.literal.len() >= 1
                    &&& forall|j: int|
                        0 <= j < t.literal.len() ==> is_alphabetic(#[trigger] t.literal[j])
                    &&& i + 1 < word_tokens(s, k).0.len() ==> word_tokens(s, k).0[i + 1].token_type
                        == TokenType::Unknown
                }
                &&& t.token_type == TokenType::Unknown ==> t.literal.len() == 1 && !is_alphabetic(
                    t.literal[0],
                )
            },
    decreases s.len() - k,
{
    lemma_word_step_advances(s, k);
    lemma_word_step_shape(s, k);
    let (token, next) = word_step(s, k);
    if let Some(t) = token {
        lemma_word_tokens_shape(s, next);
        lemma_word_step_advances(s, next);
        lemma_word_step_shape(s, next);
        let rest = word_tokens(s, next).0;
        let all = seq![t] + rest;
        assert forall|i: int| 0 < i < all.len() implies all[i] == rest[i - 1] by {}
        assert(all[0] == t);
        if t.token_type == TokenType::Identifier && rest.len() > 0 {
            assert(rest[0] == word_step(s, next).0.unwrap());
        }
    }
}

/// Splits text into runs of alphabetic characters, as identifiers, and single other
/// characters, as unknown tokens. The position is a byte offset into the text, always at the
/// start of a character.
pub struct Tokenizer {
    input: String,
    position: usize,
    keyword: Vec<(String, TokenType)>,
    operation: Vec<(String, TokenType)>,
}

impl Tokenizer {
    #[verifier::type_invariant]
    spec fn well_formed(&self) -> bool {
        &&& table_view(self.keyword@) == keyword_entries()
        &&& table_view(self.operation@) == operator_entries()
        &&& byte_len_fits(self.input@)
        &&& exists|k: int|
            0 <= k <= self.input@.len() && byte_offset(self.input@, k) == self.position
    }

    /// The text being read.
    pub closed spec fn text(&self) -> Seq<char> {
        self.input@
    }

    /// The keyword table, as keys with their kinds.
    pub closed spec fn keywords(&self) -> Seq<(Seq<char>, TokenType)> {
        table_view(self.keyword@)
    }

    /// The operator table, as keys with their kinds.
    pub closed spec fn operators(&self) -> Seq<(Seq<char>, TokenType)> {
        table_view(self.operation@)
    }

    /// The index of the character at the current position.
    pub closed spec fn index(&self) -> nat {
        char_index(self.input@, self.position as int) as nat
    }

    /// A tokenizer at the start of `input`, with its keyword and operator tables.
    pub fn new(input: String) -> (tokenizer: Self)
        requires
            byte_len_fits(input@),
        ensures
            tokenizer.text() == input@,
            tokenizer.index() == 0,
            tokenizer.keywords() == keyword_entries(),
            tokenizer.operators() == operator_entries(),
    {
        proof {
            lemma_offsets(input@, 0, 0);
            assert(input@.take(0) =~= Seq::<char>::empty());
            lemma_char_index(input@, 0);
        }
        Tokenizer { input, position: 0, keyword: keyword_table(), operation: operator_table() }
    }

    /// The character at the current position, if the position is before the end.
    fn current(&self) -> (c: Option<char>)
        ensures
            self.index() <= self.text().len(),
            c == (if self.index() < self.text().len() {
                Some(self.text()[self.index() as int])
            } else {
                None
            }),
    {
        proof {
            use_type_invariant(self);
            lemma_cursor(self.input@, self.position as int);
            lemma_offset_before_end(self.input@, self.position as int);
        }
        if self.position >= self.input.as_str().len() {
            return None;
        }
        char_at_offset(self.input.as_str(), self.position, Ghost(self.index() as int))
    }

    /// Moves past the character `ch` at the current position.
    fn advance(&mut self, ch: char)
        requires
            old(self).index() < old(self).text().len(),
            old(self).text()[old(self).index() as int] == ch,
        ensures
            final(self).text() == old(self).text(),
            final(self).index() == old(self).index() + 1,
    {
        proof {
            use_type_invariant(&*self);
            lemma_advance(self.input@, self.position as int, ch);
        }
        self.position = self.position + len_utf8(ch);
    }

    /// Reads the run of alphabetic characters at the current position as an identifier.
    pub fn collect_identifier(&mut self) -> (token: Option<Token>)
        ensures
            final(self).text() == old(self).text(),
            final(self).index() == word_end(old(self).text(), old(self).index()),
            token_view_opt(token) == Some(
                TokenView {
                    token_type: TokenType::Identifier,
                    literal: old(self).text().subrange(
                        old(self).index() as int,
                        final(self).index() as int,
                    ),
                },
            ),
    {
        proof {
            use_type_invariant(&*self);
            lemma_cursor(self.input@, self.position as int);
        }
        let ghost s = self.input@;
        let ghost first = self.index();
        let start_position = self.position;
        loop
            invariant
                self.text() == s,
                first == old(self).index(),
                first <= self.index() <= s.len(),
                start_position == byte_offset(s, first as int),
                word_end(s, self.index()) == word_end(s, first),
            ensures
                self.text() == s,
                first <= self.index() <= s.len(),
                self.index() == word_end(s, first),
            decreases s.len() - self.index(),
        {
            match self.current() {
                Some(ch) => {
                    if char_is_alphabetic(ch) {
                        self.advance(ch);
                    } else {
                        break ;
                    }
                },
                None => {
                    break ;
                },
            }
        }
        proof {
            use_type_invariant(&*self);
            lemma_cursor(s, self.position as int);
            lemma_offsets(s, first as int, self.index() as int);
        }
        let text = byte_substring(self.input.as_str(), start_position, self.position).unwrap();
        Some(Token::new(TokenType::Identifier, text))
    }

    /// Reads one token: a word of alphabetic characters, or any other single character as an
    /// unknown token; `None` once the position reaches the end of the input.
    pub fn get_next_token(&mut self) -> (token: Option<Token>)
        ensures
            final(self).text() == old(self).text(),
            word_step(old(self).text(), old(self).index()) == (
                token_view_opt(token),
                final(self).index(),
            ),
    {
        let current_character = match self.current() {
            Some(c) => c,
            None => {
                return None;
            },
        };
        if char_is_alphabetic(current_character) {
            return self.collect_identifier();
        } else {
            self.advance(current_character);
            return Some(Token::new(TokenType::Unknown, char_to_string(current_character)));
        }
    }

    /// Reads all the tokens from the current position on.
    pub fn tokenize(&mut self) -> (tokens: Vec<Token>)
        ensures
            final(self).text() == old(self).text(),
            word_tokens(old(self).text(), old(self).index()) == (
                token_views(tokens@),
                final(self).index(),
            ),
    {
        proof {
            use_type_invariant(&*self);
            lemma_cursor(self.input@, self.position as int);
        }
        let mut tokens: Vec<Token> = Vec::new();
        loop
            invariant
                self.text() == old(self).text(),
                self.index() <= self.text().len(),
                word_tokens(old(self).text(), old(self).index()) == (
                    token_views(tokens@) + word_tokens(self.text(), self.index()).0,
                    word_tokens(self.text(), self.index()).1,
                ),
            ensures
                self.text() == old(self).text(),
                word_tokens(old(self).text(), old(self).index()) == (
                    token_views(tokens@),
                    self.index(),
                ),
            decreases self.text().len() - self.index(),
        {
            proof {
                lemma_word_step_advances(self.text(), self.index());
            }
            let ghost before = token_views(tokens@);
            let ghost rest = word_tokens(self.text(), self.index());
            match self.get_next_token() {
                Some(token) => {
                    tokens.push(token);
                    proof {
                        assert(token_views(tokens@) =~= before.push(token@));
                        assert(before + rest.0 =~= token_views(tokens@) + word_tokens(
                            self.text(),
                            self.index(),
                        ).0);
                    }
                },
                None => {
                    proof {
                        assert(before + rest.0 =~= before);
                    }
                    break ;
                },
            }
        }
        tokens
    }
}

} // verus!

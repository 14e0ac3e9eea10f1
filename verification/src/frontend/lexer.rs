use vstd::prelude::*;
use vstd::string::*;
use vstd::utf8::is_ascii_chars;
use crate::frontend::keywords::{
    keyword_entries, keyword_table, lemma_keywords_distinct, lemma_lookup_finds_entry,
    lemma_operators_distinct, lookup, operator_entries, operator_table, table_get, table_view,
};
use crate::frontend::text::{
    ascii_alphabetic, ascii_upper_char, ascii_uppercase, byte_len_fits, byte_offset,
    byte_substring, char_at_offset, char_index, char_is_whitespace, char_to_string,
    is_ascii_letter, is_white_space, lemma_advance, lemma_char_index, lemma_cursor, lemma_offsets,
    len_utf8, to_uppercase,
};
use crate::frontend::token::{
    Token, TokenType, TokenView, concat_literals, token_view_opt, token_views,
};

verus! {

/// A character that can stand in an identifier or keyword.
pub open spec fn is_identifier_char(c: char) -> bool {
    is_ascii_letter(c) || c == '_'
}

/// A character that starts an operator or symbol.
pub open spec fn is_operator_char(c: char) -> bool {
    c == '=' || c == '!' || c == '<' || c == '>' || c == '*' || c == ',' || c == ';' || c == '('
        || c == ')'
}

/// The character at index `k`, if there is one.
pub open spec fn char_at(s: Seq<char>, k: nat) -> Option<char> {
    if k < s.len() {
        Some(s[k as int])
    } else {
        None
    }
}

/// Where skipping whitespace from index `k` stops.
pub open spec fn skip_whitespace_from(s: Seq<char>, k: nat) -> nat
    decreases s.len() - k,
{
    if k < s.len() && is_white_space(s[k as int]) {
        skip_whitespace_from(s, k + 1)
    } else {
        k
    }
}

/// Where the run of identifier characters that starts at index `k` ends.
pub open spec fn identifier_end(s: Seq<char>, k: nat) -> nat
    decreases s.len() - k,
{
    if k < s.len() && is_identifier_char(s[k as int]) {
        identifier_end(s, k + 1)
    } else {
        k
    }
}

/// The kind of a word: the keyword that its upper-case form spells, or an identifier.
pub open spec fn keyword_kind(word: Seq<char>) -> TokenType {
    match lookup(keyword_entries(), ascii_uppercase(word)) {
        Some(kind) => kind,
        None => TokenType::Identifier,
    }
}

/// The kind of an operator text: the operator it names, or an identifier.
pub open spec fn operator_kind(text: Seq<char>) -> TokenType {
    match lookup(operator_entries(), text) {
        Some(kind) => kind,
        None => TokenType::Identifier,
    }
}

/// The identifier or keyword token that starts at index `k`, with the index after it.
pub open spec fn identifier_at(s: Seq<char>, k: nat) -> (TokenView, nat) {
    let end = identifier_end(s, k);
    let text = s.subrange(k as int, end as int);
    (TokenView { token_type: keyword_kind(text), literal: text }, end)
}

/// The operator token that starts at index `k`, with the index after it: two characters
/// where they form an operator of the table, else one.
pub open spec fn operator_at(s: Seq<char>, k: nat) -> (TokenView, nat)
    recommends
        k < s.len(),
{
    let first = s[k as int];
    if k + 1 < s.len() && lookup(operator_entries(), seq![first, s[k as int + 1]]) is Some {
        let text = seq![first, s[k as int + 1]];
        (TokenView { token_type: operator_kind(text), literal: text }, k + 2)
    } else {
        (TokenView { token_type: operator_kind(seq![first]), literal: seq![first] }, k + 1)
    }
}

/// One step of the lexer from index `k`: the next token (none at the end of the input) and
/// the index after it.
pub open spec fn next_token_from(s: Seq<char>, k: nat) -> (Option<TokenView>, nat) {
    let start = skip_whitespace_from(s, k);
    if start >= s.len() {
        (None, start)
    } else {
        let c = s[start as int];
        if is_identifier_char(c) {
            let (token, end) = identifier_at(s, start);
            (Some(token), end)
        } else if is_operator_char(c) {
            let (token, end) = operator_at(s, start);
            (Some(token), end)
        } else {
            (Some(TokenView { token_type: TokenType::Unknown, literal: seq![c] }), start + 1)
        }
    }
}

proof fn lemma_skip_whitespace_bounds(s: Seq<char>, k: nat)
    ensures
        k <= skip_whitespace_from(s, k),
        k <= s.len() ==> skip_whitespace_from(s, k) <= s.len(),
        skip_whitespace_from(s, k) < s.len() ==> !is_white_space(
            s[skip_whitespace_from(s, k) as int],
        ),
        forall|i: int| k <= i < skip_whitespace_from(s, k) ==> is_white_space(s[i]),
    decreases s.len() - k,
{
    if k < s.len() && is_white_space(s[k as int]) {
        lemma_skip_whitespace_bounds(s, k + 1);
    }
}

proof fn lemma_identifier_end_bounds(s: Seq<char>, k: nat)
    ensures
        k <= identifier_end(s, k),
        k <= s.len() ==> identifier_end(s, k) <= s.len(),
        k < s.len() && is_identifier_char(s[k as int]) ==> k < identifier_end(s, k),
        forall|i: int| k <= i < identifier_end(s, k) ==> is_identifier_char(s[i]),
        identifier_end(s, k) < s.len() ==> !is_identifier_char(s[identifier_end(s, k) as int]),
    decreases s.len() - k,
{
    if k < s.len() && is_identifier_char(s[k as int]) {
        lemma_identifier_end_bounds(s, k + 1);
    }
}

/// A step that yields a token moves forward and stays within the text; a step that yields
/// none stops at the end of the text, or where it started if that is past the end.
pub proof fn lemma_next_token_advances(s: Seq<char>, k: nat)
    ensures
        next_token_from(s, k).0 is Some ==> k < next_token_from(s, k).1 <= s.len(),
        next_token_from(s, k).0 is None ==> k <= next_token_from(s, k).1 && s.len()
            <= next_token_from(s, k).1,
        next_token_from(s, k).0 is None && k <= s.len() ==> next_token_from(s, k).1 == s.len(),
{
    lemma_skip_whitespace_bounds(s, k);
    let start = skip_whitespace_from(s, k);
    if start < s.len() {
        lemma_identifier_end_bounds(s, start);
    }
}

/// The tokens that the lexer reads from index `k` to the end of the input, with the index
/// where it stops.
pub open spec fn tokens_from(s: Seq<char>, k: nat) -> (Seq<TokenView>, nat)
    decreases s.len() - k,
{
    let (token, next) = next_token_from(s, k);
    match token {
        None => (Seq::empty(), next),
        Some(t) => {
            proof {
                lemma_next_token_advances(s, k);
            }
            let (rest, stop) = tokens_from(s, next);
            (seq![t] + rest, stop)
        },
    }
}

/// The characters of `s` that are not whitespace, in order.
pub open spec fn without_whitespace(s: Seq<char>) -> Seq<char>
    decreases s.len(),
{
    if s.len() == 0 {
        Seq::empty()
    } else {
        (if is_white_space(s[0]) {
            Seq::empty()
        } else {
            seq![s[0]]
        }) + without_whitespace(s.drop_first())
    }
}

proof fn lemma_without_whitespace_concat(a: Seq<char>, b: Seq<char>)
    ensures
        without_whitespace(a + b) == without_whitespace(a) + without_whitespace(b),
    decreases a.len(),
{
    if a.len() == 0 {
        assert(a + b =~= b);
        assert(without_whitespace(a) + without_whitespace(b) =~= without_whitespace(b));
    } else {
        lemma_without_whitespace_concat(a.drop_first(), b);
        assert((a + b).drop_first() =~= a.drop_first() + b);
        assert((a + b)[0] == a[0]);
        assert(without_whitespace(a + b) =~= without_whitespace(a) + without_whitespace(b));
    }
}

proof fn lemma_without_whitespace_all(s: Seq<char>, keep: bool)
    requires
        forall|i: int| 0 <= i < s.len() ==> is_white_space(#[trigger] s[i]) != keep,
    ensures
        without_whitespace(s) == (if keep {
            s
        } else {
            Seq::<char>::empty()
        }),
    decreases s.len(),
{
    if s.len() > 0 {
        let rest = s.drop_first();
        assert forall|i: int| 0 <= i < rest.len() implies is_white_space(#[trigger] rest[i])
            != keep by {
            assert(rest[i] == s[i + 1]);
        }
        lemma_without_whitespace_all(rest, keep);
        assert(is_white_space(s[0]) != keep);
        if keep {
            assert(seq![s[0]] + rest =~= s);
        } else {
            assert(Seq::<char>::empty() + Seq::<char>::empty() =~= Seq::<char>::empty());
        }
    }
}

/// A step of the lexer skips only whitespace. At the end of the input it reads no token and
/// stops there; else it reads a token whose text is exactly the input from where the token
/// starts to where the step ends, and holds no whitespace.
pub proof fn lemma_step(s: Seq<char>, k: nat)
    requires
        k <= s.len(),
    ensures
        next_token_from(s, k).0 is None ==> next_token_from(s, k).1 == s.len() && forall|i: int|
            k <= i < s.len() ==> is_white_space(s[i]),
        next_token_from(s, k).0 matches Some(t) ==> {
            let next = next_token_from(s, k).1;
            let start = next - t.literal.len();
            &&& k <= start < next <= s.len()
            &&& t.literal == s.subrange(start, next as int)
            &&& forall|i: int| 0 <= i < t.literal.len() ==> !is_white_space(#[trigger] t.literal[i])
            &&& forall|i: int| k <= i < start ==> is_white_space(s[i])
        },
{
    lemma_skip_whitespace_bounds(s, k);
    lemma_next_token_advances(s, k);
    let start = skip_whitespace_from(s, k);
    if start < s.len() {
        let c = s[start as int];
        let st = start as int;
        if is_identifier_char(c) {
            lemma_identifier_end_bounds(s, start);
            let text = s.subrange(st, identifier_end(s, start) as int);
            assert forall|i: int| 0 <= i < text.len() implies !is_white_space(#[trigger] text[i]) by {
                assert(text[i] == s[st + i]);
                assert(is_identifier_char(s[st + i]));
            }
        } else if is_operator_char(c) {
            if st + 1 < s.len() {
                assert(seq![c, s[st + 1]] =~= s.subrange(st, st + 2));
                if lookup(operator_entries(), seq![c, s[st + 1]]) is Some {
                    lemma_operators_distinct();
                    lemma_lookup_finds_entry(operator_entries(), seq![c, s[st + 1]]);
                    reveal_strlit("!=");
                    reveal_strlit("<=");
                    reveal_strlit(">=");
                    reveal_strlit("=");
                    reveal_strlit("<");
                    reveal_strlit(">");
                    reveal_strlit("*");
                    reveal_strlit(",");
                    reveal_strlit(";");
                    reveal_strlit("(");
                    reveal_strlit(")");
                    let i = choose|i: int|
                        0 <= i < operator_entries().len() && operator_entries()[i].0 == seq![
                            c,
                            s[st + 1],
                        ];
                    assert(seq![c, s[st + 1]][1] == s[st + 1]);
                    assert(!is_white_space(s[st + 1]));
                }
            }
            assert(seq![c] =~= s.subrange(st, st + 1));
        } else {
            assert(seq![c] =~= s.subrange(st, st + 1));
        }
    }
}

/// The lexer reads the whole input and loses nothing but whitespace: the texts of its tokens,
/// one after another, are the input from index `k` with every whitespace character taken out.
pub proof fn lemma_lexing_drops_whitespace(s: Seq<char>, k: nat)
    requires
        k <= s.len(),
    ensures
        tokens_from(s, k).1 == s.len(),
        concat_literals(tokens_from(s, k).0) == without_whitespace(
            s.subrange(k as int, s.len() as int),
        ),
    decreases s.len() - k,
{
    lemma_step(s, k);
    lemma_next_token_advances(s, k);
    let (token, next) = next_token_from(s, k);
    match token {
        Some(t) => {
            lemma_lexing_drops_whitespace(s, next);
            let start = next - t.literal.len();
            let gap = s.subrange(k as int, start);
            let rest_full = s.subrange(next as int, s.len() as int);
            let rest = tokens_from(s, next).0;
            assert forall|i: int| 0 <= i < gap.len() implies is_white_space(#[trigger] gap[i])
                != false by {
                assert(gap[i] == s[k + i]);
            }
            lemma_without_whitespace_all(gap, false);
            lemma_without_whitespace_all(t.literal, true);
            assert(s.subrange(k as int, s.len() as int) =~= gap + (t.literal + rest_full));
            lemma_without_whitespace_concat(gap, t.literal + rest_full);
            lemma_without_whitespace_concat(t.literal, rest_full);
            let all = seq![t] + rest;
            assert(all[0] == t);
            assert(all.drop_first() =~= rest);
            assert(Seq::<char>::empty() + (t.literal + without_whitespace(rest_full)) =~= t.literal
                + without_whitespace(rest_full));
        },
        None => {
            let gap = s.subrange(k as int, s.len() as int);
            assert forall|i: int| 0 <= i < gap.len() implies is_white_space(#[trigger] gap[i])
                != false by {
                assert(gap[i] == s[k + i]);
            }
            lemma_without_whitespace_all(gap, false);
        },
    }
}

/// A token with its text in upper case.
pub open spec fn upper_token(t: TokenView) -> TokenView {
    TokenView { token_type: t.token_type, literal: ascii_uppercase(t.literal) }
}

proof fn lemma_upper_char(c: char)
    requires
        c <= '\u{7f}',
    ensures
        ascii_upper_char(c) <= '\u{7f}',
        is_white_space(ascii_upper_char(c)) == is_white_space(c),
        is_identifier_char(ascii_upper_char(c)) == is_identifier_char(c),
        is_operator_char(ascii_upper_char(c)) == is_operator_char(c),
        !is_ascii_letter(c) ==> ascii_upper_char(c) == c,
        ascii_upper_char(ascii_upper_char(c)) == ascii_upper_char(c),
{
    if 'a' <= c && c <= 'z' {
        let v = ((c as u32) - 32) as u32;
        assert(65 <= v <= 90);
        vstd::utf8::char_u32_cast(ascii_upper_char(c), v);
        assert('A' <= ascii_upper_char(c) && ascii_upper_char(c) <= 'Z');
    }
}

proof fn lemma_upper_text(s: Seq<char>)
    requires
        is_ascii_chars(s),
    ensures
        ascii_uppercase(s).len() == s.len(),
        is_ascii_chars(ascii_uppercase(s)),
        ascii_uppercase(ascii_uppercase(s)) == ascii_uppercase(s),
        forall|i: int| 0 <= i < s.len() ==> #[trigger] ascii_uppercase(s)[i] == ascii_upper_char(s[i]),
{
    let u = ascii_uppercase(s);
    assert forall|i: int| 0 <= i < s.len() implies '\0' <= #[trigger] u[i] <= '\u{7f}' by {
        lemma_upper_char(s[i]);
    }
    assert forall|i: int| 0 <= i < s.len() implies #[trigger] ascii_uppercase(u)[i] == u[i] by {
        lemma_upper_char(s[i]);
    }
    assert(ascii_uppercase(u) =~= u);
}

/// Every character of an operator text in the table is an operator character.
proof fn lemma_operator_texts(t: Seq<char>)
    requires
        lookup(operator_entries(), t) is Some,
    ensures
        forall|i: int| 0 <= i < t.len() ==> is_operator_char(#[trigger] t[i]),
{
    lemma_operators_distinct();
    lemma_lookup_finds_entry(operator_entries(), t);
    reveal_strlit("=");
    reveal_strlit("!=");
    reveal_strlit("<");
    reveal_strlit(">");
    reveal_strlit("<=");
    reveal_strlit(">=");
    reveal_strlit("*");
    reveal_strlit(",");
    reveal_strlit(";");
    reveal_strlit("(");
    reveal_strlit(")");
    let e = operator_entries();
    let j = choose|j: int| 0 <= j < e.len() && e[j].0 == t;
    assert(e[j].0 == t);
}

proof fn lemma_upper_skip(s: Seq<char>, k: nat)
    requires
        is_ascii_chars(s),
    ensures
        skip_whitespace_from(ascii_uppercase(s), k) == skip_whitespace_from(s, k),
    decreases s.len() - k,
{
    lemma_upper_text(s);
    if k < s.len() {
        lemma_upper_char(s[k as int]);
        if is_white_space(s[k as int]) {
            lemma_upper_skip(s, k + 1);
        }
    }
}

proof fn lemma_upper_identifier_end(s: Seq<char>, k: nat)
    requires
        is_ascii_chars(s),
    ensures
        identifier_end(ascii_uppercase(s), k) == identifier_end(s, k),
    decreases s.len() - k,
{
    lemma_upper_text(s);
    if k < s.len() {
        lemma_upper_char(s[k as int]);
        if is_identifier_char(s[k as int]) {
            lemma_upper_identifier_end(s, k + 1);
        }
    }
}

proof fn lemma_upper_step(s: Seq<char>, k: nat)
    requires
        is_ascii_chars(s),
    ensures
        next_token_from(ascii_uppercase(s), k).1 == next_token_from(s, k).1,
        next_token_from(ascii_uppercase(s), k).0 == match next_token_from(s, k).0 {
            Some(t) => Some(upper_token(t)),
            None => None,
        },
{
    let u = ascii_uppercase(s);
    lemma_upper_text(s);
    lemma_upper_skip(s, k);
    lemma_skip_whitespace_bounds(s, k);
    let start = skip_whitespace_from(s, k);
    if start < s.len() {
        let st = start as int;
        let c = s[st];
        lemma_upper_char(c);
        if is_identifier_char(c) {
            lemma_upper_identifier_end(s, start);
            lemma_identifier_end_bounds(s, start);
            let end = identifier_end(s, start) as int;
            let text = s.subrange(st, end);
            assert(u.subrange(st, end) =~= ascii_uppercase(text));
            assert(is_ascii_chars(text));
            lemma_upper_text(text);
        } else if is_operator_char(c) {
            if st + 1 < s.len() {
                let d = s[st + 1];
                lemma_upper_char(d);
                let pair = seq![c, d];
                let upair = seq![ascii_upper_char(c), ascii_upper_char(d)];
                if lookup(operator_entries(), pair) is Some {
                    lemma_operator_texts(pair);
                    assert(pair[1] == d);
                    assert(upair =~= pair);
                }
                if lookup(operator_entries(), upair) is Some {
                    lemma_operator_texts(upair);
                    assert(upair[1] == ascii_upper_char(d));
                    assert(upair =~= pair);
                }
                assert(seq![u[st], u[st + 1]] =~= upair);
                assert(ascii_uppercase(pair) =~= upair);
            }
            assert(ascii_uppercase(seq![c]) =~= seq![c]);
            assert(seq![u[st]] =~= seq![c]);
        } else {
            assert(ascii_uppercase(seq![c]) =~= seq![c]);
        }
    }
}

/// Upper-casing ASCII text changes no token's kind and only upper-cases each token's text:
/// keywords are found whatever their case.
pub proof fn lemma_uppercase_input(s: Seq<char>, k: nat)
    requires
        is_ascii_chars(s),
    ensures
        tokens_from(ascii_uppercase(s), k).1 == tokens_from(s, k).1,
        tokens_from(ascii_uppercase(s), k).0 == tokens_from(s, k).0.map_values(
            |t: TokenView| upper_token(t),
        ),
    decreases s.len() - k,
{
    lemma_upper_step(s, k);
    lemma_next_token_advances(s, k);
    let (token, next) = next_token_from(s, k);
    if let Some(t) = token {
        lemma_uppercase_input(s, next);
        let rest = tokens_from(s, next).0;
        assert((seq![t] + rest).map_values(|t: TokenView| upper_token(t)) =~= seq![upper_token(t)]
            + rest.map_values(|t: TokenView| upper_token(t)));
    } else {
        assert(Seq::<TokenView>::empty().map_values(|t: TokenView| upper_token(t)) =~= Seq::<
            TokenView,
        >::empty());
    }
}

/// `s` from index `i` on and `t` from index `j` on are the same text.
pub open spec fn same_after(s: Seq<char>, i: nat, t: Seq<char>, j: nat) -> bool {
    &&& i <= s.len()
    &&& j <= t.len()
    &&& s.len() - i == t.len() - j
    &&& forall|d: int| 0 <= d < s.len() - i ==> #[trigger] s[i as int + d] == t[j as int + d]
}

proof fn lemma_same_after_skip(s: Seq<char>, i: nat, t: Seq<char>, j: nat)
    requires
        same_after(s, i, t, j),
    ensures
        skip_whitespace_from(s, i) - i == skip_whitespace_from(t, j) - j,
        identifier_end(s, i) - i == identifier_end(t, j) - j,
    decreases s.len() - i,
{
    if i < s.len() {
        assert(s[i as int + 0] == t[j as int + 0]);
        assert forall|d: int| 0 <= d < s.len() - (i + 1) implies #[trigger] s[(i + 1) + d] == t[(j
            + 1) + d] by {
            assert(s[i + (d + 1)] == t[j + (d + 1)]);
        }
        lemma_same_after_skip(s, i + 1, t, j + 1);
    }
}

proof fn lemma_same_after_shift(s: Seq<char>, i: nat, t: Seq<char>, j: nat, d: nat)
    requires
        same_after(s, i, t, j),
        i + d <= s.len(),
    ensures
        same_after(s, i + d, t, j + d),
{
    assert forall|e: int| 0 <= e < s.len() - (i + d) implies #[trigger] s[(i + d) + e] == t[(j
        + d) + e] by {
        assert(s[i + (d + e)] == t[j + (d + e)]);
    }
}

/// What the lexer reads from a position depends only on the text from there on.
proof fn lemma_same_after_tokens(s: Seq<char>, i: nat, t: Seq<char>, j: nat)
    requires
        same_after(s, i, t, j),
    ensures
        next_token_from(s, i).0 == next_token_from(t, j).0,
        next_token_from(s, i).1 - i == next_token_from(t, j).1 - j,
        tokens_from(s, i).0 == tokens_from(t, j).0,
    decreases s.len() - i,
{
    lemma_same_after_skip(s, i, t, j);
    lemma_skip_whitespace_bounds(s, i);
    lemma_skip_whitespace_bounds(t, j);
    let ss = skip_whitespace_from(s, i);
    let st = skip_whitespace_from(t, j);
    let d = (ss - i) as nat;
    lemma_same_after_shift(s, i, t, j, d);
    if ss < s.len() {
        assert(s[i as int + d] == t[j as int + d]);
        let c = s[ss as int];
        if is_identifier_char(c) {
            lemma_same_after_skip(s, ss, t, st);
            lemma_identifier_end_bounds(s, ss);
            let e = identifier_end(s, ss);
            assert(s.subrange(ss as int, e as int) =~= t.subrange(
                st as int,
                identifier_end(t, st) as int,
            )) by {
                assert forall|x: int| 0 <= x < e - ss implies s.subrange(ss as int, e as int)[x]
                    == t.subrange(st as int, identifier_end(t, st) as int)[x] by {
                    assert(s[ss + x] == t[st + x]);
                }
            }
        } else if is_operator_char(c) {
            if ss + 1 < s.len() {
                assert(s[ss as int + 1] == t[st as int + 1]);
            }
        }
    }
    lemma_next_token_advances(s, i);
    lemma_next_token_advances(t, j);
    let (token, next) = next_token_from(s, i);
    if token is Some {
        let e = (next - i) as nat;
        lemma_same_after_shift(s, i, t, j, e);
        lemma_same_after_tokens(s, next, t, (j + e) as nat);
    }
}

proof fn lemma_skip_settles(s: Seq<char>, k: nat)
    ensures
        skip_whitespace_from(s, skip_whitespace_from(s, k)) == skip_whitespace_from(s, k),
{
    lemma_skip_whitespace_bounds(s, k);
}

proof fn lemma_tokens_from_skip(s: Seq<char>, k: nat, p: nat)
    requires
        skip_whitespace_from(s, k) == skip_whitespace_from(s, p),
    ensures
        tokens_from(s, k).0 == tokens_from(s, p).0,
{
    lemma_next_token_advances(s, k);
    lemma_next_token_advances(s, p);
}

proof fn lemma_agree_skip(s: Seq<char>, t: Seq<char>, n: nat, k: nat)
    requires
        n < s.len(),
        n < t.len(),
        forall|x: int| 0 <= x < n ==> #[trigger] s[x] == t[x],
        is_white_space(s[n as int]),
        is_white_space(t[n as int]),
        k <= n,
    ensures
        (skip_whitespace_from(s, k) < n && skip_whitespace_from(s, k) == skip_whitespace_from(
            t,
            k,
        )) || (skip_whitespace_from(s, k) == skip_whitespace_from(s, n)
            && skip_whitespace_from(t, k) == skip_whitespace_from(t, n)),
    decreases n - k,
{
    if k < n {
        assert(s[k as int] == t[k as int]);
        if is_white_space(s[k as int]) {
            lemma_agree_skip(s, t, n, k + 1);
        }
    }
}

proof fn lemma_agree_identifier_end(s: Seq<char>, t: Seq<char>, n: nat, k: nat)
    requires
        n < s.len(),
        n < t.len(),
        forall|x: int| 0 <= x < n ==> #[trigger] s[x] == t[x],
        is_white_space(s[n as int]),
        is_white_space(t[n as int]),
        k <= n,
    ensures
        identifier_end(s, k) == identifier_end(t, k),
        identifier_end(s, k) <= n,
    decreases n - k,
{
    if k < n {
        assert(s[k as int] == t[k as int]);
        if is_identifier_char(s[k as int]) {
            lemma_agree_identifier_end(s, t, n, k + 1);
        }
    }
}

proof fn lemma_agree_tokens(s: Seq<char>, t: Seq<char>, n: nat, k: nat)
    requires
        n < s.len(),
        n < t.len(),
        forall|x: int| 0 <= x < n ==> #[trigger] s[x] == t[x],
        is_white_space(s[n as int]),
        is_white_space(t[n as int]),
        same_after(s, skip_whitespace_from(s, n), t, skip_whitespace_from(t, n)),
        k <= n,
    ensures
        tokens_from(s, k).0 == tokens_from(t, k).0,
    decreases n - k,
{
    lemma_agree_skip(s, t, n, k);
    let start = skip_whitespace_from(s, k);
    if start < n && start == skip_whitespace_from(t, k) {
        let c = s[start as int];
        assert(c == t[start as int]);
        if is_identifier_char(c) {
            lemma_agree_identifier_end(s, t, n, start);
            lemma_identifier_end_bounds(s, start);
            let e = identifier_end(s, start);
            assert(s.subrange(start as int, e as int) =~= t.subrange(start as int, e as int)) by {
                assert forall|x: int| 0 <= x < e - start implies s.subrange(
                    start as int,
                    e as int,
                )[x] == t.subrange(start as int, e as int)[x] by {
                    assert(s[start + x] == t[start + x]);
                }
            }
        } else if is_operator_char(c) {
            if start + 1 < n {
                assert(s[start as int + 1] == t[start as int + 1]);
            } else {
                let ps = seq![c, s[start as int + 1]];
                let pt = seq![c, t[start as int + 1]];
                if lookup(operator_entries(), ps) is Some {
                    lemma_operator_texts(ps);
                    assert(ps[1] == s[start as int + 1]);
                }
                if lookup(operator_entries(), pt) is Some {
                    lemma_operator_texts(pt);
                    assert(pt[1] == t[start as int + 1]);
                }
            }
        }
        lemma_next_token_advances(s, k);
        let next = next_token_from(s, k).1;
        assert(next <= n);
        lemma_agree_tokens(s, t, n, next);
    } else {
        let ps = skip_whitespace_from(s, n);
        let pt = skip_whitespace_from(t, n);
        lemma_skip_settles(s, n);
        lemma_skip_settles(t, n);
        lemma_tokens_from_skip(s, k, n);
        lemma_tokens_from_skip(t, k, n);
        lemma_tokens_from_skip(s, n, ps);
        lemma_tokens_from_skip(t, n, pt);
        lemma_same_after_tokens(s, ps, t, pt);
    }
}

proof fn lemma_whitespace_run(a: Seq<char>, w: Seq<char>, b: Seq<char>, m: nat)
    requires
        forall|x: int| 0 <= x < w.len() ==> is_white_space(#[trigger] w[x]),
        m <= w.len(),
    ensures
        skip_whitespace_from(a + w + b, a.len() + m) == skip_whitespace_from(
            a + w + b,
            a.len() + w.len(),
        ),
    decreases w.len() - m,
{
    if m < w.len() {
        assert((a + w + b)[a.len() as int + m] == w[m as int]);
        lemma_whitespace_run(a, w, b, m + 1);
    }
}

/// Any run of whitespace can stand for any other: replacing a non-empty run of whitespace
/// by another non-empty run of whitespace leaves the tokens as they were.
pub proof fn lemma_whitespace_runs_interchangeable(
    a: Seq<char>,
    w1: Seq<char>,
    w2: Seq<char>,
    b: Seq<char>,
)
    requires
        w1.len() > 0,
        w2.len() > 0,
        forall|x: int| 0 <= x < w1.len() ==> is_white_space(#[trigger] w1[x]),
        forall|x: int| 0 <= x < w2.len() ==> is_white_space(#[trigger] w2[x]),
    ensures
        tokens_from(a + w1 + b, 0).0 == tokens_from(a + w2 + b, 0).0,
{
    let s = a + w1 + b;
    let t = a + w2 + b;
    let n = a.len();
    assert forall|x: int| 0 <= x < n implies #[trigger] s[x] == t[x] by {
        assert(s[x] == a[x] && t[x] == a[x]);
    }
    assert(s[n as int] == w1[0]);
    assert(t[n as int] == w2[0]);
    lemma_whitespace_run(a, w1, b, 0);
    lemma_whitespace_run(a, w2, b, 0);
    let p = n + w1.len();
    let q = n + w2.len();
    assert(same_after(s, p as nat, t, q as nat)) by {
        assert forall|d: int| 0 <= d < s.len() - p implies #[trigger] s[p + d] == t[q + d] by {
            assert(s[p + d] == b[d] && t[q + d] == b[d]);
        }
    }
    lemma_same_after_skip(s, p as nat, t, q as nat);
    lemma_skip_whitespace_bounds(s, p as nat);
    let d = (skip_whitespace_from(s, p as nat) - p) as nat;
    lemma_same_after_shift(s, p as nat, t, q as nat, d);
    lemma_agree_tokens(s, t, n, 0);
}

/// The keywords, exactly: a word is of a keyword's kind when its upper-case form spells one of
/// SELECT, FROM, WHERE, INSERT, INTO, VALUES, CREATE, TABLE, DELETE, UPDATE, SET, INT, AND,
/// OR, and an identifier otherwise.
pub proof fn lemma_keyword_kinds(word: Seq<char>)
    ensures
        keyword_kind(word) == ({
            let u = ascii_uppercase(word);
            if u == seq!['S', 'E', 'L', 'E', 'C', 'T'] {
                TokenType::Select
            } else if u == seq!['F', 'R', 'O', 'M'] {
                TokenType::From
            } else if u == seq!['W', 'H', 'E', 'R', 'E'] {
                TokenType::Where
            } else if u == seq!['I', 'N', 'S', 'E', 'R', 'T'] {
                TokenType::Insert
            } else if u == seq!['I', 'N', 'T', 'O'] {
                TokenType::Into
            } else if u == seq!['V', 'A', 'L', 'U', 'E', 'S'] {
                TokenType::Values
            } else if u == seq!['C', 'R', 'E', 'A', 'T', 'E'] {
                TokenType::Create
            } else if u == seq!['T', 'A', 'B', 'L', 'E'] {
                TokenType::Table
            } else if u == seq!['D', 'E', 'L', 'E', 'T', 'E'] {
                TokenType::Delete
            } else if u == seq!['U', 'P', 'D', 'A', 'T', 'E'] {
                TokenType::Update
            } else if u == seq!['S', 'E', 'T'] {
                TokenType::SetKeyword
            } else if u == seq!['I', 'N', 'T'] {
                TokenType::Int
            } else if u == seq!['A', 'N', 'D'] {
                TokenType::And
            } else if u == seq!['O', 'R'] {
                TokenType::Or
            } else {
                TokenType::Identifier
            }
        }),
{
    reveal_strlit("SELECT");
    reveal_strlit("FROM");
    reveal_strlit("WHERE");
    reveal_strlit("INSERT");
    reveal_strlit("INTO");
    reveal_strlit("VALUES");
    reveal_strlit("CREATE");
    reveal_strlit("TABLE");
    reveal_strlit("DELETE");
    reveal_strlit("UPDATE");
    reveal_strlit("SET");
    reveal_strlit("INT");
    reveal_strlit("AND");
    reveal_strlit("OR");
    assert("SELECT"@ =~= seq!['S', 'E', 'L', 'E', 'C', 'T']);
    assert("FROM"@ =~= seq!['F', 'R', 'O', 'M']);
    assert("WHERE"@ =~= seq!['W', 'H', 'E', 'R', 'E']);
    assert("INSERT"@ =~= seq!['I', 'N', 'S', 'E', 'R', 'T']);
    assert("INTO"@ =~= seq!['I', 'N', 'T', 'O']);
    assert("VALUES"@ =~= seq!['V', 'A', 'L', 'U', 'E', 'S']);
    assert("CREATE"@ =~= seq!['C', 'R', 'E', 'A', 'T', 'E']);
    assert("TABLE"@ =~= seq!['T', 'A', 'B', 'L', 'E']);
    assert("DELETE"@ =~= seq!['D', 'E', 'L', 'E', 'T', 'E']);
    assert("UPDATE"@ =~= seq!['U', 'P', 'D', 'A', 'T', 'E']);
    assert("SET"@ =~= seq!['S', 'E', 'T']);
    assert("INT"@ =~= seq!['I', 'N', 'T']);
    assert("AND"@ =~= seq!['A', 'N', 'D']);
    assert("OR"@ =~= seq!['O', 'R']);
    reveal_with_fuel(lookup, 15);
}

/// The operators, exactly: = != < > <= >= * , ; ( ) with their kinds; any other text is of the
/// identifier kind.
pub proof fn lemma_operator_kinds(text: Seq<char>)
    ensures
        operator_kind(text) == (if text == seq!['='] {
            TokenType::Equal
        } else if text == seq!['!', '='] {
            TokenType::NotEqual
        } else if text == seq!['<'] {
            TokenType::LessThan
        } else if text == seq!['>'] {
            TokenType::GreaterThan
        } else if text == seq!['<', '='] {
            TokenType::LessThanEqual
        } else if text == seq!['>', '='] {
            TokenType::GreaterThanEqual
        } else if text == seq!['*'] {
            TokenType::Asterisk
        } else if text == seq![','] {
            TokenType::Comma
        } else if text == seq![';'] {
            TokenType::Semicolon
        } else if text == seq!['('] {
            TokenType::LeftParen
        } else if text == seq![')'] {
            TokenType::RightParen
        } else {
            TokenType::Identifier
        }),
        (lookup(operator_entries(), text) is Some) == (operator_kind(text)
            != TokenType::Identifier),
{
    reveal_strlit("=");
    reveal_strlit("!=");
    reveal_strlit("<");
    reveal_strlit(">");
    reveal_strlit("<=");
    reveal_strlit(">=");
    reveal_strlit("*");
    reveal_strlit(",");
    reveal_strlit(";");
    reveal_strlit("(");
    reveal_strlit(")");
    assert("="@ =~= seq!['=']);
    assert("!="@ =~= seq!['!', '=']);
    assert("<"@ =~= seq!['<']);
    assert(">"@ =~= seq!['>']);
    assert("<="@ =~= seq!['<', '=']);
    assert(">="@ =~= seq!['>', '=']);
    assert("*"@ =~= seq!['*']);
    assert(","@ =~= seq![',']);
    assert(";"@ =~= seq![';']);
    assert("("@ =~= seq!['(']);
    assert(")"@ =~= seq![')']);
    reveal_with_fuel(lookup, 12);
}

/// An operator is read as two characters exactly where they are `!=`, `<=` or `>=`; otherwise
/// it is the one character, of the kind that character names: = < > * , ; ( ), and an
/// identifier for a lone `!`.
pub proof fn lemma_operator_step(s: Seq<char>, k: nat)
    requires
        k < s.len(),
    ensures
        ({
            let (t, next) = operator_at(s, k);
            let a = s[k as int];
            if k + 1 < s.len() && (a == '!' || a == '<' || a == '>') && s[k as int + 1] == '=' {
                &&& t.literal == seq![a, '=']
                &&& next == k + 2
                &&& t.token_type == (if a == '!' {
                    TokenType::NotEqual
                } else if a == '<' {
                    TokenType::LessThanEqual
                } else {
                    TokenType::GreaterThanEqual
                })
            } else {
                &&& t.literal == seq![a]
                &&& next == k + 1
                &&& t.token_type == (if a == '=' {
                    TokenType::Equal
                } else if a == '<' {
                    TokenType::LessThan
                } else if a == '>' {
                    TokenType::GreaterThan
                } else if a == '*' {
                    TokenType::Asterisk
                } else if a == ',' {
                    TokenType::Comma
                } else if a == ';' {
                    TokenType::Semicolon
                } else if a == '(' {
                    TokenType::LeftParen
                } else if a == ')' {
                    TokenType::RightParen
                } else {
                    TokenType::Identifier
                })
            }
        }),
{
    let a = s[k as int];
    let single = seq![a];
    lemma_operator_kinds(single);
    assert(single.len() == 1 && single[0] == a);
    assert(seq!['=']. len() == 1 && seq!['='][0] == '=');
    assert(seq!['<'][0] == '<' && seq!['>'][0] == '>' && seq!['*'][0] == '*');
    assert(seq![','][0] == ',' && seq![';'][0] == ';' && seq!['('][0] == '(' && seq![')'][0]
        == ')');
    if a == '=' {
        assert(single =~= seq!['=']);
    } else if a == '<' {
        assert(single =~= seq!['<']);
    } else if a == '>' {
        assert(single =~= seq!['>']);
    } else if a == '*' {
        assert(single =~= seq!['*']);
    } else if a == ',' {
        assert(single =~= seq![',']);
    } else if a == ';' {
        assert(single =~= seq![';']);
    } else if a == '(' {
        assert(single =~= seq!['(']);
    } else if a == ')' {
        assert(single =~= seq![')']);
    }
    if k + 1 < s.len() {
        let b = s[k as int + 1];
        let pair = seq![a, b];
        lemma_operator_kinds(pair);
        assert(pair.len() == 2 && pair[0] == a && pair[1] == b);
        assert(seq!['!', '='][0] == '!' && seq!['!', '='][1] == '=');
        assert(seq!['<', '='][0] == '<' && seq!['<', '='][1] == '=');
        assert(seq!['>', '='][0] == '>' && seq!['>', '='][1] == '=');
        if a == '!' && b == '=' {
            assert(pair =~= seq!['!', '=']);
        } else if a == '<' && b == '=' {
            assert(pair =~= seq!['<', '=']);
        } else if a == '>' && b == '=' {
            assert(pair =~= seq!['>', '=']);
        }
    }
}

/// What each step of the lexer reads, by the character where its token starts. A letter or
/// underscore starts a word: every character of the word is an ASCII letter or an underscore,
/// the character after it is neither, and the word is not of the unknown kind. A character
/// that is no letter, no underscore and none of = ! < > * , ; ( ) is read alone, as an
/// unknown token; one of those operator characters is read as the operator there. The
/// character a token starts with is never whitespace.
pub proof fn lemma_token_classes(s: Seq<char>, k: nat)
    requires
        k <= s.len(),
    ensures
        next_token_from(s, k).0 matches Some(t) ==> {
            let next = next_token_from(s, k).1;
            let start = next - t.literal.len();
            let c = s[start];
            &&& k <= start < next <= s.len()
            &&& t.literal == s.subrange(start, next as int)
            &&& !is_white_space(c)
            &&& (('a' <= c && c <= 'z') || ('A' <= c && c <= 'Z') || c == '_') ==> {
                &&& t.token_type != TokenType::Unknown
                &&& forall|i: int|
                    0 <= i < t.literal.len() ==> ('a' <= #[trigger] t.literal[i] && t.literal[i]
                        <= 'z') || ('A' <= t.literal[i] && t.literal[i] <= 'Z') || t.literal[i]
                        == '_'
                &&& next < s.len() ==> !(('a' <= s[next as int] && s[next as int] <= 'z') || (
                'A' <= s[next as int] && s[next as int] <= 'Z') || s[next as int] == '_')
            }
            &&& (!(('a' <= c && c <= 'z') || ('A' <= c && c <= 'Z') || c == '_') && !(c == '='
                || c == '!' || c == '<' || c == '>' || c == '*' || c == ',' || c == ';' || c
                == '(' || c == ')')) ==> t == TokenView {
                token_type: TokenType::Unknown,
                literal: seq![c],
            } && next == start + 1
            &&& (c == '=' || c == '!' || c == '<' || c == '>' || c == '*' || c == ',' || c == ';'
                || c == '(' || c == ')') ==> (t, next) == operator_at(s, start as nat)
        },
{
    lemma_step(s, k);
    lemma_skip_whitespace_bounds(s, k);
    let start = skip_whitespace_from(s, k);
    if start < s.len() {
        let c = s[start as int];
        if is_identifier_char(c) {
            lemma_identifier_end_bounds(s, start);
            let e = identifier_end(s, start);
            let text = s.subrange(start as int, e as int);
            lemma_keyword_kinds(text);
            assert forall|i: int| 0 <= i < text.len() implies is_identifier_char(
                #[trigger] text[i],
            ) by {
                assert(text[i] == s[start + i]);
            }
        } else if is_operator_char(c) {
            lemma_operator_step(s, start);
        }
    }
}

proof fn lemma_tokens_classes_step(s: Seq<char>, k: nat)
    requires
        k <= s.len(),
        next_token_from(s, k).0 is Some,
    ensures
        ({
            let t = next_token_from(s, k).0.unwrap();
            let c = t.literal[0];
            &&& t.literal.len() >= 1
            &&& (('a' <= c && c <= 'z') || ('A' <= c && c <= 'Z') || c == '_') ==> {
                &&& t.token_type != TokenType::Unknown
                &&& forall|i: int|
                    0 <= i < t.literal.len() ==> ('a' <= #[trigger] t.literal[i] && t.literal[i]
                        <= 'z') || ('A' <= t.literal[i] && t.literal[i] <= 'Z') || t.literal[i]
                        == '_'
            }
            &&& (!(('a' <= c && c <= 'z') || ('A' <= c && c <= 'Z') || c == '_') && !(c == '='
                || c == '!' || c == '<' || c == '>' || c == '*' || c == ',' || c == ';' || c
                == '(' || c == ')')) ==> t == TokenView {
                token_type: TokenType::Unknown,
                literal: seq![c],
            }
            &&& t.literal.len() <= 2 || (('a' <= c && c <= 'z') || ('A' <= c && c <= 'Z') || c
                == '_')
            &&& t.literal.len() == 2 && !(('a' <= c && c <= 'z') || ('A' <= c && c <= 'Z') || c
                == '_') ==> (t.literal == seq!['!', '='] || t.literal == seq!['<', '=']
                || t.literal == seq!['>', '='])
        }),
{
    lemma_token_classes(s, k);
    let (token, next) = next_token_from(s, k);
    let t = token.unwrap();
    let start = (next - t.literal.len()) as nat;
    let c = s[start as int];
    assert(t.literal[0] == c);
    if c == '=' || c == '!' || c == '<' || c == '>' || c == '*' || c == ',' || c == ';' || c
        == '(' || c == ')' {
        lemma_operator_step(s, start);
        if t.literal.len() == 2 {
            if c == '!' {
                assert(t.literal =~= seq!['!', '=']);
            } else if c == '<' {
                assert(t.literal =~= seq!['<', '=']);
            } else {
                assert(t.literal =~= seq!['>', '=']);
            }
        }
    }
}

/// Every token the lexer reads has a text of at least one character. A text that starts with a
/// letter or an underscore is a word of ASCII letters and underscores, of a keyword's kind or
/// an identifier; a text that starts with any other character that is no operator character is
/// that one character, as an unknown token; and a two-character operator is `!=`, `<=` or `>=`.
pub proof fn lemma_tokens_classes(s: Seq<char>, k: nat)
    requires
        k <= s.len(),
    ensures
        forall|i: int|
            0 <= i < tokens_from(s, k).0.len() ==> {
                let t = #[trigger] tokens_from(s, k).0[i];
                let c = t.literal[0];
                &&& t.literal.len() >= 1
                &&& (('a' <= c && c <= 'z') || ('A' <= c && c <= 'Z') || c == '_') ==> {
                    &&& t.token_type != TokenType::Unknown
                    &&& forall|j: int|
                        0 <= j < t.literal.len() ==> ('a' <= #[trigger] t.literal[j]
                            && t.literal[j] <= 'z') || ('A' <= t.literal[j] && t.literal[j]
                            <= 'Z') || t.literal[j] == '_'
                }
                &&& (!(('a' <= c && c <= 'z') || ('A' <= c && c <= 'Z') || c == '_') && !(c
                    == '=' || c == '!' || c == '<' || c == '>' || c == '*' || c == ',' || c
                    == ';' || c == '(' || c == ')')) ==> t == TokenView {
                    token_type: TokenType::Unknown,
                    literal: seq![c],
                }
                &&& t.literal.len() <= 2 || (('a' <= c && c <= 'z') || ('A' <= c && c <= 'Z')
                    || c == '_')
                &&& t.literal.len() == 2 && !(('a' <= c && c <= 'z') || ('A' <= c && c <= 'Z')
                    || c == '_') ==> (t.literal == seq!['!', '='] || t.literal == seq!['<', '=']
                    || t.literal == seq!['>', '='])
            },
    decreases s.len() - k,
{
    lemma_next_token_advances(s, k);
    let (token, next) = next_token_from(s, k);
    if token is Some {
        lemma_tokens_classes_step(s, k);
        lemma_tokens_classes(s, next);
        let rest = tokens_from(s, next).0;
        let all = seq![token.unwrap()] + rest;
        assert forall|i: int| 0 < i < all.len() implies all[i] == rest[i - 1] by {}
        assert(all[0] == token.unwrap());
    }
}

/// Once the lexer has read to the end, nothing is left: from where it stops it reads no more
/// tokens.
pub proof fn lemma_tokens_exhaust_input(s: Seq<char>, k: nat)
    requires
        k <= s.len(),
    ensures
        tokens_from(s, k).1 == s.len(),
        tokens_from(s, s.len()) == (Seq::<TokenView>::empty(), s.len()),
{
    lemma_lexing_drops_whitespace(s, k);
    lemma_next_token_advances(s, s.len());
}

/// Keywords are found whatever their case: two words with the same upper-case form are of the
/// same kind.
pub proof fn lemma_keyword_kind_ignores_case(a: Seq<char>, b: Seq<char>)
    requires
        ascii_uppercase(a) == ascii_uppercase(b),
    ensures
        keyword_kind(a) == keyword_kind(b),
{
}

/// A word is of the kind of the keyword that its upper-case form spells, and an identifier
/// where it spells none; the order of the keyword table does not matter.
pub proof fn lemma_keyword_kind_by_table(word: Seq<char>)
    ensures
        forall|i: int|
            0 <= i < keyword_entries().len() && keyword_entries()[i].0 == ascii_uppercase(word)
                ==> keyword_kind(word) == keyword_entries()[i].1,
        (forall|i: int|
            0 <= i < keyword_entries().len() ==> keyword_entries()[i].0 != ascii_uppercase(word))
            ==> keyword_kind(word) == TokenType::Identifier,
{
    lemma_keywords_distinct();
    lemma_lookup_finds_entry(keyword_entries(), ascii_uppercase(word));
}

/// An operator text is of the kind that the operator table gives it, and an identifier where
/// the table does not hold it; the order of the table does not matter.
pub proof fn lemma_operator_kind_by_table(text: Seq<char>)
    ensures
        forall|i: int|
            0 <= i < operator_entries().len() && operator_entries()[i].0 == text ==> operator_kind(
                text,
            ) == operator_entries()[i].1,
        (forall|i: int| 0 <= i < operator_entries().len() ==> operator_entries()[i].0 != text)
            ==> operator_kind(text) == TokenType::Identifier,
{
    lemma_operators_distinct();
    lemma_lookup_finds_entry(operator_entries(), text);
}

/// Reads SQL text into tokens: keywords (in any case), identifiers, operators and symbols,
/// skipping whitespace. The position is a byte offset into the text, always at the start of a
/// character.
pub struct Lexer {
    input: String,
    position: usize,
    keyword: Vec<(String, TokenType)>,
    operation: Vec<(String, TokenType)>,
}

impl Lexer {
    #[verifier::type_invariant]
    spec fn well_formed(&self) -> bool {
        &&& table_view(self.keyword@) == keyword_entries()
        &&& table_view(self.operation@) == operator_entries()
        &&& byte_len_fits(self.input@)
        &&& exists|k: int|
            0 <= k <= self.input@.len() && byte_offset(self.input@, k) == self.position
    }

    /// The text being read.
    pub closed spec fn text(&self) -> Seq<char> {
        self.input@
    }

    /// The keyword table, as keys with their kinds.
    pub closed spec fn keywords(&self) -> Seq<(Seq<char>, TokenType)> {
        table_view(self.keyword@)
    }

    /// The operator table, as keys with their kinds.
    pub closed spec fn operators(&self) -> Seq<(Seq<char>, TokenType)> {
        table_view(self.operation@)
    }

    /// The index of the character at the current position.
    pub closed spec fn index(&self) -> nat {
        char_index(self.input@, self.position as int) as nat
    }

    /// A lexer at the start of `input`, with its keyword and operator tables.
    pub fn new(input: String) -> (lexer: Self)
        requires
            byte_len_fits(input@),
        ensures
            lexer.text() == input@,
            lexer.index() == 0,
            lexer.keywords() == keyword_entries(),
            lexer.operators() == operator_entries(),
    {
        proof {
            lemma_offsets(input@, 0, 0);
            assert(input@.take(0) =~= Seq::<char>::empty());
            lemma_char_index(input@, 0);
        }
        Lexer { input, position: 0, keyword: keyword_table(), operation: operator_table() }
    }

    /// The character at the current position, if there is one.
    pub fn current_char(&self) -> (c: Option<char>)
        ensures
            c == char_at(self.text(), self.index()),
    {
        proof {
            use_type_invariant(self);
            lemma_cursor(self.input@, self.position as int);
        }
        char_at_offset(self.input.as_str(), self.position, Ghost(self.index() as int))
    }

    /// Moves past the character `ch` at the current position.
    fn advance(&mut self, ch: char)
        requires
            old(self).index() < old(self).text().len(),
            old(self).text()[old(self).index() as int] == ch,
        ensures
            final(self).text() == old(self).text(),
            final(self).index() == old(self).index() + 1,
    {
        proof {
            use_type_invariant(&*self);
            lemma_advance(self.input@, self.position as int, ch);
        }
        self.position = self.position + len_utf8(ch);
    }

    /// Moves past the whitespace at the current position.
    pub fn skip_whitespace(&mut self)
        ensures
            final(self).text() == old(self).text(),
            final(self).index() == skip_whitespace_from(old(self).text(), old(self).index()),
    {
        proof {
            use_type_invariant(&*self);
            lemma_cursor(self.input@, self.position as int);
        }
        loop
            invariant
                self.text() == old(self).text(),
                self.index() <= self.text().len(),
                skip_whitespace_from(self.text(), self.index()) == skip_whitespace_from(
                    old(self).text(),
                    old(self).index(),
                ),
            ensures
                self.text() == old(self).text(),
                self.index() == skip_whitespace_from(old(self).text(), old(self).index()),
            decreases self.text().len() - self.index(),
        {
            match self.current_char() {
                Some(ch) => {
                    if char_is_whitespace(ch) {
                        self.advance(ch);
                    } else {
                        break ;
                    }
                },
                None => {
                    break ;
                },
            }
        }
    }

    /// Reads an identifier or keyword at the current position: the run of ASCII letters and
    /// underscores there, as the input holds it, of the keyword kind that its upper-case form
    /// names, else an identifier.
    pub fn collect_identifier(&mut self) -> (token: Token)
        ensures
            final(self).text() == old(self).text(),
            identifier_at(old(self).text(), old(self).index()) == (token@, final(self).index()),
    {
        proof {
            use_type_invariant(&*self);
            lemma_cursor(self.input@, self.position as int);
        }
        let ghost s = self.input@;
        let ghost first = self.index();
        let start_position = self.position;
        loop
            invariant
                self.text() == s,
                first == old(self).index(),
                first <= self.index() <= s.len(),
                start_position == byte_offset(s, first as int),
                identifier_end(s, self.index()) == identifier_end(s, first),
                forall|i: int| first <= i < self.index() ==> is_identifier_char(s[i]),
            ensures
                self.text() == s,
                first <= self.index() <= s.len(),
                self.index() == identifier_end(s, first),
                forall|i: int| first <= i < self.index() ==> is_identifier_char(s[i]),
            decreases s.len() - self.index(),
        {
            match self.current_char() {
                Some(ch) => {
                    if ascii_alphabetic(ch) || ch == '_' {
                        self.advance(ch);
                    } else {
                        break ;
                    }
                },
                None => {
                    break ;
                },
            }
        }
        proof {
            use_type_invariant(&*self);
            lemma_cursor(s, self.position as int);
            lemma_offsets(s, first as int, self.index() as int);
        }
        let val = byte_substring(self.input.as_str(), start_position, self.position).unwrap();
        proof {
            assert forall|i: int| 0 <= i < val@.len() implies '\0' <= #[trigger] val@[i]
                <= '\u{7f}' by {
                assert(val@[i] == s[first + i]);
            }
        }
        let upper_case = to_uppercase(val.as_str());
        let kind = match table_get(&self.keyword, &upper_case) {
            Some(token_type) => token_type,
            None => TokenType::Identifier,
        };
        Token::new(kind, val)
    }

    /// Reads an operator at the current position: two characters where they form an operator
    /// of the table, else one; of the kind the table gives, else an identifier.
    pub fn collect_operator(&mut self) -> (token: Token)
        requires
            old(self).index() < old(self).text().len(),
        ensures
            final(self).text() == old(self).text(),
            operator_at(old(self).text(), old(self).index()) == (token@, final(self).index()),
    {
        proof {
            use_type_invariant(&*self);
        }
        let first = self.current_char().unwrap();
        let mut val = char_to_string(first);
        self.advance(first);
        if let Some(next) = self.current_char() {
            let mut two_ch = char_to_string(first);
            two_ch.append(char_to_string(next).as_str());
            assert(two_ch@ =~= seq![first, next]);
            proof {
                use_type_invariant(&*self);
            }
            if table_get(&self.operation, &two_ch).is_some() {
                self.advance(next);
                val = two_ch;
            }
        }
        proof {
            use_type_invariant(&*self);
        }
        match table_get(&self.operation, &val) {
            Some(token_type) => Token::new(token_type, val),
            None => Token::new(TokenType::Identifier, val),
        }
    }

    /// Skips whitespace and reads one token: an identifier or keyword, an operator, or any
    /// other single character as an unknown token; `None` at the end of the input.
    pub fn get_next_token(&mut self) -> (token: Option<Token>)
        ensures
            final(self).text() == old(self).text(),
            next_token_from(old(self).text(), old(self).index()) == (
                token_view_opt(token),
                final(self).index(),
            ),
    {
        self.skip_whitespace();
        let ch = match self.current_char() {
            Some(c) => c,
            None => {
                return None;
            },
        };
        if ascii_alphabetic(ch) || ch == '_' {
            return Some(self.collect_identifier());
        }
        if ch == '=' || ch == '!' || ch == '<' || ch == '>' || ch == '*' || ch == ',' || ch == ';'
            || ch == '(' || ch == ')' {
            return Some(self.collect_operator());
        }
        self.advance(ch);
        Some(Token::new(TokenType::Unknown, char_to_string(ch)))
    }

    /// Reads all the tokens from the current position to the end of the input.
    pub fn tokenize(&mut self) -> (tokens: Vec<Token>)
        ensures
            final(self).text() == old(self).text(),
            tokens_from(old(self).text(), old(self).index()) == (
                token_views(tokens@),
                final(self).index(),
            ),
    {
        proof {
            use_type_invariant(&*self);
            lemma_cursor(self.input@, self.position as int);
        }
        let mut tokens: Vec<Token> = Vec::new();
        loop
            invariant
                self.text() == old(self).text(),
                self.index() <= self.text().len(),
                tokens_from(old(self).text(), old(self).index()) == (
                    token_views(tokens@) + tokens_from(self.text(), self.index()).0,
                    tokens_from(self.text(), self.index()).1,
                ),
            ensures
                self.text() == old(self).text(),
                tokens_from(old(self).text(), old(self).index()) == (
                    token_views(tokens@),
                    self.index(),
                ),
            decreases self.text().len() - self.index(),
        {
            proof {
                lemma_next_token_advances(self.text(), self.index());
            }
            let ghost before = token_views(tokens@);
            let ghost rest = tokens_from(self.text(), self.index());
            match self.get_next_token() {
                Some(token) => {
                    tokens.push(token);
                    proof {
                        assert(token_views(tokens@) =~= before.push(token@));
                        assert(before + rest.0 =~= token_views(tokens@) + tokens_from(
                            self.text(),
                            self.index(),
                        ).0);
                    }
                },
                None => {
                    proof {
                        assert(before + rest.0 =~= before);
                    }
                    break ;
                },
            }
        }
        tokens
    }
}

} // verus!

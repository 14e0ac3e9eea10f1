use vstd::prelude::*;
use vstd::string::*;
use vstd::utf8::*;

verus! {

broadcast use {
    vstd::utf8::encode_utf8_valid_utf8,
    vstd::utf8::encode_utf8_decode_utf8,
    vstd::utf8::is_char_boundary_start_end_of_seq,
    vstd::utf8::is_char_boundary_iff_not_is_continuation_byte,
    vstd::utf8::valid_utf8_split,
};

/// The number of bytes that `c` takes in UTF-8.
pub open spec fn utf8_width(c: char) -> nat {
    if (c as u32) < 0x80 {
        1
    } else if (c as u32) < 0x800 {
        2
    } else if (c as u32) < 0x10000 {
        3
    } else {
        4
    }
}

/// The UTF-8 width agrees with the length of the encoding of `c`.
pub proof fn lemma_utf8_width_is_encoding_length(c: char)
    ensures
        utf8_width(c) == encode_utf8(seq![c]).len(),
{
    vstd::utf8::char_is_scalar(c);
    reveal_with_fuel(encode_utf8, 2);
    assert(seq![c].drop_first() =~= Seq::<char>::empty());
}

/// `char::len_utf8`: the number of bytes of the UTF-8 encoding of `c`.
pub fn len_utf8(c: char) -> (width: usize)
    ensures
        width == utf8_width(c),
        1 <= width <= 4,
{
    let code = c as u32;
    if code < 0x80 {
        1
    } else if code < 0x800 {
        2
    } else if code < 0x10000 {
        3
    } else {
        4
    }
}

/// A letter of the ASCII alphabet.
pub open spec fn is_ascii_letter(c: char) -> bool {
    ('a' <= c && c <= 'z') || ('A' <= c && c <= 'Z')
}

/// `char::is_ascii_alphabetic`.
pub fn ascii_alphabetic(c: char) -> (b: bool)
    ensures
        b == is_ascii_letter(c),
{
    ('a' <= c && c <= 'z') || ('A' <= c && c <= 'Z')
}

/// Unicode's White_Space property, which `char::is_whitespace` reports: tab, line feed,
/// vertical tab, form feed, carriage return, space, next line, no-break space, ogham space
/// mark, the spaces from en quad to hair space, line and paragraph separator, narrow no-break
/// space, medium mathematical space and ideographic space.
pub open spec fn is_white_space(c: char) -> bool {
    ('\u{9}' <= c && c <= '\u{d}') || c == ' ' || c == '\u{85}' || c == '\u{a0}' || c
        == '\u{1680}' || ('\u{2000}' <= c && c <= '\u{200a}') || c == '\u{2028}' || c
        == '\u{2029}' || c == '\u{202f}' || c == '\u{205f}' || c == '\u{3000}'
}

/// `char::is_whitespace`: whether `c` has Unicode's White_Space property.
pub fn char_is_whitespace(c: char) -> (b: bool)
    ensures
        b == is_white_space(c),
{
    ('\u{9}' <= c && c <= '\u{d}') || c == ' ' || c == '\u{85}' || c == '\u{a0}' || c
        == '\u{1680}' || ('\u{2000}' <= c && c <= '\u{200a}') || c == '\u{2028}' || c
        == '\u{2029}' || c == '\u{202f}' || c == '\u{205f}' || c == '\u{3000}'
}

/// The upper-case form of an ASCII character: a lower-case letter becomes its capital, every
/// other character stays.
pub open spec fn ascii_upper_char(c: char) -> char {
    if 'a' <= c && c <= 'z' {
        ((c as u32) - 32) as char
    } else {
        c
    }
}

/// The upper-case form of ASCII text, character by character.
pub open spec fn ascii_uppercase(s: Seq<char>) -> Seq<char> {
    s.map_values(|c: char| ascii_upper_char(c))
}

/// Whether `c` has Unicode's Alphabetic property, as `char::is_alphabetic` reports it.
pub uninterp spec fn is_alphabetic(c: char) -> bool;

/// The text that `str::to_uppercase` makes of `s` under Unicode's case mapping.
pub uninterp spec fn uppercase_of(s: Seq<char>) -> Seq<char>;

/// Calls `char::is_alphabetic`. Its result is taken to be `is_alphabetic(c)`: a property
/// of the character alone, fixed by the Unicode tables that std carries. Among ASCII
/// characters the Alphabetic ones are exactly the letters.
#[verifier::external_body]
pub(crate) fn char_is_alphabetic(c: char) -> (b: bool)
    ensures
        b == is_alphabetic(c),
        c <= '\u{7f}' ==> (b == is_ascii_letter(c)),
{
    c.is_alphabetic()
}

/// Calls `str::to_uppercase`. Its result is taken to be `uppercase_of(s@)`: std maps
/// each character by Unicode's case tables, with no locale. As std documents, on ASCII text
/// this maps each lower-case letter to its capital and leaves every other character.
#[verifier::external_body]
pub(crate) fn to_uppercase(s: &str) -> (upper: String)
    ensures
        upper@ == uppercase_of(s@),
        is_ascii_chars(s@) ==> upper@ == ascii_uppercase(s@),
{
    s.to_uppercase()
}

/// Calls `ToString::to_string` on a `char`, which std documents as the one-character
/// string holding `c`.
#[verifier::external_body]
pub(crate) fn char_to_string(c: char) -> (s: String)
    ensures
        s@ == seq![c],
{
    c.to_string()
}

/// The characters of `s[start..end]`, where `start` and `end` count bytes of the UTF-8
/// encoding of `s`; `None` where that slice is not a string (an end off a character
/// boundary, or past the end, or `start > end`), where `&s[start..end]` panics.
pub open spec fn byte_slice(s: Seq<char>, start: int, end: int) -> Option<Seq<char>> {
    let bytes = encode_utf8(s);
    if start <= end && is_char_boundary(bytes, start) && is_char_boundary(bytes, end) {
        Some(decode_utf8(bytes.subrange(start, end)))
    } else {
        None
    }
}

/// `s[start..end].to_string()` where that slice is a string, `None` where it would panic.
pub fn byte_substring(s: &str, start: usize, end: usize) -> (sub: Option<String>)
    ensures
        match sub {
            Some(t) => byte_slice(s@, start as int, end as int) == Some(t@),
            None => byte_slice(s@, start as int, end as int) is None,
        },
{
    if start <= end && s.is_char_boundary(start) && s.is_char_boundary(end) {
        let ghost bytes = encode_utf8(s@);
        let (head, _tail) = s.split_at(end);
        proof {
            let hb = head.spec_bytes();
            assert(hb =~= bytes.subrange(0, end as int));
            vstd::utf8::encode_utf8_valid_utf8(s@);
            vstd::utf8::valid_utf8_split(bytes, end as int);
            assert(valid_utf8(hb));
            if start < end {
                vstd::utf8::is_char_boundary_iff_not_is_continuation_byte(bytes, start as int);
                vstd::utf8::is_char_boundary_iff_not_is_continuation_byte(hb, start as int);
                assert(hb[start as int] == bytes[start as int]);
            } else {
                vstd::utf8::is_char_boundary_start_end_of_seq(hb);
                assert(hb.len() == end);
            }
            assert(is_char_boundary(hb, start as int));
        }
        let (_front, middle) = head.split_at(start);
        proof {
            assert(middle.spec_bytes() =~= bytes.subrange(start as int, end as int));
            assert(decode_utf8(encode_utf8(middle@)) == middle@);
        }
        Some(middle.to_owned())
    } else {
        None
    }
}

/// The UTF-8 encoding is at least as long as the text, and longer exactly where the text is not
/// all ASCII.
pub proof fn lemma_encoding_length(s: Seq<char>)
    ensures
        s.len() <= encode_utf8(s).len(),
        is_ascii_chars(s) <==> s.len() == encode_utf8(s).len(),
    decreases s.len(),
{
    if s.len() > 0 {
        let rest = s.drop_first();
        lemma_encoding_length(rest);
        let c = s[0];
        vstd::utf8::char_is_scalar(c);
        let e = encode_scalar(c as u32);
        assert(encode_utf8(s) == e + encode_utf8(rest));
        assert(e.len() >= 1);
        assert(e.len() == 1 <==> has_width_1_encoding(c as u32));
        vstd::utf8::char_u32_cast(c, c as u32);
        if has_width_1_encoding(c as u32) {
            assert(((c as u32) as char) <= '\u{7f}');
        }
        assert(has_width_1_encoding(c as u32) <==> c <= '\u{7f}');
        if is_ascii_chars(rest) && c <= '\u{7f}' {
            assert forall|i: int| 0 <= i < s.len() implies '\0' <= #[trigger] s[i] <= '\u{7f}' by {
                if i > 0 {
                    assert(s[i] == rest[i - 1]);
                }
            }
        }
        if is_ascii_chars(s) {
            assert(s[0] <= '\u{7f}');
            assert forall|i: int| 0 <= i < rest.len() implies '\0' <= #[trigger] rest[i] <= '\u{7f}' by {
                assert(rest[i] == s[i + 1]);
            }
        }
    }
}

/// The UTF-8 encoding of `s` is no longer than a `usize` can count.
pub open spec fn byte_len_fits(s: Seq<char>) -> bool {
    encode_utf8(s).len() <= usize::MAX
}

/// The byte offset, in the UTF-8 encoding of `s`, at which the character at `index` starts.
pub open spec fn byte_offset(s: Seq<char>, index: int) -> nat {
    encode_utf8(s.take(index)).len()
}

/// The index of the character that starts at byte offset `offset` of `s`.
pub open spec fn char_index(s: Seq<char>, offset: int) -> int {
    choose|k: int| 0 <= k <= s.len() && byte_offset(s, k) == offset
}

/// The encoding of two texts one after the other is their encodings one after the other.
pub proof fn lemma_encode_concat(x: Seq<char>, y: Seq<char>)
    ensures
        encode_utf8(x + y) == encode_utf8(x) + encode_utf8(y),
    decreases x.len(),
{
    if x.len() == 0 {
        assert(x + y =~= y);
        assert(encode_utf8(x) + encode_utf8(y) =~= encode_utf8(y));
    } else {
        lemma_encode_concat(x.drop_first(), y);
        assert((x + y).drop_first() =~= x.drop_first() + y);
        assert((x + y)[0] == x[0]);
        assert(encode_utf8(x + y) =~= encode_utf8(x) + encode_utf8(y));
    }
}

proof fn lemma_boundary_at_join(x: Seq<char>, y: Seq<char>)
    ensures
        valid_utf8(encode_utf8(x + y)),
        is_char_boundary(encode_utf8(x + y), encode_utf8(x).len() as int),
    decreases x.len(),
{
    vstd::utf8::encode_utf8_valid_utf8(x + y);
    lemma_encode_concat(x, y);
    if x.len() > 0 {
        let b = encode_utf8(x + y);
        let rest = x.drop_first();
        assert((x + y).drop_first() =~= rest + y);
        assert((x + y)[0] == x[0]);
        vstd::utf8::encode_utf8_first_scalar(x + y);
        assert(pop_first_scalar(b) =~= encode_utf8(rest + y));
        lemma_boundary_at_join(rest, y);
    }
}

/// Character indices and byte offsets correspond: the offsets grow with the indices, each is a
/// character boundary, and the bytes between two of them are the encoding of the characters
/// between the two indices.
pub proof fn lemma_offsets(s: Seq<char>, a: int, b: int)
    requires
        0 <= a <= b <= s.len(),
    ensures
        byte_offset(s, a) <= byte_offset(s, b) <= encode_utf8(s).len(),
        a < b ==> byte_offset(s, a) < byte_offset(s, b),
        byte_offset(s, s.len() as int) == encode_utf8(s).len(),
        byte_slice(s, byte_offset(s, a) as int, byte_offset(s, b) as int) == Some(
            s.subrange(a, b),
        ),
        is_char_boundary(encode_utf8(s), byte_offset(s, a) as int),
        encode_utf8(s).subrange(byte_offset(s, a) as int, encode_utf8(s).len() as int)
            == encode_utf8(s.skip(a)),
{
    let x = s.take(a);
    let y = s.subrange(a, b);
    let z = s.skip(b);
    assert(s =~= x + (y + z));
    assert(s =~= (x + y) + z);
    assert(s.take(b) =~= x + y);
    assert(s.skip(a) =~= y + z);
    assert(s.take(s.len() as int) =~= s);
    lemma_encode_concat(x, y + z);
    lemma_encode_concat(y, z);
    lemma_encode_concat(x, y);
    lemma_encode_concat(x + y, z);
    lemma_boundary_at_join(x, y + z);
    lemma_boundary_at_join(x + y, z);
    lemma_encoding_length(y);
    let bytes = encode_utf8(s);
    assert(bytes.subrange(byte_offset(s, a) as int, byte_offset(s, b) as int) =~= encode_utf8(y));
    assert(bytes.subrange(byte_offset(s, a) as int, bytes.len() as int) =~= encode_utf8(y + z));
    vstd::utf8::encode_utf8_decode_utf8(y);
}

/// The character after index `k` starts as many bytes later as the character at `k` takes.
pub proof fn lemma_offset_step(s: Seq<char>, k: int)
    requires
        0 <= k < s.len(),
    ensures
        byte_offset(s, k + 1) == byte_offset(s, k) + utf8_width(s[k]),
{
    assert(s.take(k + 1) =~= s.take(k) + seq![s[k]]);
    lemma_encode_concat(s.take(k), seq![s[k]]);
    lemma_utf8_width_is_encoding_length(s[k]);
}

/// At the byte offset of character `k`, `char_index` finds `k` again.
pub proof fn lemma_char_index(s: Seq<char>, k: int)
    requires
        0 <= k <= s.len(),
    ensures
        char_index(s, byte_offset(s, k) as int) == k,
{
    let j = char_index(s, byte_offset(s, k) as int);
    assert(exists|i: int| 0 <= i <= s.len() && byte_offset(s, i) == byte_offset(s, k));
    if j < k {
        lemma_offsets(s, j, k);
    } else if k < j {
        lemma_offsets(s, k, j);
    }
}

/// At a byte offset that starts a character, `char_index` finds that character.
pub proof fn lemma_cursor(s: Seq<char>, offset: int)
    requires
        exists|k: int| 0 <= k <= s.len() && byte_offset(s, k) == offset,
    ensures
        0 <= char_index(s, offset) <= s.len(),
        byte_offset(s, char_index(s, offset)) == offset,
{
}

/// Moving a position past the character `ch` that starts there lands on the start of the next
/// character, within what a `usize` counts.
pub proof fn lemma_advance(s: Seq<char>, offset: int, ch: char)
    requires
        byte_len_fits(s),
        exists|k: int| 0 <= k <= s.len() && byte_offset(s, k) == offset,
        char_index(s, offset) < s.len(),
        s[char_index(s, offset)] == ch,
    ensures
        offset + utf8_width(ch) <= usize::MAX,
        byte_offset(s, char_index(s, offset) + 1) == offset + utf8_width(ch),
        char_index(s, offset + utf8_width(ch)) == char_index(s, offset) + 1,
{
    let k = char_index(s, offset);
    lemma_offset_step(s, k);
    lemma_offsets(s, k + 1, s.len() as int);
    lemma_char_index(s, k + 1);
}

/// A position that starts a character is before the end of the encoding exactly when the
/// character index is before the end of the text.
pub proof fn lemma_offset_before_end(s: Seq<char>, offset: int)
    requires
        exists|k: int| 0 <= k <= s.len() && byte_offset(s, k) == offset,
    ensures
        (offset < encode_utf8(s).len()) == (char_index(s, offset) < s.len()),
{
    let k = char_index(s, offset);
    lemma_offsets(s, k, s.len() as int);
}

/// The character that starts at byte offset `offset` of `s`, as `s[offset..].chars().next()`
/// finds it; `offset` is the offset of character `index`.
pub(crate) fn char_at_offset(s: &str, offset: usize, Ghost(index): Ghost<int>) -> (c: Option<char>)
    requires
        0 <= index <= s@.len(),
        offset == byte_offset(s@, index),
    ensures
        c == (if index < s@.len() {
            Some(s@[index])
        } else {
            None
        }),
{
    proof {
        lemma_offsets(s@, index, index);
    }
    let (_head, tail) = s.split_at(offset);
    proof {
        vstd::utf8::encode_utf8_decode_utf8(tail@);
        vstd::utf8::encode_utf8_decode_utf8(s@.skip(index));
        assert(tail.spec_bytes() =~= encode_utf8(s@.skip(index)));
        assert(tail@ == s@.skip(index));
    }
    if tail.is_empty() {
        None
    } else {
        Some(tail.get_char(0))
    }
}

} // verus!

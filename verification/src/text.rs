//! Texts and their UTF-8 encoding.
//!
//! A text is a sequence of characters, `Seq<char>`; lengths of tokens are
//! counted in the bytes of its UTF-8 encoding.

use vstd::prelude::*;
use vstd::string::*;
use vstd::utf8::*;

verus! {

/// The number of bytes that encode `c`.
pub open spec fn char_width(c: char) -> nat {
    encode_scalar(c as u32).len()
}

/// The number of bytes that encode `s`.
pub open spec fn byte_len(s: Seq<char>) -> nat {
    encode_utf8(s).len()
}

/// The character at index `i` of `s`, or NUL past the end.
pub open spec fn peek(s: Seq<char>, i: int) -> char {
    if 0 <= i < s.len() {
        s[i]
    } else {
        '\0'
    }
}

/// Peeking into what is left after `n` characters is peeking `n` further.
pub proof fn lemma_peek_skip(s: Seq<char>, n: int, i: int)
    requires
        0 <= n <= s.len(),
        0 <= i,
    ensures
        peek(s.skip(n), i) == peek(s, n + i),
{
}

/// The encoding of a non-empty text is that of its first character followed
/// by that of the rest.
pub proof fn lemma_encode_first(s: Seq<char>)
    requires
        s.len() > 0,
    ensures
        encode_utf8(s) == encode_scalar(s[0] as u32) + encode_utf8(s.drop_first()),
        byte_len(s) == char_width(s[0]) + byte_len(s.drop_first()),
{
}

/// Encoding distributes over concatenation.
pub proof fn lemma_encode_concat(a: Seq<char>, b: Seq<char>)
    ensures
        encode_utf8(a + b) == encode_utf8(a) + encode_utf8(b),
        byte_len(a + b) == byte_len(a) + byte_len(b),
    decreases a.len(),
{
    if a.len() == 0 {
        assert(a + b =~= b);
        assert(encode_utf8(a) + encode_utf8(b) =~= encode_utf8(b));
    } else {
        lemma_encode_concat(a.drop_first(), b);
        assert((a + b).drop_first() =~= a.drop_first() + b);
        assert((a + b)[0] == a[0]);
        assert(encode_utf8(a + b) =~= encode_utf8(a) + encode_utf8(b));
    }
}

/// A text has at most as many characters as bytes.
pub proof fn lemma_len_le_byte_len(s: Seq<char>)
    ensures
        s.len() <= byte_len(s),
    decreases s.len(),
{
    if s.len() > 0 {
        lemma_encode_first(s);
        lemma_len_le_byte_len(s.drop_first());
    }
}

/// After `i` ASCII characters, character `i` of a text and byte `i` of its
/// encoding stand at the same place: the text goes on exactly if the bytes
/// do, and the byte is either the character itself, an ASCII character, or
/// at least 128, and then the character is no ASCII character.
pub proof fn lemma_ascii_prefix(s: Seq<char>, i: int)
    requires
        0 <= i <= s.len(),
        is_ascii_chars(s.take(i)),
    ensures
        i <= byte_len(s),
        (i < byte_len(s)) == (i < s.len()),
        i < s.len() ==> {
            let b = encode_utf8(s)[i];
            if b < 0x80 {
                b as char == s[i] && is_ascii_chars(s.take(i + 1))
            } else {
                s[i] as u32 >= 0x80
            }
        },
{
    let head = s.take(i);
    let tail = s.skip(i);
    assert(s =~= head + tail);
    lemma_encode_concat(head, tail);
    is_ascii_chars_encode_utf8(head);
    lemma_len_le_byte_len(tail);
    if i < s.len() {
        char_is_scalar(s[i]);
        let c = s[i] as u32;
        lemma_encode_first(tail);
        assert(tail[0] == s[i]);
        assert(encode_utf8(s)[i] == encode_utf8(tail)[0]);
        assert(encode_utf8(tail)[0] == encode_scalar(c)[0]);
        lemma_first_byte(c);
        if c < 0x80 {
            char_u32_cast(s[i], c);
            assert(encode_utf8(s)[i] == c as u8);
            assert((c as u8) as char == c as char);
            assert forall|j: int| 0 <= j < s.take(i + 1).len() implies '\0' <= #[trigger] s.take(
                i + 1,
            )[j] <= '\u{7f}' by {
                if j < i {
                    assert(s.take(i + 1)[j] == head[j]);
                } else {
                    assert(s.take(i + 1)[j] == s[i]);
                }
            }
        }
    }
}

/// The first byte of the encoding of a scalar value is below 128 exactly if
/// the value is, and is then the value itself.
proof fn lemma_first_byte(c: u32)
    requires
        is_scalar(c),
    ensures
        (encode_scalar(c)[0] < 0x80) == (c < 0x80),
        c < 0x80 ==> encode_scalar(c)[0] == c as u8,
{
    assert(c < 0x80 ==> ((c & 0x7F) as u8) == (c as u8) && ((c & 0x7F) as u8) < 0x80) by (bit_vector);
    assert((0xC0 | ((c >> 6) & 0x1F) as u8) >= 0x80) by (bit_vector);
    assert((0xE0 | ((c >> 12) & 0x0F) as u8) >= 0x80) by (bit_vector);
    assert((0xF0 | ((c >> 18) & 0x7) as u8) >= 0x80) by (bit_vector);
}

/// A text splits at any index into a prefix and a suffix whose byte lengths
/// add up.
pub proof fn lemma_byte_len_split(s: Seq<char>, n: int)
    requires
        0 <= n <= s.len(),
    ensures
        byte_len(s) == byte_len(s.take(n)) + byte_len(s.skip(n)),
{
    assert(s =~= s.take(n) + s.skip(n));
    lemma_encode_concat(s.take(n), s.skip(n));
}

/// Two texts with the same encoding are the same text.
pub proof fn lemma_encode_injective(a: Seq<char>, b: Seq<char>)
    requires
        encode_utf8(a) == encode_utf8(b),
    ensures
        a == b,
{
    encode_utf8_decode_utf8(a);
    encode_utf8_decode_utf8(b);
}

/// The bytes of a non-empty text split, at the width of its first character,
/// on a character boundary, and what follows encodes the rest of the text.
pub proof fn lemma_first_boundary(s: Seq<char>)
    requires
        s.len() > 0,
    ensures
        0 < char_width(s[0]) <= byte_len(s),
        is_char_boundary(encode_utf8(s), char_width(s[0]) as int),
        encode_utf8(s).subrange(char_width(s[0]) as int, byte_len(s) as int) == encode_utf8(
            s.drop_first(),
        ),
{
    let bytes = encode_utf8(s);
    let w = char_width(s[0]) as int;
    encode_utf8_valid_utf8(s);
    encode_utf8_first_scalar(s);
    encode_utf8_valid_utf8(s.drop_first());
    assert(pop_first_scalar(bytes) =~= encode_utf8(s.drop_first()));
    assert(bytes.subrange(w, bytes.len() as int) =~= encode_utf8(s.drop_first()));
    is_char_boundary_start_end_of_seq(pop_first_scalar(bytes));
    assert(is_char_boundary(pop_first_scalar(bytes), 0));
    reveal_with_fuel(is_char_boundary, 2);
}

/// Returns the length of `s` in bytes.
pub(crate) fn str_len(s: &str) -> (n: usize)
    ensures
        n == byte_len(s@),
{
    s.as_bytes().len()
}

/// Splits `s` into its first character and the rest; `None` if `s` is empty.
pub(crate) fn split_first<'a>(s: &'a str) -> (r: Option<(char, &'a str)>)
    ensures
        s@.len() == 0 ==> r is None,
        s@.len() > 0 ==> (r matches Some((c, tail)) && c == s@[0] && tail@ == s@.drop_first()),
{
    if s.is_empty() {
        return None;
    }
    let c = s.get_char(0);
    let w = len_utf8(c);
    proof {
        lemma_first_boundary(s@);
    }
    let (_, tail) = s.split_at(w);
    proof {
        lemma_encode_injective(tail@, s@.drop_first());
    }
    Some((c, tail))
}

/// Returns the character at index `n` of `s`; `None` if `s` is shorter.
pub(crate) fn nth_char(s: &str, n: usize) -> (r: Option<char>)
    ensures
        n < s@.len() ==> r == Some(s@[n as int]),
        n >= s@.len() ==> r is None,
{
    let mut t = s;
    let mut i: usize = 0;
    loop
        invariant
            i <= n,
            i <= s@.len(),
            t@ == s@.skip(i as int),
        decreases n - i,
    {
        match split_first(t) {
            None => {
                return None;
            },
            Some((c, tail)) => {
                if i == n {
                    return Some(c);
                }
                proof {
                    assert(s@.skip(i as int).drop_first() =~= s@.skip(i + 1));
                }
                t = tail;
                i += 1;
            },
        }
    }
}

/// Returns `true` if `s` begins with the characters of `pat`.
pub(crate) fn starts_with(s: &str, pat: &str) -> (b: bool)
    ensures
        b == pat@.is_prefix_of(s@),
{
    let mut t = s;
    let mut p = pat;
    let ghost mut i: int = 0;
    loop
        invariant
            0 <= i <= s@.len(),
            i <= pat@.len(),
            t@ == s@.skip(i),
            p@ == pat@.skip(i),
            s@.take(i) == pat@.take(i),
        decreases pat@.len() - i,
    {
        match split_first(p) {
            None => {
                proof {
                    assert(pat@.take(i) =~= pat@);
                    assert(pat@ =~= s@.subrange(0, pat@.len() as int));
                }
                return true;
            },
            Some((pc, ptail)) => {
                match split_first(t) {
                    None => {
                        return false;
                    },
                    Some((tc, ttail)) => {
                        if tc != pc {
                            proof {
                                if pat@.is_prefix_of(s@) {
                                    assert(s@[i] == s@.subrange(0, pat@.len() as int)[i]);
                                }
                            }
                            return false;
                        }
                        proof {
                            assert(s@.skip(i).drop_first() =~= s@.skip(i + 1));
                            assert(pat@.skip(i).drop_first() =~= pat@.skip(i + 1));
                            assert(s@.take(i + 1) =~= s@.take(i).push(tc));
                            assert(pat@.take(i + 1) =~= pat@.take(i).push(pc));
                            i = i + 1;
                        }
                        t = ttail;
                        p = ptail;
                    },
                }
            },
        }
    }
}

/// Returns the number of bytes that encode `c`.
pub(crate) fn len_utf8(c: char) -> (w: usize)
    ensures
        w == char_width(c),
        1 <= w <= 4,
{
    let u = c as u32;
    if u < 0x80 {
        1
    } else if u < 0x800 {
        2
    } else if u < 0x10000 {
        3
    } else {
        4
    }
}

} // verus!

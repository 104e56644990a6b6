//! Character classes of the Solidity grammar.

use crate::text::{lemma_ascii_prefix, lemma_len_le_byte_len};
use vstd::prelude::*;
use vstd::string::*;
use vstd::utf8::{encode_utf8, is_ascii_chars};

verus! {

/// The characters that separate tokens: tab, newline and space.
pub open spec fn spec_is_whitespace(c: char) -> bool {
    c == '\t' || c == '\n' || c == ' '
}

/// The characters that may start an identifier: ASCII letters, `_` and `$`.
pub open spec fn spec_is_id_start(c: char) -> bool {
    ('a' <= c && c <= 'z') || ('A' <= c && c <= 'Z') || c == '_' || c == '$'
}

/// The characters that may continue an identifier: those that may start one,
/// and the ASCII digits.
pub open spec fn spec_is_id_continue(c: char) -> bool {
    spec_is_id_start(c) || ('0' <= c && c <= '9')
}

/// Returns `true` if `c` is considered a whitespace.
#[verifier::when_used_as_spec(spec_is_whitespace)]
pub fn is_whitespace(c: char) -> (b: bool)
    ensures
        b == spec_is_whitespace(c),
{
    matches!(c, '\t' | '\n' | ' ')
}

/// Returns `true` if the given character is valid at the start of a Solidity identifier.
#[verifier::when_used_as_spec(spec_is_id_start)]
pub fn is_id_start(c: char) -> (b: bool)
    ensures
        b == spec_is_id_start(c),
{
    matches!(c, 'a'..='z' | 'A'..='Z' | '_' | '$')
}

/// Returns `true` if the given character is valid in a Solidity identifier.
#[verifier::when_used_as_spec(spec_is_id_continue)]
pub fn is_id_continue(c: char) -> (b: bool)
    ensures
        b == spec_is_id_continue(c),
{
    matches!(c, 'a'..='z' | 'A'..='Z' | '0'..='9' | '_' | '$')
}

/// The texts that are identifiers: not empty, an identifier start first, and
/// identifier characters after it.
pub open spec fn spec_is_ident(s: Seq<char>) -> bool {
    &&& s.len() > 0
    &&& spec_is_id_start(s[0])
    &&& forall|i: int| 1 <= i < s.len() ==> spec_is_id_continue(#[trigger] s[i])
}

/// Returns `true` if the given string is a valid Solidity identifier.
///
/// An identifier in Solidity has to start with a letter, a dollar-sign or an underscore and may
/// additionally contain numbers after the first symbol.
///
/// Solidity reference:
/// <https://docs.soliditylang.org/en/latest/grammar.html#a4.SolidityLexer.Identifier>
pub fn is_ident(s: &str) -> (b: bool)
    ensures
        b == spec_is_ident(s@),
{
    // Note: valid idents can only contain ASCII characters, so we can
    // use the byte representation here.
    let bytes = s.as_bytes();
    if bytes.len() == 0 {
        proof {
            lemma_len_le_byte_len(s@);
        }
        return false;
    }
    proof {
        lemma_ascii_prefix(s@, 0);
    }
    if !is_id_start(bytes[0] as char) {
        return false;
    }
    let mut i: usize = 1;
    while i < bytes.len()
        invariant
            bytes@ == encode_utf8(s@),
            1 <= i <= bytes.len(),
            is_ascii_chars(s@.take(i as int)),
            i <= s@.len(),
            spec_is_id_start(s@[0]),
            forall|j: int| 1 <= j < i ==> spec_is_id_continue(#[trigger] s@[j]),
        decreases bytes.len() - i,
    {
        proof {
            lemma_ascii_prefix(s@, i as int);
        }
        if !is_id_continue(bytes[i] as char) {
            return false;
        }
        i += 1;
    }
    proof {
        lemma_ascii_prefix(s@, i as int);
    }
    true
}

} // verus!

//! The token stream of a whole text.

use crate::cursor::Cursor;
use crate::grammar::{first_token, lemma_first_token_kind, lemma_first_token_len};
use crate::text::{byte_len, lemma_byte_len_split, lemma_len_le_byte_len};
use crate::token::{Token, TokenKind};
use vstd::prelude::*;
use vstd::utf8::encode_utf8;

verus! {

/// The tokens of a text, in order: the token at its head, then the tokens of
/// what is left after it. The end-of-text marker is no part of the stream.
pub open spec fn tokens(s: Seq<char>) -> Seq<Token>
    decreases s.len(),
    via tokens_decreases
{
    if s.len() == 0 {
        Seq::empty()
    } else {
        let (kind, n) = first_token(s);
        seq![Token { kind, len: byte_len(s.take(n as int)) as usize }] + tokens(s.skip(n as int))
    }
}

#[via_fn]
proof fn tokens_decreases(s: Seq<char>) {
    if s.len() > 0 {
        lemma_first_token_len(s);
    }
}

/// The sum of the lengths of the tokens.
pub open spec fn total_len(toks: Seq<Token>) -> nat
    decreases toks.len(),
{
    if toks.len() == 0 {
        0
    } else {
        toks[0].len as nat + total_len(toks.skip(1))
    }
}

/// The pieces of `bytes` that the tokens cover, one for each token: the first
/// piece starts at the head of `bytes`, and each next piece where the one
/// before it ends.
pub open spec fn spans(toks: Seq<Token>, bytes: Seq<u8>) -> Seq<Seq<u8>>
    decreases toks.len(),
{
    if toks.len() == 0 {
        Seq::empty()
    } else {
        seq![bytes.take(toks[0].len as int)] + spans(toks.skip(1), bytes.skip(toks[0].len as int))
    }
}

/// Tokens whose lengths add up to the length of `bytes` cover all of it:
/// laid end to end, their pieces are `bytes`.
pub proof fn lemma_spans_cover(toks: Seq<Token>, bytes: Seq<u8>)
    requires
        total_len(toks) == bytes.len(),
    ensures
        spans(toks, bytes).flatten() == bytes,
    decreases toks.len(),
{
    if toks.len() == 0 {
        assert(spans(toks, bytes).flatten() =~= bytes);
    } else {
        let n = toks[0].len as int;
        lemma_spans_cover(toks.skip(1), bytes.skip(n));
        let pieces = spans(toks, bytes);
        assert(pieces.first() == bytes.take(n));
        assert(pieces.drop_first() =~= spans(toks.skip(1), bytes.skip(n)));
        assert(pieces.flatten() =~= bytes.take(n) + bytes.skip(n));
        assert(bytes.take(n) + bytes.skip(n) =~= bytes);
    }
}

/// The stream of a text that is not empty is the token at its head, which
/// takes at least one character and is no end-of-text marker, and then the
/// stream of what is left.
pub proof fn lemma_tokens_step(s: Seq<char>)
    requires
        s.len() > 0,
    ensures
        ({
            let (kind, n) = first_token(s);
            &&& 1 <= n <= s.len()
            &&& kind != TokenKind::Eof
            &&& tokens(s).len() > 0
            &&& tokens(s)[0] == Token { kind, len: byte_len(s.take(n as int)) as usize }
            &&& tokens(s).skip(1) == tokens(s.skip(n as int))
        }),
{
    lemma_first_token_len(s);
    lemma_first_token_kind(s);
    let (kind, n) = first_token(s);
    assert(tokens(s).skip(1) =~= tokens(s.skip(n as int)));
}

/// The token stream of a text loses nothing: laid end to end, the pieces
/// that the tokens cover are the bytes of the text, with no gap and no
/// overlap. Every token covers at least one byte, and none is the
/// end-of-text marker.
pub proof fn lemma_tokens_lossless(s: Seq<char>)
    requires
        byte_len(s) <= usize::MAX,
    ensures
        total_len(tokens(s)) == byte_len(s),
        spans(tokens(s), encode_utf8(s)).flatten() == encode_utf8(s),
        forall|i: int|
            0 <= i < tokens(s).len() ==> (#[trigger] tokens(s)[i]).len > 0 && tokens(s)[i].kind
                != TokenKind::Eof,
    decreases s.len(),
{
    if s.len() > 0 {
        lemma_tokens_step(s);
        let n = first_token(s).1 as int;
        let head = s.take(n);
        let rest = s.skip(n);
        lemma_byte_len_split(s, n);
        lemma_len_le_byte_len(head);
        lemma_tokens_lossless(rest);
        assert forall|i: int| 0 <= i < tokens(s).len() implies (#[trigger] tokens(s)[i]).len > 0
            && tokens(s)[i].kind != TokenKind::Eof by {
            if i > 0 {
                assert(tokens(s)[i] == tokens(s).skip(1)[i - 1]);
            }
        }
    }
    lemma_spans_cover(tokens(s), encode_utf8(s));
}

/// Splits a text into its tokens.
///
/// The tokens cover the text: their lengths add up to its length in bytes,
/// and the pieces that they cut from its bytes, laid end to end, are those
/// bytes again.
pub fn tokenize(input: &str) -> (toks: Vec<Token>)
    ensures
        toks@ == tokens(input@),
        total_len(toks@) == byte_len(input@),
        spans(toks@, encode_utf8(input@)).flatten() == encode_utf8(input@),
{
    let mut cursor = Cursor::new(input);
    proof {
        lemma_tokens_lossless(input@);
    }
    let mut toks: Vec<Token> = Vec::new();
    loop
        invariant
            cursor.spec_pos_within_token() == 0,
            toks@ + tokens(cursor@) == tokens(input@),
        ensures
            toks@ == tokens(input@),
        decreases cursor@.len(),
    {
        let ghost left = cursor@;
        match cursor.next() {
            None => {
                break ;
            },
            Some(token) => {
                proof {
                    let (kind, n) = first_token(left);
                    assert(token == Token { kind, len: byte_len(left.take(n as int)) as usize });
                    assert(toks@.push(token) + tokens(left.skip(n as int)) =~= toks@ + tokens(left));
                }
                toks.push(token);
            },
        }
    }
    toks
}

} // verus!

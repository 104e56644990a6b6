//! The lexical grammar: which token stands at the head of a text.
//!
//! Every function here is a specification over texts, `Seq<char>`. A rule
//! that scans takes the text that follows what was already consumed and gives
//! the number of further characters that belong to the token, together with
//! what it found out about them.

use crate::classify::{spec_is_id_continue, spec_is_id_start, spec_is_whitespace};
use crate::text::peek;
use crate::token::{Base, LiteralKind, TokenKind};
use vstd::prelude::*;

verus! {

/// The ASCII digits `0` to `9`.
pub open spec fn is_dec_digit(c: char) -> bool {
    '0' <= c && c <= '9'
}

/// The ASCII digits, and the letters `a` to `f` in either case.
pub open spec fn is_hex_digit(c: char) -> bool {
    is_dec_digit(c) || ('a' <= c && c <= 'f') || ('A' <= c && c <= 'F')
}

/// The two characters that open and close a string.
pub open spec fn is_quote(c: char) -> bool {
    c == '"' || c == '\''
}

/// The digits of the given base.
pub open spec fn is_digit_of(base: Base, c: char) -> bool {
    match base {
        Base::Decimal => is_dec_digit(c),
        Base::Hexadecimal => is_hex_digit(c),
    }
}

/// The token that a single punctuation character makes, `None` for any other
/// character.
pub open spec fn punctuation(c: char) -> Option<TokenKind> {
    if c == ';' {
        Some(TokenKind::Semi)
    } else if c == ',' {
        Some(TokenKind::Comma)
    } else if c == '.' {
        Some(TokenKind::Dot)
    } else if c == '(' {
        Some(TokenKind::OpenParen)
    } else if c == ')' {
        Some(TokenKind::CloseParen)
    } else if c == '{' {
        Some(TokenKind::OpenBrace)
    } else if c == '}' {
        Some(TokenKind::CloseBrace)
    } else if c == '[' {
        Some(TokenKind::OpenBracket)
    } else if c == ']' {
        Some(TokenKind::CloseBracket)
    } else if c == '~' {
        Some(TokenKind::Tilde)
    } else if c == '?' {
        Some(TokenKind::Question)
    } else if c == ':' {
        Some(TokenKind::Colon)
    } else if c == '=' {
        Some(TokenKind::Eq)
    } else if c == '!' {
        Some(TokenKind::Bang)
    } else if c == '<' {
        Some(TokenKind::Lt)
    } else if c == '>' {
        Some(TokenKind::Gt)
    } else if c == '-' {
        Some(TokenKind::Minus)
    } else if c == '&' {
        Some(TokenKind::And)
    } else if c == '|' {
        Some(TokenKind::Or)
    } else if c == '+' {
        Some(TokenKind::Plus)
    } else if c == '*' {
        Some(TokenKind::Star)
    } else if c == '/' {
        Some(TokenKind::Slash)
    } else if c == '^' {
        Some(TokenKind::Caret)
    } else if c == '%' {
        Some(TokenKind::Percent)
    } else {
        None
    }
}

/// The length of the longest prefix of `s` whose characters all satisfy `p`.
pub open spec fn run_len(s: Seq<char>, p: spec_fn(char) -> bool) -> nat
    decreases s.len(),
{
    if s.len() > 0 && p(s[0]) {
        1 + run_len(s.skip(1), p)
    } else {
        0
    }
}

/// A line comment, after its first `/`: its kind, and the number of
/// characters that belong to it. `s` starts with the second `/`.
///
/// It is a doc comment when it starts with three slashes and no fourth. It
/// goes up to the end of the line: the newline is no part of it.
pub open spec fn line_comment(s: Seq<char>) -> (TokenKind, nat) {
    let is_doc = peek(s, 1) == '/' && peek(s, 2) != '/';
    (TokenKind::LineComment { is_doc }, 1 + run_len(s.skip(1), |c: char| c != '\n'))
}

/// The body of a block comment with `depth` comments open: the number of
/// characters up to and including the `*/` that closes the outermost of them,
/// or up to the end of the text, and whether that `*/` was found.
pub open spec fn block_comment_body(s: Seq<char>, depth: nat) -> (nat, bool)
    decreases s.len(),
{
    if s.len() == 0 {
        (0, false)
    } else if s[0] == '/' && peek(s, 1) == '*' {
        let (n, closed) = block_comment_body(s.skip(2), depth + 1);
        (2 + n, closed)
    } else if s[0] == '*' && peek(s, 1) == '/' {
        if depth <= 1 {
            (2, true)
        } else {
            let (n, closed) = block_comment_body(s.skip(2), (depth - 1) as nat);
            (2 + n, closed)
        }
    } else {
        let (n, closed) = block_comment_body(s.skip(1), depth);
        (1 + n, closed)
    }
}

/// A block comment, after its `/`: its kind, and the number of characters
/// that belong to it. `s` starts with the `*`.
///
/// It is a doc comment when it starts with `/**` and neither `*` nor `/`
/// comes next.
pub open spec fn block_comment(s: Seq<char>) -> (TokenKind, nat) {
    let is_doc = peek(s, 1) == '*' && peek(s, 2) != '*' && peek(s, 2) != '/';
    let (n, terminated) = block_comment_body(s.skip(1), 1);
    (TokenKind::BlockComment { is_doc, terminated }, 1 + n)
}

/// A string, after its opening quote: the number of characters up to and
/// including the closing quote, or up to the end of the text, and whether
/// the closing quote was found. A backslash makes a backslash or a quote
/// that follows it part of the string.
pub open spec fn string_body(s: Seq<char>, quote: char) -> (nat, bool)
    decreases s.len(),
{
    if s.len() == 0 {
        (0, false)
    } else if s[0] == quote {
        (1, true)
    } else if s[0] == '\\' && s.len() > 1 && (s[1] == '\\' || s[1] == quote) {
        let (n, closed) = string_body(s.skip(2), quote);
        (2 + n, closed)
    } else {
        let (n, closed) = string_body(s.skip(1), quote);
        (1 + n, closed)
    }
}

/// The length of the run of digits of `base` and underscores at the head of `s`.
pub open spec fn digits_len(s: Seq<char>, base: Base) -> nat {
    run_len(s, |c: char| is_digit_of(base, c) || c == '_')
}

/// Whether the run of digits of `base` and underscores at the head of `s`
/// holds a digit.
pub open spec fn digits_found(s: Seq<char>, base: Base) -> bool
    decreases s.len(),
{
    s.len() > 0 && (is_digit_of(base, s[0]) || (s[0] == '_' && digits_found(s.skip(1), base)))
}

/// An exponent, after its `e` or `E`: the number of characters that belong to
/// it, and whether it holds a digit. A `-` may come first; a `+` may not.
pub open spec fn exponent(s: Seq<char>) -> (nat, bool) {
    let sign: nat = if peek(s, 0) == '-' {
        1
    } else {
        0
    };
    let digits = s.skip(sign as int);
    (sign + digits_len(digits, Base::Decimal), digits_found(digits, Base::Decimal))
}

/// What may follow the digits of a fraction, or those of an integer: an `e`
/// or `E` and an exponent. Gives the number of characters taken, and whether
/// an exponent was started that holds no digit.
pub open spec fn exponent_part(s: Seq<char>) -> (nat, bool) {
    if peek(s, 0) == 'e' || peek(s, 0) == 'E' {
        let (n, found) = exponent(s.skip(1));
        (1 + n, !found)
    } else {
        (0, false)
    }
}

/// What follows the integer part of a number of the given base.
///
/// A `.` starts a fraction unless an identifier starts right after it: `1.5`
/// is one number, `1.foo` is a number, a dot and an identifier. The fraction
/// is a run of decimal digits, which may be empty, and may have an exponent.
/// Without a fraction, an `e` or `E` starts an exponent. With neither, the
/// number is an integer.
pub open spec fn number_tail(s: Seq<char>, base: Base) -> (LiteralKind, nat) {
    if peek(s, 0) == '.' && !spec_is_id_start(peek(s, 1)) {
        let n = digits_len(s.skip(1), Base::Decimal);
        let (m, empty_exponent) = exponent_part(s.skip(1 + n as int));
        (LiteralKind::Rational { base, empty_exponent }, 1 + n + m)
    } else if peek(s, 0) == 'e' || peek(s, 0) == 'E' {
        let (m, empty_exponent) = exponent_part(s);
        (LiteralKind::Rational { base, empty_exponent }, m)
    } else {
        (LiteralKind::Int { base, empty_int: false }, 0)
    }
}

/// A number, after its first digit: its kind, and the number of further
/// characters that belong to it.
///
/// `0x` starts a hexadecimal number; with no hexadecimal digit after it the
/// number is an empty integer, which still takes the underscores that
/// follow. Any other number is decimal: its integer part is the first digit
/// and the run of digits and underscores after it.
pub open spec fn number(first_digit: char, s: Seq<char>) -> (LiteralKind, nat) {
    if first_digit == '0' && peek(s, 0) == 'x' {
        let n = digits_len(s.skip(1), Base::Hexadecimal);
        if digits_found(s.skip(1), Base::Hexadecimal) {
            let (kind, m) = number_tail(s.skip(1 + n as int), Base::Hexadecimal);
            (kind, 1 + n + m)
        } else {
            (LiteralKind::Int { base: Base::Hexadecimal, empty_int: true }, 1 + n)
        }
    } else {
        let n = digits_len(s, Base::Decimal);
        let (kind, m) = number_tail(s.skip(n as int), Base::Decimal);
        (kind, n + m)
    }
}

/// Whether `s` starts with the characters of `prefix` and then a quote.
pub open spec fn starts_quoted(s: Seq<char>, prefix: Seq<char>) -> bool {
    prefix.is_prefix_of(s) && is_quote(peek(s, prefix.len() as int))
}

/// A string with a prefix in front of it, after the first character of the
/// prefix: `s` goes on with `rest`, the other characters of the prefix, and
/// the opening quote. Gives the number of characters up to the end of the
/// string, and whether the string is closed.
pub open spec fn prefixed_string(s: Seq<char>, rest: Seq<char>) -> (nat, bool) {
    let (n, closed) = string_body(s.skip(rest.len() as int + 1), s[rest.len() as int]);
    (rest.len() + 1 + n, closed)
}

/// The characters of `hex` after the first.
pub open spec fn hex_rest() -> Seq<char> {
    seq!['e', 'x']
}

/// The characters of `unicode` after the first.
pub open spec fn unicode_rest() -> Seq<char> {
    seq!['n', 'i', 'c', 'o', 'd', 'e']
}

/// An identifier or a prefixed string, after its first character: its kind,
/// and the number of further characters that belong to it.
///
/// `hex` and `unicode` directly in front of a quote start a string. Anything
/// else is the longest run of identifier characters; directly in front of a
/// quote it is an unknown prefix, else an identifier.
pub open spec fn ident_or_prefixed_literal(first_char: char, s: Seq<char>) -> (TokenKind, nat) {
    if first_char == 'h' && starts_quoted(s, hex_rest()) {
        let (n, terminated) = prefixed_string(s, hex_rest());
        (TokenKind::Literal { kind: LiteralKind::HexStr { terminated } }, n)
    } else if first_char == 'u' && starts_quoted(s, unicode_rest()) {
        let (n, terminated) = prefixed_string(s, unicode_rest());
        (TokenKind::Literal { kind: LiteralKind::Str { terminated, unicode: true } }, n)
    } else {
        let n = run_len(s, |c: char| spec_is_id_continue(c));
        if is_quote(peek(s, n as int)) {
            (TokenKind::UnknownPrefix, n)
        } else {
            (TokenKind::Ident, n)
        }
    }
}

/// The token at the head of a text that is not empty: its kind, and the
/// number of characters that it takes.
///
/// The first character decides, in this order: `/` starts a comment when
/// `/` or `*` follows it, and is punctuation otherwise; a whitespace
/// character starts a run of whitespace; an identifier start, an identifier
/// or a prefixed string; a digit, a number; a punctuation character is a
/// token by itself; a quote starts a string; any other character is unknown.
pub open spec fn first_token(s: Seq<char>) -> (TokenKind, nat)
    recommends
        s.len() > 0,
{
    let c = s[0];
    let rest = s.skip(1);
    if c == '/' && peek(rest, 0) == '/' {
        let (kind, n) = line_comment(rest);
        (kind, 1 + n)
    } else if c == '/' && peek(rest, 0) == '*' {
        let (kind, n) = block_comment(rest);
        (kind, 1 + n)
    } else if spec_is_whitespace(c) {
        (TokenKind::Whitespace, 1 + run_len(rest, |c: char| spec_is_whitespace(c)))
    } else if spec_is_id_start(c) {
        let (kind, n) = ident_or_prefixed_literal(c, rest);
        (kind, 1 + n)
    } else if is_dec_digit(c) {
        let (kind, n) = number(c, rest);
        (TokenKind::Literal { kind }, 1 + n)
    } else if punctuation(c) is Some {
        (punctuation(c)->0, 1)
    } else if is_quote(c) {
        let (n, terminated) = string_body(rest, c);
        (TokenKind::Literal { kind: LiteralKind::Str { terminated, unicode: false } }, 1 + n)
    } else {
        (TokenKind::Unknown, 1)
    }
}

/// The token at the head of a text is never the end-of-text marker.
pub proof fn lemma_first_token_kind(s: Seq<char>)
    requires
        s.len() > 0,
    ensures
        first_token(s).0 != TokenKind::Eof,
{
}

/// A run is the longest prefix of its kind: it lies within the text, every
/// character of it satisfies `p`, and the character after it, if there is
/// one, does not.
pub proof fn lemma_run_len_maximal(s: Seq<char>, p: spec_fn(char) -> bool)
    ensures
        run_len(s, p) <= s.len(),
        forall|i: int| 0 <= i < run_len(s, p) ==> p(#[trigger] s[i]),
        run_len(s, p) < s.len() ==> !p(s[run_len(s, p) as int]),
    decreases s.len(),
{
    if s.len() > 0 && p(s[0]) {
        lemma_run_len_maximal(s.skip(1), p);
        assert forall|i: int| 0 <= i < run_len(s, p) implies p(#[trigger] s[i]) by {
            if i > 0 {
                assert(s[i] == s.skip(1)[i - 1]);
            }
        }
    }
}

/// The body of a block comment lies within the text. Where it is closed, it
/// ends with `*/`; where it is not, it goes up to the end of the text.
pub proof fn lemma_block_comment_body_end(s: Seq<char>, depth: nat)
    ensures
        ({
            let (n, closed) = block_comment_body(s, depth);
            &&& n <= s.len()
            &&& closed ==> n >= 2 && s[n - 2] == '*' && s[n - 1] == '/'
            &&& !closed ==> n == s.len()
        }),
    decreases s.len(),
{
    if s.len() == 0 {
    } else if s[0] == '/' && peek(s, 1) == '*' {
        lemma_block_comment_body_end(s.skip(2), depth + 1);
    } else if s[0] == '*' && peek(s, 1) == '/' {
        if depth > 1 {
            lemma_block_comment_body_end(s.skip(2), (depth - 1) as nat);
        }
    } else {
        lemma_block_comment_body_end(s.skip(1), depth);
    }
}

/// The body of a string lies within the text. Where it is closed, it ends
/// with the quote; where it is not, it goes up to the end of the text.
pub proof fn lemma_string_body_end(s: Seq<char>, quote: char)
    ensures
        ({
            let (n, closed) = string_body(s, quote);
            &&& n <= s.len()
            &&& closed ==> n >= 1 && s[n - 1] == quote
            &&& !closed ==> n == s.len()
        }),
    decreases s.len(),
{
    if s.len() == 0 {
    } else if s[0] == quote {
    } else if s[0] == '\\' && s.len() > 1 && (s[1] == '\\' || s[1] == quote) {
        lemma_string_body_end(s.skip(2), quote);
    } else {
        lemma_string_body_end(s.skip(1), quote);
    }
}

/// The run of digits and underscores at the head of a text holds a digit
/// exactly if one of its characters is a digit.
pub proof fn lemma_digits_found(s: Seq<char>, base: Base)
    ensures
        digits_found(s, base) <==> exists|i: int|
            0 <= i < digits_len(s, base) && is_digit_of(base, #[trigger] s[i]),
    decreases s.len(),
{
    let p = |c: char| is_digit_of(base, c) || c == '_';
    if s.len() > 0 && p(s[0]) {
        let rest = s.skip(1);
        lemma_digits_found(rest, base);
        lemma_run_len_maximal(rest, p);
        if is_digit_of(base, s[0]) {
            assert(0 <= 0 < digits_len(s, base) && is_digit_of(base, s[0]));
        } else if digits_found(rest, base) {
            let i = choose|i: int| 0 <= i < digits_len(rest, base) && is_digit_of(base, #[trigger] rest[i]);
            assert(s[i + 1] == rest[i]);
            assert(0 <= i + 1 < digits_len(s, base) && is_digit_of(base, s[i + 1]));
        } else {
            assert forall|i: int| 0 <= i < digits_len(s, base) implies !is_digit_of(
                base,
                #[trigger] s[i],
            ) by {
                if i > 0 {
                    assert(s[i] == rest[i - 1]);
                }
            }
        }
    }
}

/// An exponent is no longer than the text.
pub proof fn lemma_exponent_part_bound(s: Seq<char>)
    ensures
        exponent_part(s).0 <= s.len(),
{
    if peek(s, 0) == 'e' || peek(s, 0) == 'E' {
        let e = s.skip(1);
        let sign: nat = if peek(e, 0) == '-' {
            1
        } else {
            0
        };
        lemma_run_len_maximal(e.skip(sign as int), |c: char| is_digit_of(Base::Decimal, c) || c == '_');
    }
}

/// What follows the integer part of a number is no longer than the text.
pub proof fn lemma_number_tail_bound(s: Seq<char>, base: Base)
    ensures
        number_tail(s, base).1 <= s.len(),
{
    if peek(s, 0) == '.' && !spec_is_id_start(peek(s, 1)) {
        let n = digits_len(s.skip(1), Base::Decimal);
        lemma_run_len_maximal(s.skip(1), |c: char| is_digit_of(Base::Decimal, c) || c == '_');
        lemma_exponent_part_bound(s.skip(1 + n as int));
    } else {
        lemma_exponent_part_bound(s);
    }
}

/// A number is no longer than the text.
pub proof fn lemma_number_bound(first_digit: char, s: Seq<char>)
    ensures
        number(first_digit, s).1 <= s.len(),
{
    if first_digit == '0' && peek(s, 0) == 'x' {
        let n = digits_len(s.skip(1), Base::Hexadecimal);
        lemma_run_len_maximal(s.skip(1), |c: char| is_digit_of(Base::Hexadecimal, c) || c == '_');
        lemma_number_tail_bound(s.skip(1 + n as int), Base::Hexadecimal);
    } else {
        let n = digits_len(s, Base::Decimal);
        lemma_run_len_maximal(s, |c: char| is_digit_of(Base::Decimal, c) || c == '_');
        lemma_number_tail_bound(s.skip(n as int), Base::Decimal);
    }
}

/// An identifier or a prefixed string is no longer than the text.
pub proof fn lemma_ident_or_prefixed_literal_bound(first_char: char, s: Seq<char>)
    ensures
        ident_or_prefixed_literal(first_char, s).1 <= s.len(),
{
    if first_char == 'h' && starts_quoted(s, hex_rest()) {
        lemma_string_body_end(s.skip(3), s[2]);
    } else if first_char == 'u' && starts_quoted(s, unicode_rest()) {
        lemma_string_body_end(s.skip(7), s[6]);
    } else {
        lemma_run_len_maximal(s, |c: char| spec_is_id_continue(c));
    }
}

/// The token at the head of a text takes at least one character, and no
/// more than the text has.
pub proof fn lemma_first_token_len(s: Seq<char>)
    requires
        s.len() > 0,
    ensures
        1 <= first_token(s).1 <= s.len(),
{
    let c = s[0];
    let rest = s.skip(1);
    if c == '/' && peek(rest, 0) == '/' {
        lemma_run_len_maximal(rest.skip(1), |c: char| c != '\n');
    } else if c == '/' && peek(rest, 0) == '*' {
        lemma_block_comment_body_end(rest.skip(1), 1);
    } else if spec_is_whitespace(c) {
        lemma_run_len_maximal(rest, |c: char| spec_is_whitespace(c));
    } else if spec_is_id_start(c) {
        lemma_ident_or_prefixed_literal_bound(c, rest);
    } else if is_dec_digit(c) {
        lemma_number_bound(c, rest);
    } else if punctuation(c) is Some {
    } else if is_quote(c) {
        lemma_string_body_end(rest, c);
    } else {
    }
}

/// A punctuation character is a token by itself, whatever follows it: no two
/// of them make one token. The one exception is the start of a comment, a
/// `/` in front of `/` or `*`.
pub proof fn lemma_punctuation_stands_alone(s: Seq<char>)
    requires
        s.len() > 0,
        punctuation(s[0]) is Some,
        !(s[0] == '/' && (peek(s, 1) == '/' || peek(s, 1) == '*')),
    ensures
        first_token(s) == (punctuation(s[0])->0, 1nat),
{
}

/// No two punctuation characters make the same token.
pub proof fn lemma_punctuation_distinct(a: char, b: char)
    requires
        punctuation(a) is Some,
        punctuation(a) == punctuation(b),
    ensures
        a == b,
{
}

/// A punctuation token comes from its own character and from nothing else:
/// where the token at the head of a text is one, the text starts with that
/// character, and the token takes that character alone.
pub proof fn lemma_punctuation_only_from_its_character(s: Seq<char>, c: char)
    requires
        s.len() > 0,
        punctuation(c) == Some(first_token(s).0),
    ensures
        s[0] == c,
        first_token(s).1 == 1,
{
}

} // verus!

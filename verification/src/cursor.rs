//! The cursor: a forward-only scanner over one text.

use crate::classify::{
    is_id_continue, is_id_start, is_whitespace, spec_is_id_continue, spec_is_id_start,
    spec_is_whitespace,
};
use crate::grammar;
use crate::grammar::run_len;
use crate::text::{
    byte_len, lemma_byte_len_split, lemma_encode_first, lemma_len_le_byte_len, lemma_peek_skip,
    nth_char, peek, split_first, starts_with, str_len,
};
use crate::token::{Base, LiteralKind, Token, TokenKind};
use vstd::prelude::*;
use vstd::string::*;

verus! {

/// What `first` and `second` return past the end of the text.
const EOF_CHAR: char = '\0';

/// Peekable scanner over a char sequence.
///
/// Next characters can be peeked via `first` method,
/// and position can be shifted forward via `bump` method.
///
/// The view of a cursor is the text that is left to scan.
pub struct Cursor<'a> {
    /// The byte length of what was left at the last token boundary.
    len_remaining: usize,
    /// What is left of the text.
    rest: &'a str,
    /// The character consumed last. Nothing reads it when the program runs:
    /// the sub-lexers state with it where they may be called.
    prev: Ghost<char>,
}

impl<'a> View for Cursor<'a> {
    type V = Seq<char>;

    closed spec fn view(&self) -> Seq<char> {
        self.rest@
    }
}

impl<'a> Cursor<'a> {
    /// What is left is no longer than what was left at the last token boundary.
    #[verifier::type_invariant]
    spec fn inv(&self) -> bool {
        byte_len(self.rest@) <= self.len_remaining
    }

    /// The number of bytes consumed since the last token boundary. It is 0
    /// for a new cursor and after every token.
    pub closed spec fn spec_pos_within_token(&self) -> nat {
        (self.len_remaining - byte_len(self.rest@)) as nat
    }

    /// Creates a new cursor over the given input string slice.
    ///
    /// The cursor stands at the head of the text, at a token boundary. The
    /// text is that of a string, so that its length in bytes is one that the
    /// machine can hold.
    pub fn new(input: &'a str) -> (cursor: Cursor<'a>)
        ensures
            cursor@ == input@,
            cursor.spec_pos_within_token() == 0,
            cursor.prev() == '\0',
            byte_len(input@) <= usize::MAX,
    {
        Cursor { len_remaining: str_len(input), rest: input, prev: Ghost(EOF_CHAR) }
    }

    /// Parses a token from the input string.
    ///
    /// At the end of the text this is the `Eof` token, and the cursor stays
    /// as it is. Anywhere else it is the token at the head of the text that
    /// is left: the cursor moves past it, and the token's length counts the
    /// bytes consumed since the last token boundary.
    pub fn advance_token(&mut self) -> (token: Token)
        ensures
            old(self)@.len() == 0 ==> token == Token::eof() && *final(self) == *old(self),
            old(self)@.len() > 0 ==> ({
                let (kind, n) = grammar::first_token(old(self)@);
                &&& token.kind == kind
                &&& token.len == old(self).spec_pos_within_token() + byte_len(
                    old(self)@.take(n as int),
                )
                &&& token.len > 0
                &&& 1 <= n <= old(self)@.len()
                &&& final(self)@ == old(self)@.skip(n as int)
                &&& final(self).spec_pos_within_token() == 0
                &&& final(self).prev() == old(self)@[n - 1]
            }),
    {
        let ghost start = *self;
        proof {
            use_type_invariant(&*self);
        }
        let first_char = match self.bump() {
            Some(c) => c,
            None => {
                return Token::eof();
            },
        };
        let ghost rest = *self;
        proof {
            lemma_moved_refl(rest);
        }

        let token_kind = match first_char {
            // Slash, comment or block comment.
            '/' => match self.first() {
                '/' => self.line_comment(),
                '*' => self.block_comment(),
                _ => TokenKind::Slash,
            },
            // Whitespace sequence.
            c if is_whitespace(c) => self.whitespace(),
            // Identifier (this should be checked after other variant that can start as identifier).
            c if is_id_start(c) => self.ident_or_prefixed_literal(c),
            // Numeric literal.
            c @ '0'..='9' => {
                let kind = self.number(c);
                TokenKind::Literal { kind }
            },
            // One-symbol tokens.
            ';' => TokenKind::Semi,
            ',' => TokenKind::Comma,
            '.' => TokenKind::Dot,
            '(' => TokenKind::OpenParen,
            ')' => TokenKind::CloseParen,
            '{' => TokenKind::OpenBrace,
            '}' => TokenKind::CloseBrace,
            '[' => TokenKind::OpenBracket,
            ']' => TokenKind::CloseBracket,
            '~' => TokenKind::Tilde,
            '?' => TokenKind::Question,
            ':' => TokenKind::Colon,
            '=' => TokenKind::Eq,
            '!' => TokenKind::Bang,
            '<' => TokenKind::Lt,
            '>' => TokenKind::Gt,
            '-' => TokenKind::Minus,
            '&' => TokenKind::And,
            '|' => TokenKind::Or,
            '+' => TokenKind::Plus,
            '*' => TokenKind::Star,
            '^' => TokenKind::Caret,
            '%' => TokenKind::Percent,
            // String literal.
            c @ ('\'' | '"') => {
                let terminated = self.eat_string(c);
                let kind = LiteralKind::Str { terminated, unicode: false };
                TokenKind::Literal { kind }
            },
            _ => TokenKind::Unknown,
        };
        proof {
            let (kind, n) = grammar::first_token(start@);
            assert(token_kind == kind);
            assert(moved(rest, *self, (n - 1) as nat));
            lemma_moved_trans(start, rest, *self, 1, (n - 1) as nat);
            lemma_byte_len_split(start@, n as int);
            lemma_len_le_byte_len(start@.take(n as int));
        }
        let res = Token::new(token_kind, self.pos_within_token());
        self.reset_pos_within_token();
        res
    }

    /// Hands out the next token, `None` at the end of the text.
    pub fn next(&mut self) -> (item: Option<Token>)
        ensures
            old(self)@.len() == 0 ==> item is None && *final(self) == *old(self),
            old(self)@.len() > 0 ==> ({
                let (kind, n) = grammar::first_token(old(self)@);
                &&& item matches Some(token)
                &&& token.kind == kind
                &&& token.len == old(self).spec_pos_within_token() + byte_len(
                    old(self)@.take(n as int),
                )
                &&& token.len > 0
                &&& 1 <= n <= old(self)@.len()
                &&& final(self)@ == old(self)@.skip(n as int)
                &&& final(self).spec_pos_within_token() == 0
                &&& final(self).prev() == old(self)@[n - 1]
            }),
    {
        let token = self.advance_token();
        proof {
            if old(self)@.len() > 0 {
                grammar::lemma_first_token_kind(old(self)@);
            }
        }
        if token.kind == TokenKind::Eof {
            None
        } else {
            Some(token)
        }
    }

    /// Scans a line comment, after its first `/`: the second `/` comes next.
    /// Moves to the end of the line.
    fn line_comment(&mut self) -> (kind: TokenKind)
        requires
            old(self).prev() == '/',
            peek(old(self)@, 0) == '/',
        ensures
            kind == grammar::line_comment(old(self)@).0,
            moved(*old(self), *final(self), grammar::line_comment(old(self)@).1),
    {
        let ghost start = *self;
        self.bump();
        let ghost body = *self;
        proof {
            lemma_peek_skip(start@, 1, 0);
            lemma_peek_skip(start@, 1, 1);
        }

        // `////` (more than 3 slashes) is not considered a doc comment.
        let is_doc = self.first() == '/' && self.second() != '/';

        let not_newline = |c: char| -> (b: bool)
            ensures
                b == (c != '\n'),
            { c != '\n' };
        self.eat_while(not_newline, Ghost(|c: char| c != '\n'));
        proof {
            lemma_moved_trans(start, body, *self, 1, run_len(body@, |c: char| c != '\n'));
        }
        TokenKind::LineComment { is_doc }
    }

    /// Scans a block comment, after its `/`: the `*` comes next. Moves past
    /// the `*/` that closes it, or to the end of the text.
    fn block_comment(&mut self) -> (kind: TokenKind)
        requires
            old(self).prev() == '/',
            peek(old(self)@, 0) == '*',
        ensures
            kind == grammar::block_comment(old(self)@).0,
            moved(*old(self), *final(self), grammar::block_comment(old(self)@).1),
    {
        let ghost start = *self;
        self.bump();
        let ghost body = *self;
        proof {
            lemma_peek_skip(start@, 1, 0);
            lemma_peek_skip(start@, 1, 1);
            lemma_moved_refl(body);
            use_type_invariant(&*self);
            lemma_len_le_byte_len(body@);
        }

        // `/***` (more than 2 stars) is not considered a doc comment.
        // `/**/` is not considered a doc comment.
        let is_doc = self.first() == '*' && !matches!(self.second(), '*' | '/');

        let mut depth = 1usize;
        let ghost mut k: nat = 0;
        loop
            invariant_except_break
                depth >= 1,
                grammar::block_comment_body(body@, 1).0 == k + grammar::block_comment_body(
                    self@,
                    depth as nat,
                ).0,
                grammar::block_comment_body(body@, 1).1 == grammar::block_comment_body(
                    self@,
                    depth as nat,
                ).1,
            invariant
                moved(body, *self, k),
                body@.len() <= usize::MAX,
                depth + self@.len() <= 1 + body@.len(),
            ensures
                moved(body, *self, grammar::block_comment_body(body@, 1).0),
                (depth == 0) == grammar::block_comment_body(body@, 1).1,
            decreases self@.len(),
        {
            let ghost before = *self;
            match self.bump() {
                None => break ,
                Some(c) => {
                    let ghost second = *self;
                    proof {
                        lemma_moved_trans(body, before, second, k, 1);
                        lemma_peek_skip(before@, 1, 0);
                        k = k + 1;
                    }
                    match c {
                        '/' if self.first() == '*' => {
                            self.bump();
                            depth += 1;
                            proof {
                                lemma_moved_trans(body, second, *self, k, 1);
                                lemma_moved_trans(before, second, *self, 1, 1);
                                k = k + 1;
                            }
                        },
                        '*' if self.first() == '/' => {
                            self.bump();
                            depth -= 1;
                            proof {
                                lemma_moved_trans(body, second, *self, k, 1);
                                lemma_moved_trans(before, second, *self, 1, 1);
                                k = k + 1;
                            }
                            if depth == 0 {
                                // This block comment is closed, so for a construction like "/* */ */"
                                // there will be a successfully parsed block comment "/* */"
                                // and " */" will be processed separately.
                                break ;
                            }
                        },
                        _ => (),
                    }
                },
            }
        }
        proof {
            lemma_moved_trans(start, body, *self, 1, grammar::block_comment_body(body@, 1).0);
        }
        TokenKind::BlockComment { is_doc, terminated: depth == 0 }
    }

    /// Scans a run of whitespace, after its first character.
    fn whitespace(&mut self) -> (kind: TokenKind)
        requires
            spec_is_whitespace(old(self).prev()),
        ensures
            kind == TokenKind::Whitespace,
            moved(*old(self), *final(self), run_len(old(self)@, |c: char| spec_is_whitespace(c))),
    {
        self.eat_while(is_whitespace, Ghost(|c: char| spec_is_whitespace(c)));
        TokenKind::Whitespace
    }

    /// Scans an identifier, or a string with `hex` or `unicode` in front of
    /// it, after its first character.
    fn ident_or_prefixed_literal(&mut self, first_char: char) -> (kind: TokenKind)
        requires
            spec_is_id_start(first_char),
            old(self).prev() == first_char,
        ensures
            kind == grammar::ident_or_prefixed_literal(first_char, old(self)@).0,
            moved(
                *old(self),
                *final(self),
                grammar::ident_or_prefixed_literal(first_char, old(self)@).1,
            ),
    {
        // Check for potential prefixed literals.
        match first_char {
            // `hex"01234"`
            'h' => {
                if let Some(lit) = self.maybe_hex_literal() {
                    return lit;
                }
            },
            // `unicode"abc"`
            'u' => {
                if let Some(lit) = self.maybe_unicode_literal() {
                    return lit;
                }
            },
            _ => {},
        }

        // Start is already eaten, eat the rest of identifier.
        self.eat_while(is_id_continue, Ghost(|c: char| spec_is_id_continue(c)));
        proof {
            lemma_peek_skip(old(self)@, run_len(old(self)@, |c: char| spec_is_id_continue(c)) as int, 0);
        }
        // Known prefixes must have been handled earlier. So if
        // we see a prefix here, it is definitely an unknown prefix.
        match self.first() {
            '"' | '\'' => TokenKind::UnknownPrefix,
            _ => TokenKind::Ident,
        }
    }

    /// Scans a number, after its first digit.
    fn number(&mut self, first_digit: char) -> (kind: LiteralKind)
        requires
            grammar::is_dec_digit(first_digit),
            old(self).prev() == first_digit,
        ensures
            kind == grammar::number(first_digit, old(self)@).0,
            moved(*old(self), *final(self), grammar::number(first_digit, old(self)@).1),
    {
        let ghost start = *self;
        proof {
            lemma_moved_refl(start);
        }
        let mut base = Base::Decimal;
        if first_digit == '0' {
            // Attempt to parse encoding base.
            let has_digits = match self.first() {
                'x' => {
                    base = Base::Hexadecimal;
                    self.bump();
                    let ghost digits = *self;
                    let found = self.eat_hexadecimal_digits();
                    proof {
                        lemma_moved_trans(
                            start,
                            digits,
                            *self,
                            1,
                            grammar::digits_len(digits@, Base::Hexadecimal),
                        );
                    }
                    found
                },
                // Not a base prefix.
                '0'..='9' | '_' | '.' | 'e' | 'E' => {
                    self.eat_decimal_digits();
                    true
                },
                // Just a 0.
                _ => {
                    return LiteralKind::Int { base, empty_int: false };
                },
            };
            // Base prefix was provided, but there were no digits
            // after it, e.g. "0x".
            if !has_digits {
                return LiteralKind::Int { base, empty_int: true };
            }
        } else {
            // No base prefix, parse number in the usual way.
            self.eat_decimal_digits();
        };

        let ghost tail = *self;
        let ghost int_len: nat = if base == Base::Hexadecimal {
            1 + grammar::digits_len(start@.skip(1), Base::Hexadecimal)
        } else {
            grammar::digits_len(start@, Base::Decimal)
        };
        assert(moved(start, tail, int_len));
        assert(grammar::number(first_digit, start@) == (
            grammar::number_tail(tail@, base).0,
            int_len + grammar::number_tail(tail@, base).1,
        ));

        match self.first() {
            // Don't be greedy if this is actually an integer literal followed
            // by field/method access (`12.foo()`)
            '.' if !is_id_start(self.second()) => {
                // might have stuff after the ., and if it does,
                // it needs to start with a number
                self.bump();
                let ghost fraction = *self;
                proof {
                    lemma_peek_skip(tail@, 1, 0);
                    lemma_moved_refl(fraction);
                }
                let mut empty_exponent = false;
                if matches!(self.first(), '0'..='9') {
                    self.eat_decimal_digits();
                    let ghost after = *self;
                    proof {
                        lemma_moved_refl(after);
                    }
                    match self.first() {
                        'e' | 'E' => {
                            self.bump();
                            let ghost exp = *self;
                            empty_exponent = !self.eat_exponent();
                            proof {
                                lemma_moved_trans(after, exp, *self, 1, grammar::exponent(exp@).0);
                            }
                        },
                        _ => (),
                    }
                    proof {
                        lemma_moved_trans(
                            fraction,
                            after,
                            *self,
                            grammar::digits_len(fraction@, Base::Decimal),
                            grammar::exponent_part(after@).0,
                        );
                    }
                }
                proof {
                    let n = grammar::digits_len(fraction@, Base::Decimal);
                    assert(tail@.skip(1 + n as int) =~= fraction@.skip(n as int));
                    lemma_moved_trans(tail, fraction, *self, 1, n + grammar::exponent_part(fraction@.skip(n as int)).0);
                    lemma_moved_trans(start, tail, *self, int_len, grammar::number_tail(tail@, base).1);
                }
                LiteralKind::Rational { base, empty_exponent }
            },
            'e' | 'E' => {
                self.bump();
                let ghost exp = *self;
                let empty_exponent = !self.eat_exponent();
                proof {
                    lemma_moved_trans(tail, exp, *self, 1, grammar::exponent(exp@).0);
                    lemma_moved_trans(start, tail, *self, int_len, grammar::number_tail(tail@, base).1);
                }
                LiteralKind::Rational { base, empty_exponent }
            },
            _ => LiteralKind::Int { base, empty_int: false },
        }
    }

    /// Scans a `hex` string, after its `h`, if `ex` and a quote come next.
    /// The cursor stays as it is if they do not.
    fn maybe_hex_literal(&mut self) -> (lit: Option<TokenKind>)
        requires
            old(self).prev() == 'h',
        ensures
            ({
                let s = old(self)@;
                if grammar::starts_quoted(s, grammar::hex_rest()) {
                    let (n, terminated) = grammar::prefixed_string(s, grammar::hex_rest());
                    &&& lit == Some(
                        TokenKind::Literal { kind: LiteralKind::HexStr { terminated } },
                    )
                    &&& moved(*old(self), *final(self), n)
                } else {
                    lit is None && *final(self) == *old(self)
                }
            }),
    {
        let s = self.as_str();
        proof {
            reveal_strlit("ex");
            assert("ex"@ =~= grammar::hex_rest());
        }
        if starts_with(s, "ex") {
            let quote = match nth_char(s, 2) {
                Some(c) => c,
                None => {
                    return None;
                },
            };
            if !(quote == '"' || quote == '\'') {
                return None;
            }
            let ghost start = *self;
            self.ignore::<2>();
            self.bump();
            let ghost body = *self;
            let terminated = self.eat_string(quote);
            proof {
                assert(start@.skip(2).skip(1) =~= start@.skip(3));
                assert(moved(start, body, 3));
                lemma_moved_trans(start, body, *self, 3, grammar::string_body(body@, quote).0);
            }
            let kind = LiteralKind::HexStr { terminated };
            Some(TokenKind::Literal { kind })
        } else {
            None
        }
    }

    /// Scans a `unicode` string, after its `u`, if `nicode` and a quote come
    /// next. The cursor stays as it is if they do not.
    fn maybe_unicode_literal(&mut self) -> (lit: Option<TokenKind>)
        requires
            old(self).prev() == 'u',
        ensures
            ({
                let s = old(self)@;
                if grammar::starts_quoted(s, grammar::unicode_rest()) {
                    let (n, terminated) = grammar::prefixed_string(s, grammar::unicode_rest());
                    &&& lit == Some(
                        TokenKind::Literal {
                            kind: LiteralKind::Str { terminated, unicode: true },
                        },
                    )
                    &&& moved(*old(self), *final(self), n)
                } else {
                    lit is None && *final(self) == *old(self)
                }
            }),
    {
        let s = self.as_str();
        proof {
            reveal_strlit("nicode");
            assert("nicode"@ =~= grammar::unicode_rest());
        }
        if starts_with(s, "nicode") {
            let quote = match nth_char(s, 6) {
                Some(c) => c,
                None => {
                    return None;
                },
            };
            if !(quote == '"' || quote == '\'') {
                return None;
            }
            let ghost start = *self;
            self.ignore::<6>();
            self.bump();
            let ghost body = *self;
            let terminated = self.eat_string(quote);
            proof {
                assert(start@.skip(6).skip(1) =~= start@.skip(7));
                assert(moved(start, body, 7));
                lemma_moved_trans(start, body, *self, 7, grammar::string_body(body@, quote).0);
            }
            let kind = LiteralKind::Str { terminated, unicode: true };
            Some(TokenKind::Literal { kind })
        } else {
            None
        }
    }

    /// Eats a string, after its opening quote, up to and including the
    /// closing quote.
    ///
    /// Returns true if the closing quote was met, and false if the text ended
    /// before it.
    fn eat_string(&mut self, quote: char) -> (terminated: bool)
        requires
            old(self).prev() == quote,
        ensures
            terminated == grammar::string_body(old(self)@, quote).1,
            moved(*old(self), *final(self), grammar::string_body(old(self)@, quote).0),
    {
        let ghost start = *self;
        let ghost mut k: nat = 0;
        proof {
            lemma_moved_refl(start);
        }
        loop
            invariant
                start == *old(self),
                moved(start, *self, k),
                grammar::string_body(start@, quote).0 == k + grammar::string_body(self@, quote).0,
                grammar::string_body(start@, quote).1 == grammar::string_body(self@, quote).1,
            decreases self@.len(),
        {
            let ghost before = *self;
            match self.bump() {
                None => {
                    // End of file reached.
                    return false;
                },
                Some(c) => {
                    proof {
                        lemma_moved_trans(start, before, *self, k, 1);
                        k = k + 1;
                    }
                    if c == quote {
                        return true;
                    }
                    if c == '\\' && (self.first() == '\\' || self.first() == quote) {
                        // Bump again to skip escaped character.
                        let ghost escaped = *self;
                        self.bump();
                        proof {
                            if escaped@.len() > 0 {
                                lemma_moved_trans(start, escaped, *self, k, 1);
                                lemma_moved_trans(before, escaped, *self, 1, 1);
                                k = k + 1;
                            }
                        }
                    }
                },
            }
        }
    }

    /// Eats a run of decimal digits and underscores.
    ///
    /// Returns true if at least one digit was met, and returns false otherwise.
    fn eat_decimal_digits(&mut self) -> (has_digits: bool)
        ensures
            has_digits == grammar::digits_found(old(self)@, Base::Decimal),
            moved(*old(self), *final(self), grammar::digits_len(old(self)@, Base::Decimal)),
    {
        let mut has_digits = false;
        let ghost start = *self;
        let ghost mut k: nat = 0;
        proof {
            lemma_moved_refl(start);
        }
        loop
            invariant
                moved(start, *self, k),
                grammar::digits_len(start@, Base::Decimal) == k + grammar::digits_len(
                    self@,
                    Base::Decimal,
                ),
                grammar::digits_found(start@, Base::Decimal) == (has_digits
                    || grammar::digits_found(self@, Base::Decimal)),
            ensures
                moved(start, *self, grammar::digits_len(start@, Base::Decimal)),
                has_digits == grammar::digits_found(start@, Base::Decimal),
            decreases self@.len(),
        {
            let ghost before = *self;
            match self.first() {
                '_' => {
                    self.bump();
                },
                '0'..='9' => {
                    has_digits = true;
                    self.bump();
                },
                _ => break ,
            }
            proof {
                lemma_moved_trans(start, before, *self, k, 1);
                k = k + 1;
            }
        }
        has_digits
    }

    /// Eats a run of hexadecimal digits and underscores.
    ///
    /// Returns true if at least one digit was met, and returns false otherwise.
    fn eat_hexadecimal_digits(&mut self) -> (has_digits: bool)
        ensures
            has_digits == grammar::digits_found(old(self)@, Base::Hexadecimal),
            moved(*old(self), *final(self), grammar::digits_len(old(self)@, Base::Hexadecimal)),
    {
        let mut has_digits = false;
        let ghost start = *self;
        let ghost mut k: nat = 0;
        proof {
            lemma_moved_refl(start);
        }
        loop
            invariant
                moved(start, *self, k),
                grammar::digits_len(start@, Base::Hexadecimal) == k + grammar::digits_len(
                    self@,
                    Base::Hexadecimal,
                ),
                grammar::digits_found(start@, Base::Hexadecimal) == (has_digits
                    || grammar::digits_found(self@, Base::Hexadecimal)),
            ensures
                moved(start, *self, grammar::digits_len(start@, Base::Hexadecimal)),
                has_digits == grammar::digits_found(start@, Base::Hexadecimal),
            decreases self@.len(),
        {
            let ghost before = *self;
            match self.first() {
                '_' => {
                    self.bump();
                },
                '0'..='9' | 'a'..='f' | 'A'..='F' => {
                    has_digits = true;
                    self.bump();
                },
                _ => break ,
            }
            proof {
                lemma_moved_trans(start, before, *self, k, 1);
                k = k + 1;
            }
        }
        has_digits
    }

    /// Eats the exponent.
    ///
    /// Returns true if at least one digit was met, and returns false otherwise.
    fn eat_exponent(&mut self) -> (found: bool)
        requires
            old(self).prev() == 'e' || old(self).prev() == 'E',
        ensures
            found == grammar::exponent(old(self)@).1,
            moved(*old(self), *final(self), grammar::exponent(old(self)@).0),
    {
        let ghost start = *self;
        proof {
            lemma_moved_refl(start);
        }
        // '+' is not a valid prefix for an exponent
        if self.first() == '-' {
            self.bump();
        }
        let ghost digits = *self;
        let found = self.eat_decimal_digits();
        proof {
            lemma_moved_trans(start, digits, *self, if peek(start@, 0) == '-' { 1nat } else { 0nat },
                grammar::digits_len(digits@, Base::Decimal));
        }
        found
    }

    /// Eats the identifier, if one comes next.
    #[allow(dead_code)]
    fn eat_identifier(&mut self)
        ensures
            moved(
                *old(self),
                *final(self),
                if spec_is_id_start(peek(old(self)@, 0)) {
                    1 + run_len(old(self)@.skip(1), |c: char| spec_is_id_continue(c))
                } else {
                    0
                },
            ),
    {
        let ghost start = *self;
        if !is_id_start(self.first()) {
            proof {
                lemma_moved_refl(start);
            }
            return ;
        }
        self.bump();
        let ghost rest = *self;

        self.eat_while(is_id_continue, Ghost(|c: char| spec_is_id_continue(c)));
        proof {
            lemma_moved_trans(start, rest, *self, 1, run_len(rest@, |c: char| spec_is_id_continue(c)));
        }
    }

    /// Returns the remaining input as a string slice.
    fn as_str(&self) -> (s: &'a str)
        ensures
            s@ == self@,
    {
        self.rest
    }

    /// Returns the last eaten symbol, NUL where there is none.
    pub closed spec fn prev(&self) -> char {
        self.prev@
    }

    /// Peeks the next symbol from the input stream without consuming it.
    /// If requested position doesn't exist, `EOF_CHAR` is returned.
    /// However, getting `EOF_CHAR` doesn't always mean actual end of file,
    /// it should be checked with `is_eof` method.
    fn first(&self) -> (c: char)
        ensures
            c == peek(self@, 0),
    {
        if self.rest.is_empty() {
            EOF_CHAR
        } else {
            self.rest.get_char(0)
        }
    }

    /// Peeks the second symbol from the input stream without consuming it.
    fn second(&self) -> (c: char)
        ensures
            c == peek(self@, 1),
    {
        match split_first(self.rest) {
            None => EOF_CHAR,
            Some((_, tail)) => match split_first(tail) {
                None => EOF_CHAR,
                Some((c, _)) => c,
            },
        }
    }

    /// Checks if there is nothing more to consume.
    fn is_eof(&self) -> (b: bool)
        ensures
            b == (self@.len() == 0),
    {
        self.rest.is_empty()
    }

    /// Returns amount of already consumed symbols.
    fn pos_within_token(&self) -> (n: usize)
        ensures
            n == self.spec_pos_within_token(),
    {
        proof {
            use_type_invariant(self);
        }
        self.len_remaining - str_len(self.rest)
    }

    /// Resets the number of bytes consumed to 0.
    fn reset_pos_within_token(&mut self)
        ensures
            final(self)@ == old(self)@,
            final(self).prev() == old(self).prev(),
            final(self).spec_pos_within_token() == 0,
    {
        self.len_remaining = str_len(self.rest);
    }

    /// Moves to the next character.
    fn bump(&mut self) -> (r: Option<char>)
        ensures
            old(self)@.len() == 0 ==> r is None && *final(self) == *old(self),
            old(self)@.len() > 0 ==> r == Some(old(self)@[0]) && moved(*old(self), *final(self), 1),
    {
        proof {
            use_type_invariant(&*self);
        }
        match split_first(self.rest) {
            None => None,
            Some((c, tail)) => {
                proof {
                    lemma_encode_first(self.rest@);
                }
                self.rest = tail;
                self.prev = Ghost(c);
                Some(c)
            },
        }
    }

    /// Advances `N` characters, without setting `prev`.
    fn ignore<const N: usize>(&mut self)
        requires
            N <= old(self)@.len(),
        ensures
            final(self)@ == old(self)@.skip(N as int),
            final(self).len_remaining == old(self).len_remaining,
            final(self).prev() == old(self).prev(),
    {
        let ghost start = *self;
        proof {
            assert(start@.skip(0) =~= start@);
        }
        for i in 0..N
            invariant
                N <= start@.len(),
                self@ == start@.skip(i as int),
                self.len_remaining == start.len_remaining,
                self.prev() == start.prev(),
        {
            proof {
                use_type_invariant(&*self);
                lemma_encode_first(self.rest@);
                assert(start@.skip(i as int).skip(1) =~= start@.skip(i + 1));
            }
            match split_first(self.rest) {
                None => {},
                Some((_, tail)) => {
                    self.rest = tail;
                },
            }
        }
    }

    /// Eats symbols while predicate returns true or until the end of file is reached.
    ///
    /// `p` is what `predicate` computes.
    fn eat_while(&mut self, predicate: impl Fn(char) -> bool, Ghost(p): Ghost<spec_fn(char) -> bool>)
        requires
            forall|c: char| call_requires(predicate, (c,)),
            forall|c: char, b: bool| call_ensures(predicate, (c,), b) ==> b == p(c),
        ensures
            moved(*old(self), *final(self), run_len(old(self)@, p)),
    {
        let ghost start = *self;
        let ghost mut k: nat = 0;
        proof {
            lemma_moved_refl(start);
        }
        while predicate(self.first()) && !self.is_eof()
            invariant
                forall|c: char| call_requires(predicate, (c,)),
                forall|c: char, b: bool| call_ensures(predicate, (c,), b) ==> b == p(c),
                moved(start, *self, k),
                run_len(start@, p) == k + run_len(self@, p),
            decreases self@.len(),
        {
            let ghost before = *self;
            self.bump();
            proof {
                lemma_moved_trans(start, before, *self, k, 1);
                k = k + 1;
            }
        }
    }
}

/// `post` is `pre` after `n` more characters of the same token were consumed,
/// one by one.
spec fn moved(pre: Cursor, post: Cursor, n: nat) -> bool {
    &&& n <= pre@.len()
    &&& post@ == pre@.skip(n as int)
    &&& post.len_remaining == pre.len_remaining
    &&& post.prev() == if n == 0 {
        pre.prev()
    } else {
        pre@[n - 1]
    }
}

/// A cursor that stays where it is has moved by no character.
proof fn lemma_moved_refl(a: Cursor)
    ensures
        moved(a, a, 0),
{
    assert(a@.skip(0) =~= a@);
}

/// Moving by `n` characters and then by `m` is moving by `n + m`.
proof fn lemma_moved_trans(a: Cursor, b: Cursor, c: Cursor, n: nat, m: nat)
    requires
        moved(a, b, n),
        moved(b, c, m),
    ensures
        moved(a, c, n + m),
{
    assert(a@.skip(n as int).skip(m as int) =~= a@.skip((n + m) as int));
}

} // verus!

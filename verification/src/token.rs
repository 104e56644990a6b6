//! Tokens: what the lexer hands out.

use vstd::prelude::*;

verus! {

/// The base of a numeric literal, as its prefix gives it.
#[derive(Clone, Copy, Debug, PartialEq, Eq, Hash, Structural)]
pub enum Base {
    /// No prefix.
    Decimal,
    /// The `0x` prefix.
    Hexadecimal,
}

/// The kind of a literal.
#[derive(Clone, Copy, Debug, PartialEq, Eq, Hash, Structural)]
pub enum LiteralKind {
    /// `123`, `0x1a`; `empty_int` when a base prefix has no digit after it: `0x`.
    Int { base: Base, empty_int: bool },
    /// `1.5`, `1e3`, `2.`; `empty_exponent` when no digit follows the `e`: `1e`.
    Rational { base: Base, empty_exponent: bool },
    /// `"abc"`, `'abc'`, `"abc`; `unicode"abc"`, `unicode"abc`.
    Str { terminated: bool, unicode: bool },
    /// `hex"abc"`, `hex"abc`.
    HexStr { terminated: bool },
}

/// The class of a token.
#[derive(Clone, Copy, Debug, PartialEq, Eq, Hash, Structural)]
pub enum TokenKind {
    /// `// comment`; a doc comment when it starts with exactly three slashes.
    LineComment { is_doc: bool },
    /// `/* comment */`; a doc comment when it starts with `/**` and neither
    /// `*` nor `/` follows. Block comments nest. `terminated` is false when
    /// the text ends before the comment is closed.
    BlockComment { is_doc: bool, terminated: bool },
    /// A run of tabs, newlines and spaces.
    Whitespace,
    /// An identifier or a keyword.
    Ident,
    /// An identifier directly in front of a quote that is neither `hex` nor
    /// `unicode`: `foo"..."`.
    UnknownPrefix,
    /// A number or a string; see [`LiteralKind`].
    Literal { kind: LiteralKind },
    /// `;`
    Semi,
    /// `,`
    Comma,
    /// `.`
    Dot,
    /// `(`
    OpenParen,
    /// `)`
    CloseParen,
    /// `{`
    OpenBrace,
    /// `}`
    CloseBrace,
    /// `[`
    OpenBracket,
    /// `]`
    CloseBracket,
    /// `~`
    Tilde,
    /// `?`
    Question,
    /// `:`
    Colon,
    /// `=`
    Eq,
    /// `!`
    Bang,
    /// `<`
    Lt,
    /// `>`
    Gt,
    /// `-`
    Minus,
    /// `&`
    And,
    /// `|`
    Or,
    /// `+`
    Plus,
    /// `*`
    Star,
    /// `/`
    Slash,
    /// `^`
    Caret,
    /// `%`
    Percent,
    /// A character that starts no token of the grammar.
    Unknown,
    /// The end of the text.
    Eof,
}

/// A token: its class, and the number of bytes of the text that it covers.
#[derive(Clone, Copy, Debug, PartialEq, Eq, Hash, Structural)]
pub struct Token {
    /// The class of the token.
    pub kind: TokenKind,
    /// The length of the token in bytes.
    pub len: usize,
}

impl Token {
    /// Creates a token of the given kind and length.
    pub fn new(kind: TokenKind, len: usize) -> (tok: Token)
        ensures
            tok == (Token { kind, len }),
    {
        Token { kind, len }
    }

    /// The token that marks the end of the text: it covers no byte.
    pub open spec fn spec_eof() -> Token {
        Token { kind: TokenKind::Eof, len: 0 }
    }

    /// Creates the token that marks the end of the text.
    #[verifier::when_used_as_spec(spec_eof)]
    pub fn eof() -> (tok: Token)
        ensures
            tok == Token::spec_eof(),
    {
        Token { kind: TokenKind::Eof, len: 0 }
    }
}

} // verus!

use solidity_lexer::cursor::Cursor;
use solidity_lexer::stream::tokenize;
use solidity_lexer::token::{Token, TokenKind};

const SAMPLES: [&str; 24] = [
    "",
    "a",
    " ",
    "contract C { function f() public pure returns (uint) { return 0x2A + 1.5e-3; } }",
    "/* unterminated /* nested */",
    "/** doc */ /// doc\n//// not\n/**/ /***/",
    "\"unterminated",
    "'a\\'b' \"a\\\\\" \"\\",
    "hex\"00ff\" hex'00' hex2 hex unicode\"\u{1F600}\" unicode'",
    "foo\"bar\" x'",
    "0 0x 0x__ 0x1A 01 0.5 0e1 1. 1.5 1.foo 1e 1e-3 1e+3 1__ 0x1.5e",
    "a+=b; c>>=d; e=>f; g==h; i!=j; k&&l; m||n;",
    "\0\r\u{b}\u{c}#@`\\",
    "é€\u{1F600}名前",
    "a\u{80}b\u{7ff}c\u{800}d\u{ffff}e\u{10000}f\u{10ffff}",
    "////",
    "/",
    "/*/",
    "1.",
    ".5",
    "\t\n \n\t",
    "\"",
    "unicode",
    "x\u{301}y",
];

#[test]
fn tokenize_covers_the_text_byte_for_byte() {
    for text in SAMPLES {
        let tokens = tokenize(text);
        let mut offset = 0;
        let mut rebuilt = Vec::new();
        for token in &tokens {
            assert!(token.len > 0);
            assert!(token.kind != TokenKind::Eof);
            assert!(text.is_char_boundary(offset));
            rebuilt.extend_from_slice(&text.as_bytes()[offset..offset + token.len]);
            offset += token.len;
        }
        assert_eq!(offset, text.len());
        assert_eq!(rebuilt, text.as_bytes());
    }
}

#[test]
fn tokenize_agrees_with_the_cursor() {
    for text in SAMPLES {
        let mut cursor = Cursor::new(text);
        let mut expected = Vec::new();
        while let Some(token) = cursor.next() {
            expected.push(token);
        }
        assert_eq!(tokenize(text), expected);
    }
}

#[test]
fn each_token_is_the_first_token_of_what_is_left() {
    for text in SAMPLES {
        let mut offset = 0;
        for token in tokenize(text) {
            let mut cursor = Cursor::new(&text[offset..]);
            assert_eq!(cursor.advance_token(), token);
            offset += token.len;
        }
    }
}

#[test]
fn tokenize_empty() {
    assert_eq!(tokenize(""), Vec::<Token>::new());
}

#[test]
fn tokenize_exact() {
    assert_eq!(
        tokenize("x = 1;"),
        vec![
            Token::new(TokenKind::Ident, 1),
            Token::new(TokenKind::Whitespace, 1),
            Token::new(TokenKind::Eq, 1),
            Token::new(TokenKind::Whitespace, 1),
            Token::new(
                TokenKind::Literal {
                    kind: solidity_lexer::token::LiteralKind::Int {
                        base: solidity_lexer::token::Base::Decimal,
                        empty_int: false,
                    },
                },
                1
            ),
            Token::new(TokenKind::Semi, 1),
        ]
    );
}

#[test]
fn tokenize_long_text() {
    let text = "uint256 constant x = 0xdead_beef; // note\n".repeat(2000);
    let tokens = tokenize(&text);
    assert_eq!(tokens.len(), 2000 * 13);
    assert_eq!(tokens.iter().map(|t| t.len).sum::<usize>(), text.len());
}

#[test]
fn deeply_nested_block_comment() {
    let depth = 10_000;
    let mut text = "/*".repeat(depth);
    text.push_str(&"*/".repeat(depth - 1));
    assert_eq!(
        tokenize(&text),
        vec![Token::new(
            TokenKind::BlockComment { is_doc: false, terminated: false },
            text.len()
        )]
    );
    text.push_str("*/");
    assert_eq!(
        tokenize(&text),
        vec![Token::new(
            TokenKind::BlockComment { is_doc: false, terminated: true },
            text.len()
        )]
    );
}

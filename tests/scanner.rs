use qlox::scanner::{Error, Scanner};
use qlox::src::Snippet;
use qlox::token::{Token, TokenKind};

fn new_token(kind: TokenKind, lexeme: &str, offset: usize) -> Token {
    Token {
        kind,
        lexeme: lexeme.to_string(),
        offset,
    }
}

fn number(value: f64, text: &str) -> TokenKind {
    assert_eq!(text.parse::<f64>().unwrap(), value);
    TokenKind::Number(text.to_string())
}

#[test]
fn scanner_scan_tokens() {
    let source = b" \t\r\n(){},.-+;//xxx\n/*xxx*// *!!== ==>>=<<='abc'\"def\"1230 456.789id and class else false for fun if nil or print return super this true var while";
    let tokens = Scanner::new(source).scan_tokens().unwrap();
    let expected = vec![
        new_token(TokenKind::LeftParen, "(", 4),
        new_token(TokenKind::RightParen, ")", 5),
        new_token(TokenKind::LeftBrace, "{", 6),
        new_token(TokenKind::RightBrace, "}", 7),
        new_token(TokenKind::Comma, ",", 8),
        new_token(TokenKind::Dot, ".", 9),
        new_token(TokenKind::Minus, "-", 10),
        new_token(TokenKind::Plus, "+", 11),
        new_token(TokenKind::Semicolon, ";", 12),
        new_token(TokenKind::Slash, "/", 26),
        new_token(TokenKind::Star, "*", 28),
        new_token(TokenKind::Bang, "!", 29),
        new_token(TokenKind::BangEqual, "!=", 30),
        new_token(TokenKind::Equal, "=", 32),
        new_token(TokenKind::EqualEqual, "==", 34),
        new_token(TokenKind::Greater, ">", 36),
        new_token(TokenKind::GreaterEqual, ">=", 37),
        new_token(TokenKind::Less, "<", 39),
        new_token(TokenKind::LessEqual, "<=", 40),
        new_token(TokenKind::String("abc".to_string()), "'abc'", 42),
        new_token(TokenKind::String("def".to_string()), "\"def\"", 47),
        new_token(number(1230_f64, "1230"), "1230", 52),
        new_token(number(456.789, "456.789"), "456.789", 57),
        new_token(TokenKind::Identifier("id".to_string()), "id", 64),
        new_token(TokenKind::And, "and", 67),
        new_token(TokenKind::Class, "class", 71),
        new_token(TokenKind::Else, "else", 77),
        new_token(TokenKind::False, "false", 82),
        new_token(TokenKind::For, "for", 88),
        new_token(TokenKind::Fun, "fun", 92),
        new_token(TokenKind::If, "if", 96),
        new_token(TokenKind::Nil, "nil", 99),
        new_token(TokenKind::Or, "or", 103),
        new_token(TokenKind::Print, "print", 106),
        new_token(TokenKind::Return, "return", 112),
        new_token(TokenKind::Super, "super", 119),
        new_token(TokenKind::This, "this", 125),
        new_token(TokenKind::True, "true", 130),
        new_token(TokenKind::Var, "var", 135),
        new_token(TokenKind::While, "while", 139),
        new_token(TokenKind::Eof, "", 144),
    ];

    assert_eq!(tokens.len(), expected.len());
    for i in 0..expected.len() {
        assert_eq!(tokens[i], expected[i]);
    }
}

#[test]
fn scanner_scan_tokens_error() {
    let source = b"  &";
    let errors = Scanner::new(source).scan_tokens().err().unwrap();
    assert_eq!(errors.len(), 1);
    assert_eq!(errors[0], Error::UnexpectedChar {
        snippet: Snippet::new(2),
        c: '&',
    });

    let mut source = "  'ab가cd'".to_string().into_bytes();
    source[7] += 100;
    let errors = Scanner::new(&source).scan_tokens().err().unwrap();
    assert_eq!(errors.len(), 1);
    assert_eq!(errors[0], Error::InvalidUtf8Char {
        snippet: Snippet::new(5),
    });

    let source = b"  /*a";
    let errors = Scanner::new(source).scan_tokens().err().unwrap();
    assert_eq!(errors.len(), 1);
    assert_eq!(errors[0], Error::UnterminatedMultiLineComment {
        snippet: Snippet::new(2),
    });

    let source = b"  'a";
    let errors = Scanner::new(source).scan_tokens().err().unwrap();
    assert_eq!(errors.len(), 1);
    assert_eq!(errors[0], Error::UnterminatedSingleQuoteString {
        snippet: Snippet::new(2),
    });

    let source = b"  \"a";
    let errors = Scanner::new(source).scan_tokens().err().unwrap();
    assert_eq!(errors.len(), 1);
    assert_eq!(errors[0], Error::UnterminatedDoubleQuoteString {
        snippet: Snippet::new(2),
    });
}

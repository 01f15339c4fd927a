use qlox::ast::{Binary, Expr, Grouping, Literal, Unary};
use qlox::loc::{SrcLoc, ResolveLoc};
use qlox::prompt::{prompt_action, PromptAction};
use qlox::src::{Location, Snippet};
use qlox::token::{keyword, Token, TokenKind};

fn op(kind: TokenKind, lexeme: &str) -> Token {
    Token { kind, lexeme: lexeme.to_string(), offset: 0 }
}

#[test]
fn token_kind_text() {
    assert_eq!(TokenKind::BangEqual.text(), "!=");
    assert_eq!(TokenKind::While.text(), "while");
    assert_eq!(TokenKind::String("a b".to_string()).text(), "a b");
    assert_eq!(TokenKind::Eof.text(), "\\d");
    assert_eq!(op(TokenKind::Star, "*").text(), "*");
}

#[test]
fn keyword_table() {
    assert_eq!(keyword(b"return"), Some(TokenKind::Return));
    assert_eq!(keyword(b"Return"), None);
    assert_eq!(keyword(b"retur"), None);
    assert_eq!(keyword(b"nil"), Some(TokenKind::Nil));
}

#[test]
fn expression_text() {
    let e = Expr::Binary(Binary {
        left: Box::new(Expr::Unary(Unary {
            operator: op(TokenKind::Minus, "-"),
            right: Box::new(Expr::Literal(Literal::Number("123".to_string()))),
        })),
        operator: op(TokenKind::Star, "*"),
        right: Box::new(Expr::Grouping(Grouping {
            expr: Box::new(Expr::Literal(Literal::Nil)),
        })),
    });
    assert_eq!(e.text(), "(* (- 123) (group nil))");
}

#[test]
fn location_text() {
    let source = b"ab\ncd";
    let mut loc = Location::new(4);
    assert_eq!(loc.text(), "byte 5");
    loc.resolve(source);
    assert_eq!(loc.text(), "line 2:2");
}

#[test]
fn snippet_text() {
    let mut s = Snippet::new(0);
    assert_eq!(s.text(), "");
    s.resolve(b"xy");
    assert!(s.text().starts_with("1 | xy\n    "));
}

#[test]
fn src_loc_half_open_line() {
    let source = b"Alice\nBob\r\nEric";
    let mut locs = vec![SrcLoc::Created { offset: 7 }, SrcLoc::Created { offset: 0 }];
    locs.resolve_loc(source);
    match &locs[0] {
        SrcLoc::Resolved { offset, line } => {
            assert_eq!((offset.line, offset.column), (1, 1));
            assert_eq!(line.clone(), 6..9);
        },
        _ => panic!("not resolved"),
    }
    match &locs[1] {
        SrcLoc::Resolved { offset, line } => {
            assert_eq!((offset.line, offset.column), (0, 0));
            assert_eq!(line.clone(), 0..5);
        },
        _ => panic!("not resolved"),
    }
}

#[test]
fn prompt_commands() {
    assert_eq!(prompt_action("version\n"), PromptAction::Version);
    assert_eq!(prompt_action("  clear "), PromptAction::Clear);
    assert_eq!(prompt_action("exit\r\n"), PromptAction::Exit);
    assert_eq!(prompt_action("exit now\n"), PromptAction::Run);
    assert_eq!(prompt_action("print 1;\n"), PromptAction::Run);
}

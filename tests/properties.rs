use qlox::scanner::{scan, Error, Scanner};
use qlox::src::{Location, Position, Snippet, SnippetResolver};
use qlox::token::TokenKind;
use qlox::{Args, Lox};

#[test]
fn punctuation_scenario() {
    let tokens = scan(b"(){},.-+;").unwrap();
    let kinds = [
        TokenKind::LeftParen,
        TokenKind::RightParen,
        TokenKind::LeftBrace,
        TokenKind::RightBrace,
        TokenKind::Comma,
        TokenKind::Dot,
        TokenKind::Minus,
        TokenKind::Plus,
        TokenKind::Semicolon,
    ];
    assert_eq!(tokens.len(), 10);
    for i in 0..9 {
        assert_eq!(tokens[i].kind, kinds[i]);
        assert_eq!(tokens[i].offset, i);
    }
    assert_eq!(tokens[9].kind, TokenKind::Eof);
    assert_eq!(tokens[9].offset, 9);
    assert_eq!(tokens[9].lexeme, "");
}

#[test]
fn unexpected_char_scenario() {
    let errors = scan(b"  &").err().unwrap();
    assert_eq!(errors, vec![Error::UnexpectedChar { snippet: Snippet::new(2), c: '&' }]);
}

#[test]
fn unterminated_comment_scenario() {
    let errors = scan(b"  /*a").err().unwrap();
    assert_eq!(errors, vec![Error::UnterminatedMultiLineComment { snippet: Snippet::new(2) }]);
}

#[test]
fn number_scenario() {
    let tokens = scan(b"1230 456.789").unwrap();
    assert_eq!(tokens.len(), 3);
    assert_eq!(tokens[0].kind, TokenKind::Number("1230".to_string()));
    assert_eq!(tokens[0].lexeme, "1230");
    assert_eq!(tokens[1].kind, TokenKind::Number("456.789".to_string()));
    assert_eq!(tokens[1].lexeme, "456.789");
    assert_eq!(tokens[0].lexeme.parse::<f64>().unwrap(), 1230.0);
    assert_eq!(tokens[1].lexeme.parse::<f64>().unwrap(), 456.789);
}

#[test]
fn trailing_dot_is_its_own_token() {
    let tokens = scan(b"12.").unwrap();
    assert_eq!(tokens[0].kind, TokenKind::Number("12".to_string()));
    assert_eq!(tokens[1].kind, TokenKind::Dot);
    assert_eq!(tokens[1].offset, 2);
}

#[test]
fn keyword_after_maximal_munch_scenario() {
    let tokens = scan(b"id and andy").unwrap();
    assert_eq!(tokens[0].kind, TokenKind::Identifier("id".to_string()));
    assert_eq!(tokens[1].kind, TokenKind::And);
    assert_eq!(tokens[2].kind, TokenKind::Identifier("andy".to_string()));
    assert_eq!(tokens[3].kind, TokenKind::Eof);
}

#[test]
fn empty_buffer_gives_end_marker() {
    let tokens = scan(b"").unwrap();
    assert_eq!(tokens.len(), 1);
    assert_eq!(tokens[0].kind, TokenKind::Eof);
    assert_eq!(tokens[0].offset, 0);
}

#[test]
fn end_marker_after_comment() {
    let source = b"x // note";
    let tokens = scan(source).unwrap();
    assert_eq!(tokens.len(), 2);
    assert_eq!(tokens[1].kind, TokenKind::Eof);
    assert_eq!(tokens[1].offset, source.len());
}

#[test]
fn errors_come_in_source_order() {
    let errors = scan(b"a & 'ok' # \"open").err().unwrap();
    assert_eq!(
        errors,
        vec![
            Error::UnexpectedChar { snippet: Snippet::new(2), c: '&' },
            Error::UnexpectedChar { snippet: Snippet::new(9), c: '#' },
            Error::UnterminatedDoubleQuoteString { snippet: Snippet::new(11) },
        ]
    );
}

#[test]
fn lexemes_round_trip_to_source_bytes() {
    let source = "x = 'h\u{e9}llo' >= 10.5;".as_bytes();
    let tokens = scan(source).unwrap();
    for t in &tokens[..tokens.len() - 1] {
        let n = t.lexeme.len();
        assert_eq!(&source[t.offset..t.offset + n], t.lexeme.as_bytes());
    }
    assert_eq!(tokens[2].kind, TokenKind::String("h\u{e9}llo".to_string()));
    assert_eq!(tokens[2].lexeme, "'h\u{e9}llo'");
}

#[test]
fn scanning_twice_from_a_fresh_scanner_agrees() {
    let source = b"var x = 1;";
    let first = Scanner::new(source).scan_tokens();
    let second = Scanner::new(source).scan_tokens();
    assert_eq!(first, second);
}

#[test]
fn snippet_resolution_is_idempotent() {
    let source = b"x &y";
    let mut s = Snippet::new(2);
    s.resolve(source);
    let once = s.code.clone();
    assert!(once.is_some());
    s.resolve(source);
    assert_eq!(s.code, once);
    let text = once.unwrap();
    assert!(text.starts_with("1 | x &y\n      "));
    assert!(text.contains('^'));
}

#[test]
fn snippet_on_later_line() {
    let source = b"a\r\nbb\n  &";
    let mut s = Snippet::new(9);
    s.resolve(source);
    let text = s.code.unwrap();
    assert!(text.starts_with("3 |   &\n      "));
    assert!(text.ends_with('^') || text.contains('^'));
}

#[test]
fn location_before_resolution_has_no_snippet() {
    let loc = Location::new(3);
    assert_eq!(loc.snippet(b"abcdef"), None);
}

#[test]
fn location_with_bare_carriage_return() {
    let source = b"ab\rcd";
    let mut loc = Location::new(1);
    loc.resolve(source);
    assert_eq!(loc, Location::Resolved { pos: Position { line: 0, column: 1 }, line: 0..=1 });
    let mut loc = Location::new(4);
    loc.resolve(source);
    assert_eq!(loc, Location::Resolved { pos: Position { line: 0, column: 4 }, line: 0..=4 });
}

#[test]
fn resolver_resolves_every_error() {
    let source = b"& #";
    let errors = scan(source).err().unwrap();
    let resolved = SnippetResolver::new(source).resolve(errors);
    assert_eq!(resolved.len(), 2);
    for e in &resolved {
        let m = e.message();
        assert!(m.contains("unexpected char `"));
        assert!(m.contains("1 | & #"));
    }
}

#[test]
fn error_messages() {
    let e = Error::InvalidUtf8Char { snippet: Snippet::new(0) };
    assert!(e.message().ends_with(": invalid utf-8 char\n\n\n"));
    let e = Error::UnterminatedSingleQuoteString { snippet: Snippet::new(0) };
    assert!(e.message().ends_with(": unterminated single quote string\n\n\n"));
}

#[test]
fn run_maps_errors_to_exit_code() {
    let lox = Lox::new(Args { filename: None });
    assert!(lox.run(b"print 1;").is_ok());
    let e = lox.run(b"@").err().unwrap();
    assert_eq!(e.exit_code(), 50);
    assert!(e.message().contains("unexpected char `@`"));
    assert_eq!(Lox::name(), "qlox");
}

#[test]
fn decimal_and_render() {
    assert_eq!(qlox::src::decimal_string(0), "0");
    assert_eq!(qlox::src::decimal_string(1207), "1207");
    assert_eq!(qlox::src::render_snippet(12, "ab", 1, "^"), "12 | ab\n      ^");
}

#[test]
fn unterminated_comment_runs_to_end_of_buffer() {
    let errors = scan(b"/*&").err().unwrap();
    assert_eq!(errors, vec![Error::UnterminatedMultiLineComment { snippet: Snippet::new(0) }]);
    let errors = scan(b"x /* & #").err().unwrap();
    assert_eq!(errors, vec![Error::UnterminatedMultiLineComment { snippet: Snippet::new(2) }]);
}

#[test]
fn string_lexeme_keeps_its_quotes() {
    let tokens = scan(b"\"a'b\" 'c\"d'").unwrap();
    assert_eq!(tokens[0].lexeme, "\"a'b\"");
    assert_eq!(tokens[0].kind, TokenKind::String("a'b".to_string()));
    assert_eq!(tokens[1].lexeme, "'c\"d'");
    assert_eq!(tokens[1].kind, TokenKind::String("c\"d".to_string()));
}

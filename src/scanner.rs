//! The scanner: one left-to-right pass over a byte buffer that yields either
//! the complete token sequence or every lexical error found.
use vstd::prelude::*;
use vstd::utf8::*;
use crate::consts::tag::ERROR;
use crate::src::{push_char, resolvable, resolved_snippet, ResolveSnippet, Snippet};
use crate::token::{keyword, spec_keyword, Token, TokenKind};
use crate::utils::string::{
    lemma_ascii_valid,
    lemma_valid_up_to_invalid,
    lemma_valid_up_to_unique,
    substring,
    valid_up_to,
    SubstringError,
};

verus! {

broadcast use vstd::seq::group_seq_axioms;

/// A lexical error, anchored at the byte where it was detected.
#[derive(Debug, PartialEq)]
pub enum Error {
    UnexpectedChar { snippet: Snippet, c: char },
    InvalidUtf8Char { snippet: Snippet },
    UnterminatedMultiLineComment { snippet: Snippet },
    UnterminatedSingleQuoteString { snippet: Snippet },
    UnterminatedDoubleQuoteString { snippet: Snippet },
}

impl Error {
    /// The locator the error carries.
    pub open spec fn locator(self) -> Snippet {
        match self {
            Error::UnexpectedChar { snippet, .. } => snippet,
            Error::InvalidUtf8Char { snippet } => snippet,
            Error::UnterminatedMultiLineComment { snippet } => snippet,
            Error::UnterminatedSingleQuoteString { snippet } => snippet,
            Error::UnterminatedDoubleQuoteString { snippet } => snippet,
        }
    }

    /// The error with its locator replaced by `s`.
    pub open spec fn with_locator(self, s: Snippet) -> Error {
        match self {
            Error::UnexpectedChar { c, .. } => Error::UnexpectedChar { snippet: s, c },
            Error::InvalidUtf8Char { .. } => Error::InvalidUtf8Char { snippet: s },
            Error::UnterminatedMultiLineComment { .. } => Error::UnterminatedMultiLineComment {
                snippet: s,
            },
            Error::UnterminatedSingleQuoteString { .. } => Error::UnterminatedSingleQuoteString {
                snippet: s,
            },
            Error::UnterminatedDoubleQuoteString { .. } => Error::UnterminatedDoubleQuoteString {
                snippet: s,
            },
        }
    }

    /// The byte offset the error is anchored at.
    pub open spec fn offset(self) -> int {
        self.locator().offset as int
    }
}

/// The text of a locator: its snippet once resolved, else nothing.
pub open spec fn snippet_code(s: Snippet) -> Seq<char> {
    match s.code {
        Some(code) => code@,
        None => Seq::empty(),
    }
}

impl Error {
    /// What went wrong, in words.
    pub open spec fn headline(self) -> Seq<char> {
        match self {
            Error::UnexpectedChar { c, .. } => "unexpected char `"@ + seq![c] + "`"@,
            Error::InvalidUtf8Char { .. } => "invalid utf-8 char"@,
            Error::UnterminatedMultiLineComment { .. } => "unterminated multi-line comment"@,
            Error::UnterminatedSingleQuoteString { .. } => "unterminated single quote string"@,
            Error::UnterminatedDoubleQuoteString { .. } => "unterminated double quote string"@,
        }
    }

    /// The message: the tag and the headline, a blank line, the snippet.
    pub open spec fn message_text(self) -> Seq<char> {
        ERROR@ + ": "@ + self.headline() + "\n\n"@ + snippet_code(self.locator()) + "\n"@
    }

    /// The message shown for this error.
    pub fn message(&self) -> (r: String)
        ensures
            r@ == self.message_text(),
    {
        let mut s = String::new();
        s.append(ERROR);
        s.append(": ");
        let snippet = match self {
            Error::UnexpectedChar { snippet, c } => {
                s.append("unexpected char `");
                push_char(&mut s, *c);
                s.append("`");
                snippet
            },
            Error::InvalidUtf8Char { snippet } => {
                s.append("invalid utf-8 char");
                snippet
            },
            Error::UnterminatedMultiLineComment { snippet } => {
                s.append("unterminated multi-line comment");
                snippet
            },
            Error::UnterminatedSingleQuoteString { snippet } => {
                s.append("unterminated single quote string");
                snippet
            },
            Error::UnterminatedDoubleQuoteString { snippet } => {
                s.append("unterminated double quote string");
                snippet
            },
        };
        s.append("\n\n");
        match &snippet.code {
            Some(code) => s.append(code.as_str()),
            None => {},
        }
        s.append("\n");
        assert(s@ =~= self.message_text());
        s
    }
}

impl ResolveSnippet for Error {
    open spec fn resolvable_in(&self, source: Seq<u8>) -> bool {
        self.locator().code is None ==> resolvable(source, self.offset())
    }

    open spec fn resolved_into(&self, after: Self, source: Seq<u8>) -> bool {
        &&& after == self.with_locator(after.locator())
        &&& resolved_snippet(self.locator(), after.locator(), source)
    }

    fn resolve_snippet(&mut self, source: &[u8]) {
        match self {
            Error::UnexpectedChar { snippet, .. } => snippet.resolve(source),
            Error::InvalidUtf8Char { snippet } => snippet.resolve(source),
            Error::UnterminatedMultiLineComment { snippet } => snippet.resolve(source),
            Error::UnterminatedSingleQuoteString { snippet } => snippet.resolve(source),
            Error::UnterminatedDoubleQuoteString { snippet } => snippet.resolve(source),
        }
    }
}

/// The unresolved locator at `offset`.
pub open spec fn at(offset: int) -> Snippet {
    Snippet { offset: offset as usize, code: None }
}

/// The error for a byte range that is not valid UTF-8: it is anchored at the
/// first invalid byte.
fn invalid_utf8(error: SubstringError) -> (r: Error)
    requires
        error.range.start + error.valid_up_to <= usize::MAX,
    ensures
        r == (Error::InvalidUtf8Char { snippet: at(error.range.start + error.valid_up_to) }),
{
    Error::InvalidUtf8Char { snippet: Snippet::new(error.range.start + error.valid_up_to) }
}

pub open spec fn is_space(c: u8) -> bool {
    c == ' ' as u8 || c == '\t' as u8 || c == '\r' as u8 || c == '\n' as u8
}

pub open spec fn is_digit(c: u8) -> bool {
    '0' as u8 <= c <= '9' as u8
}

pub open spec fn is_alpha(c: u8) -> bool {
    ('a' as u8 <= c <= 'z' as u8) || ('A' as u8 <= c <= 'Z' as u8)
}

/// A byte that may continue an identifier.
pub open spec fn is_word(c: u8) -> bool {
    is_alpha(c) || is_digit(c) || c == '_' as u8
}

/// The first index at or after `k` that holds `b`, or the end of `src`.
pub open spec fn find_byte(src: Seq<u8>, k: int, b: u8) -> int
    decreases src.len() - k,
{
    if k >= src.len() {
        src.len() as int
    } else if src[k] == b {
        k
    } else {
        find_byte(src, k + 1, b)
    }
}

/// The end of the run of digits that starts at `k`.
pub open spec fn digits_end(src: Seq<u8>, k: int) -> int
    decreases src.len() - k,
{
    if k >= src.len() {
        src.len() as int
    } else if !is_digit(src[k]) {
        k
    } else {
        digits_end(src, k + 1)
    }
}

/// The end of the run of identifier bytes that starts at `k`.
pub open spec fn word_end(src: Seq<u8>, k: int) -> int
    decreases src.len() - k,
{
    if k >= src.len() {
        src.len() as int
    } else if !is_word(src[k]) {
        k
    } else {
        word_end(src, k + 1)
    }
}

/// The index of the `*` of the first `*/` at or after `k`; where there is
/// none, an index from `k` on that has no byte after it (the comment then
/// runs to the end of the buffer).
pub open spec fn comment_close(src: Seq<u8>, k: int) -> int
    decreases src.len() - k,
{
    if k + 1 >= src.len() {
        k
    } else if src[k] == '*' as u8 && src[k + 1] == '/' as u8 {
        k
    } else {
        comment_close(src, k + 1)
    }
}

/// The end of a number literal whose first digit is just before `k`: a run of
/// digits, then a fraction only where a `.` is followed by a digit.
pub open spec fn number_end(src: Seq<u8>, k: int) -> int {
    let m = digits_end(src, k);
    if m + 1 < src.len() && src[m] == '.' as u8 && is_digit(src[m + 1]) {
        digits_end(src, m + 2)
    } else {
        m
    }
}

/// How the text of a recognised token determines its kind.
pub enum Shape {
    /// Punctuation or an operator of the given kind.
    Fixed(TokenKind),
    /// A string literal: its value is the text between the quotes.
    Text,
    /// A number literal.
    Num,
    /// An identifier or a keyword.
    Word,
}

/// A recognised token: the byte range `[start, end)` it was matched on.
pub struct Lexeme {
    pub start: int,
    pub end: int,
    pub shape: Shape,
}

/// What one step of the scan yields.
pub enum Outcome {
    /// Whitespace or a comment.
    Nothing,
    Found(Lexeme),
    Failure(Error),
}

pub open spec fn fixed(kind: TokenKind, start: int, end: int) -> (Outcome, int) {
    (Outcome::Found(Lexeme { start, end, shape: Shape::Fixed(kind) }), end)
}

/// The operator `one` at `p`, or `two` where the byte after `p` is `=`.
pub open spec fn with_equal(src: Seq<u8>, p: int, one: TokenKind, two: TokenKind) -> (Outcome, int) {
    if p + 1 < src.len() && src[p + 1] == '=' as u8 {
        fixed(two, p, p + 2)
    } else {
        fixed(one, p, p + 1)
    }
}

/// One step of the scan at `p`: what it yields, and where the next step starts.
pub open spec fn step(src: Seq<u8>, p: int) -> (Outcome, int) {
    let c = src[p];
    let q = p + 1;
    let n = src.len() as int;
    if is_space(c) {
        (Outcome::Nothing, q)
    } else if c == '(' as u8 {
        fixed(TokenKind::LeftParen, p, q)
    } else if c == ')' as u8 {
        fixed(TokenKind::RightParen, p, q)
    } else if c == '{' as u8 {
        fixed(TokenKind::LeftBrace, p, q)
    } else if c == '}' as u8 {
        fixed(TokenKind::RightBrace, p, q)
    } else if c == ',' as u8 {
        fixed(TokenKind::Comma, p, q)
    } else if c == '.' as u8 {
        fixed(TokenKind::Dot, p, q)
    } else if c == '-' as u8 {
        fixed(TokenKind::Minus, p, q)
    } else if c == '+' as u8 {
        fixed(TokenKind::Plus, p, q)
    } else if c == ';' as u8 {
        fixed(TokenKind::Semicolon, p, q)
    } else if c == '/' as u8 {
        if q < n && src[q] == '/' as u8 {
            (Outcome::Nothing, find_byte(src, q + 1, '\n' as u8))
        } else if q < n && src[q] == '*' as u8 {
            let m = comment_close(src, q + 1);
            if m + 1 >= n {
                (Outcome::Failure(Error::UnterminatedMultiLineComment { snippet: at(p) }), n)
            } else {
                (Outcome::Nothing, m + 2)
            }
        } else {
            fixed(TokenKind::Slash, p, q)
        }
    } else if c == '*' as u8 {
        fixed(TokenKind::Star, p, q)
    } else if c == '!' as u8 {
        with_equal(src, p, TokenKind::Bang, TokenKind::BangEqual)
    } else if c == '=' as u8 {
        with_equal(src, p, TokenKind::Equal, TokenKind::EqualEqual)
    } else if c == '>' as u8 {
        with_equal(src, p, TokenKind::Greater, TokenKind::GreaterEqual)
    } else if c == '<' as u8 {
        with_equal(src, p, TokenKind::Less, TokenKind::LessEqual)
    } else if c == '\'' as u8 || c == '"' as u8 {
        let m = find_byte(src, q, c);
        if m >= n {
            if c == '\'' as u8 {
                (Outcome::Failure(Error::UnterminatedSingleQuoteString { snippet: at(p) }), n)
            } else {
                (Outcome::Failure(Error::UnterminatedDoubleQuoteString { snippet: at(p) }), n)
            }
        } else if valid_utf8(src.subrange(q, m)) {
            (Outcome::Found(Lexeme { start: p, end: m + 1, shape: Shape::Text }), m + 1)
        } else {
            (
                Outcome::Failure(
                    Error::InvalidUtf8Char { snippet: at(q + valid_up_to(src.subrange(q, m))) },
                ),
                m + 1,
            )
        }
    } else if is_digit(c) {
        let e = number_end(src, q);
        (Outcome::Found(Lexeme { start: p, end: e, shape: Shape::Num }), e)
    } else if is_alpha(c) || c == '_' as u8 {
        let e = word_end(src, q);
        (Outcome::Found(Lexeme { start: p, end: e, shape: Shape::Word }), e)
    } else {
        (Outcome::Failure(Error::UnexpectedChar { snippet: at(p), c: c as char }), q)
    }
}

/// The tokens and the errors of the scan from `p` to the end of `src`, in
/// source order.
pub open spec fn scan_from(src: Seq<u8>, p: int) -> (Seq<Lexeme>, Seq<Error>)
    decreases src.len() - p,
{
    if p < 0 || p >= src.len() {
        (seq![], seq![])
    } else {
        let (o, e) = step(src, p);
        if e <= p || e > src.len() {
            (seq![], seq![])
        } else {
            let rest = scan_from(src, e);
            match o {
                Outcome::Nothing => rest,
                Outcome::Found(l) => (seq![l] + rest.0, rest.1),
                Outcome::Failure(x) => (rest.0, seq![x] + rest.1),
            }
        }
    }
}

/// `kind` is what the text `src[l.start .. l.end]` of a lexeme stands for.
pub open spec fn kind_of(kind: TokenKind, l: Lexeme, src: Seq<u8>) -> bool {
    let text = src.subrange(l.start, l.end);
    match l.shape {
        Shape::Fixed(k) => kind == k,
        Shape::Text => match kind {
            TokenKind::String(s) => {
                &&& l.start + 2 <= l.end
                &&& (src[l.start] == '\'' as u8 || src[l.start] == '"' as u8)
                &&& src[l.end - 1] == src[l.start]
                &&& valid_utf8(src.subrange(l.start + 1, l.end - 1))
                &&& s@ == decode_utf8(src.subrange(l.start + 1, l.end - 1))
            },
            _ => false,
        },
        Shape::Num => match kind {
            TokenKind::Number(s) => s@ == decode_utf8(text),
            _ => false,
        },
        Shape::Word => match spec_keyword(text) {
            Some(k) => kind == k,
            None => match kind {
                TokenKind::Identifier(s) => s@ == decode_utf8(text),
                _ => false,
            },
        },
    }
}

/// `t` is the token made of lexeme `l`: its offset, its text decoded from the
/// matched bytes, and its kind.
pub open spec fn token_is(t: Token, l: Lexeme, src: Seq<u8>) -> bool {
    let text = src.subrange(l.start, l.end);
    &&& 0 <= l.start < l.end <= src.len()
    &&& t.offset == l.start
    &&& valid_utf8(text)
    &&& t.lexeme@ == decode_utf8(text)
    &&& kind_of(t.kind, l, src)
    &&& !(t.kind is Eof)
    &&& (t.kind is String <==> l.shape is Text)
}

/// `t` is the end marker for a buffer of `len` bytes.
pub open spec fn is_eof(t: Token, len: int) -> bool {
    t.kind is Eof && t.lexeme@ == Seq::<char>::empty() && t.offset == len
}

/// `r` is the result of scanning `src` from byte `p` on: all the tokens,
/// closed by the end marker, where no error was found; otherwise every error,
/// in source order, and no token.
pub open spec fn scanned(src: Seq<u8>, p: int, r: Result<Vec<Token>, Vec<Error>>) -> bool {
    let (lexemes, errors) = scan_from(src, p);
    match r {
        Ok(tokens) => {
            &&& errors.len() == 0
            &&& tokens@.len() == lexemes.len() + 1
            &&& forall|i: int| 0 <= i < lexemes.len() ==> token_is(#[trigger] tokens@[i], lexemes[i], src)
            &&& is_eof(tokens@.last(), src.len() as int)
        },
        Err(es) => errors.len() > 0 && es@ == errors,
    }
}

/// The text of a string literal, quotes included, is valid UTF-8 where the
/// text between the quotes is.
proof fn lemma_quoted_valid(src: Seq<u8>, p: int, m: int)
    requires
        0 <= p < m < src.len(),
        src[p] < 0x80,
        src[m] < 0x80,
        valid_utf8(src.subrange(p + 1, m)),
    ensures
        valid_utf8(src.subrange(p, m + 1)),
{
    let open = src.subrange(p, p + 1);
    let close = src.subrange(m, m + 1);
    lemma_ascii_valid(open);
    lemma_ascii_valid(close);
    valid_utf8_concat(open, src.subrange(p + 1, m));
    valid_utf8_concat(open + src.subrange(p + 1, m), close);
    assert(open + src.subrange(p + 1, m) + close =~= src.subrange(p, m + 1));
}

/// A cursor over a byte buffer that splits it into tokens.
pub struct Scanner<'a> {
    source: &'a [u8],
    next: usize,
    token_start: usize,
}

impl<'a> Scanner<'a> {
    /// The buffer being scanned.
    pub closed spec fn bytes(&self) -> Seq<u8> {
        self.source@
    }

    /// The index of the next byte to read.
    pub closed spec fn cursor(&self) -> int {
        self.next as int
    }

    /// The index of the first byte of the token being matched.
    pub closed spec fn token_start_at(&self) -> int {
        self.token_start as int
    }

    /// A scanner at the start of `source`.
    pub fn new(source: &'a [u8]) -> (r: Self)
        ensures
            r.bytes() == source@,
            r.cursor() == 0,
            r.token_start_at() == 0,
    {
        Scanner { source, next: 0, token_start: 0 }
    }

    /// Scans from the cursor to the end of the buffer: the tokens closed by
    /// the end marker where no error was found, otherwise every error.
    pub fn scan_tokens(&mut self) -> (r: Result<Vec<Token>, Vec<Error>>)
        requires
            old(self).cursor() <= old(self).bytes().len(),
        ensures
            final(self).bytes() == old(self).bytes(),
            scanned(old(self).bytes(), old(self).cursor(), r),
    {
        let mut tokens: Vec<Token> = Vec::new();
        let mut errors: Vec<Error> = Vec::new();
        let ghost src = self.source@;
        let ghost start = self.next as int;
        let ghost mut lexemes: Seq<Lexeme> = seq![];
        while self.next < self.source.len()
            invariant
                self.source@ == src,
                start <= self.next <= src.len(),
                lexemes + scan_from(src, self.next as int).0 == scan_from(src, start).0,
                errors@ + scan_from(src, self.next as int).1 == scan_from(src, start).1,
                tokens@.len() == lexemes.len(),
                forall|i: int| 0 <= i < lexemes.len() ==> token_is(#[trigger] tokens@[i], lexemes[i], src),
            decreases src.len() - self.next,
        {
            let ghost p = self.next as int;
            let c = self.source[self.next];
            self.token_start = self.next;
            self.next = self.next + 1;
            let r = self.scan_token(c);
            let ghost rest = scan_from(src, self.next as int);
            assert(scan_from(src, p) == match step(src, p).0 {
                Outcome::Nothing => rest,
                Outcome::Found(l) => (seq![l] + rest.0, rest.1),
                Outcome::Failure(x) => (rest.0, seq![x] + rest.1),
            });
            match r {
                Ok(Some(kind)) => {
                    let ghost l = step(src, p).0->Found_0;
                    match substring(self.source, self.token_start..self.next) {
                        Ok(lexeme) => {
                            tokens.push(Token { kind, lexeme, offset: self.token_start });
                            proof {
                                assert(token_is(tokens@[lexemes.len() as int], l, src));
                                lexemes = lexemes.push(l);
                                assert(lexemes + rest.0 =~= lexemes.drop_last() + (seq![l] + rest.0));
                            }
                        },
                        Err(e) => {
                            errors.push(invalid_utf8(e));
                        },
                    }
                },
                Ok(None) => {},
                Err(e) => {
                    errors.push(e);
                    proof {
                        assert(errors@ + rest.1 =~= errors@.drop_last() + (seq![e] + rest.1));
                    }
                },
            }
        }
        assert(lexemes =~= lexemes + scan_from(src, self.next as int).0);
        assert(errors@ =~= errors@ + scan_from(src, self.next as int).1);
        if errors.len() > 0 {
            return Err(errors);
        }
        tokens.push(Token { kind: TokenKind::Eof, lexeme: String::new(), offset: self.next });
        Ok(tokens)
    }

    /// One step of the scan, its first byte `c` already read.
    fn scan_token(&mut self, c: u8) -> (r: Result<Option<TokenKind>, Error>)
        requires
            old(self).token_start < old(self).source@.len(),
            old(self).next == old(self).token_start + 1,
            c == old(self).source@[old(self).token_start as int],
        ensures
            final(self).source == old(self).source,
            final(self).token_start == old(self).token_start,
            ({
                let src = old(self).source@;
                let p = old(self).token_start as int;
                let n = final(self).next as int;
                &&& step(src, p).1 == n
                &&& p < n <= src.len()
                &&& match step(src, p).0 {
                    Outcome::Nothing => r == Ok::<Option<TokenKind>, Error>(None),
                    Outcome::Found(l) => {
                        &&& l.start == p
                        &&& l.end == n
                        &&& valid_utf8(src.subrange(p, n))
                        &&& match r {
                            Ok(Some(k)) => kind_of(k, l, src) && !(k is Eof),
                            _ => false,
                        }
                    },
                    Outcome::Failure(x) => r == Err::<Option<TokenKind>, Error>(x),
                }
            }),
    {
        let ghost src = self.source@;
        let ghost p = self.token_start as int;
        let r = if c == ' ' as u8 || c == '\t' as u8 || c == '\r' as u8 || c == '\n' as u8 {
            Ok(None)
        } else if c == '(' as u8 {
            Ok(Some(TokenKind::LeftParen))
        } else if c == ')' as u8 {
            Ok(Some(TokenKind::RightParen))
        } else if c == '{' as u8 {
            Ok(Some(TokenKind::LeftBrace))
        } else if c == '}' as u8 {
            Ok(Some(TokenKind::RightBrace))
        } else if c == ',' as u8 {
            Ok(Some(TokenKind::Comma))
        } else if c == '.' as u8 {
            Ok(Some(TokenKind::Dot))
        } else if c == '-' as u8 {
            Ok(Some(TokenKind::Minus))
        } else if c == '+' as u8 {
            Ok(Some(TokenKind::Plus))
        } else if c == ';' as u8 {
            Ok(Some(TokenKind::Semicolon))
        } else if c == '/' as u8 {
            if self.matches('/' as u8) {
                self.scan_single_line_comment();
                Ok(None)
            } else if self.matches('*' as u8) {
                match self.scan_multi_line_comment() {
                    Ok(()) => Ok(None),
                    Err(e) => Err(e),
                }
            } else {
                Ok(Some(TokenKind::Slash))
            }
        } else if c == '*' as u8 {
            Ok(Some(TokenKind::Star))
        } else if c == '!' as u8 {
            Ok(Some(if self.matches('=' as u8) { TokenKind::BangEqual } else { TokenKind::Bang }))
        } else if c == '=' as u8 {
            Ok(Some(if self.matches('=' as u8) { TokenKind::EqualEqual } else { TokenKind::Equal }))
        } else if c == '>' as u8 {
            Ok(
                Some(
                    if self.matches('=' as u8) {
                        TokenKind::GreaterEqual
                    } else {
                        TokenKind::Greater
                    },
                ),
            )
        } else if c == '<' as u8 {
            Ok(Some(if self.matches('=' as u8) { TokenKind::LessEqual } else { TokenKind::Less }))
        } else if c == '\'' as u8 || c == '"' as u8 {
            match self.scan_string(c) {
                Ok(k) => Ok(Some(k)),
                Err(e) => Err(e),
            }
        } else if '0' as u8 <= c && c <= '9' as u8 {
            match self.scan_number() {
                Ok(k) => Ok(Some(k)),
                Err(e) => Err(e),
            }
        } else if ('a' as u8 <= c && c <= 'z' as u8) || ('A' as u8 <= c && c <= 'Z' as u8) || c
            == '_' as u8 {
            match self.scan_identifier() {
                Ok(k) => Ok(Some(k)),
                Err(e) => Err(e),
            }
        } else {
            Err(Error::UnexpectedChar { snippet: Snippet::new(self.token_start), c: c as char })
        };
        proof {
            if step(src, p).0 is Found && step(src, p).0->Found_0.shape is Fixed {
                let t = src.subrange(p, self.next as int);
                assert forall|i: int| 0 <= i < t.len() implies #[trigger] t[i] < 0x80 by {}
                lemma_ascii_valid(t);
            }
        }
        r
    }

    /// Consumes a line comment up to, not including, the next line feed.
    fn scan_single_line_comment(&mut self)
        requires
            old(self).next <= old(self).source@.len(),
        ensures
            final(self).source == old(self).source,
            final(self).token_start == old(self).token_start,
            final(self).next == find_byte(old(self).source@, old(self).next as int, '\n' as u8),
            old(self).next <= final(self).next <= old(self).source@.len(),
    {
        let ghost k = self.next as int;
        while self.next < self.source.len() && self.source[self.next] != '\n' as u8
            invariant
                self.source == old(self).source,
                self.token_start == old(self).token_start,
                k <= self.next <= self.source@.len(),
                find_byte(self.source@, self.next as int, '\n' as u8) == find_byte(
                    self.source@,
                    k,
                    '\n' as u8,
                ),
            decreases self.source@.len() - self.next,
        {
            self.next = self.next + 1;
        }
    }

    /// Consumes a block comment after its opening `/*`; where no `*/` closes
    /// it, consumes the rest of the buffer and fails.
    fn scan_multi_line_comment(&mut self) -> (r: Result<(), Error>)
        requires
            old(self).next <= old(self).source@.len(),
        ensures
            final(self).source == old(self).source,
            final(self).token_start == old(self).token_start,
            old(self).next <= final(self).next <= old(self).source@.len(),
            ({
                let m = comment_close(old(self).source@, old(self).next as int);
                if m + 1 >= old(self).source@.len() {
                    &&& r == Err::<(), Error>(
                        Error::UnterminatedMultiLineComment { snippet: at(old(self).token_start as int) },
                    )
                    &&& final(self).next == old(self).source@.len()
                } else {
                    r is Ok && final(self).next == m + 2
                }
            }),
    {
        let ghost k = self.next as int;
        while self.next < self.source.len() && self.next + 1 < self.source.len() && !(self.source[self.next] == '*' as u8
            && self.source[self.next + 1] == '/' as u8)
            invariant
                self.source == old(self).source,
                self.token_start == old(self).token_start,
                k <= self.next <= self.source@.len(),
                comment_close(self.source@, self.next as int) == comment_close(self.source@, k),
            decreases self.source@.len() - self.next,
        {
            self.next = self.next + 1;
        }
        if self.next >= self.source.len() || self.next + 1 >= self.source.len() {
            self.next = self.source.len();
            Err(Error::UnterminatedMultiLineComment { snippet: Snippet::new(self.token_start) })
        } else {
            self.next = self.next + 2;
            Ok(())
        }
    }

    /// Consumes a string literal after its opening `quote`.
    fn scan_string(&mut self, quote: u8) -> (r: Result<TokenKind, Error>)
        requires
            old(self).token_start < old(self).source@.len(),
            old(self).next == old(self).token_start + 1,
            quote == old(self).source@[old(self).token_start as int],
            quote == '\'' as u8 || quote == '"' as u8,
        ensures
            final(self).source == old(self).source,
            final(self).token_start == old(self).token_start,
            ({
                let src = old(self).source@;
                let p = old(self).token_start as int;
                let n = final(self).next as int;
                let (o, e) = step(src, p);
                &&& e == n
                &&& p < n <= src.len()
                &&& match o {
                    Outcome::Found(l) => {
                        &&& valid_utf8(src.subrange(p, n))
                        &&& match r {
                            Ok(k) => kind_of(k, l, src) && !(k is Eof),
                            _ => false,
                        }
                    },
                    Outcome::Failure(x) => r == Err::<TokenKind, Error>(x),
                    _ => false,
                }
            }),
    {
        let ghost src = self.source@;
        let ghost p = self.token_start as int;
        let ghost k = self.next as int;
        while self.next < self.source.len() && self.source[self.next] != quote
            invariant
                self.source == old(self).source,
                self.token_start == old(self).token_start,
                src == old(self).source@,
                p == old(self).token_start,
                k <= self.next <= self.source@.len(),
                find_byte(self.source@, self.next as int, quote) == find_byte(self.source@, k, quote),
            decreases self.source@.len() - self.next,
        {
            self.next = self.next + 1;
        }
        if self.next >= self.source.len() {
            if quote == '\'' as u8 {
                Err(Error::UnterminatedSingleQuoteString { snippet: Snippet::new(self.token_start) })
            } else {
                Err(Error::UnterminatedDoubleQuoteString { snippet: Snippet::new(self.token_start) })
            }
        } else {
            self.next = self.next + 1;
            match substring(self.source, self.token_start + 1..self.next - 1) {
                Ok(s) => {
                    proof {
                        lemma_quoted_valid(src, p, self.next - 1);
                    }
                    Ok(TokenKind::String(s))
                },
                Err(e) => Err(invalid_utf8(e)),
            }
        }
    }

    /// Consumes the rest of a number literal: digits, then a fraction only
    /// where a `.` is followed by a digit.
    fn scan_number(&mut self) -> (r: Result<TokenKind, Error>)
        requires
            old(self).token_start < old(self).source@.len(),
            old(self).next == old(self).token_start + 1,
            is_digit(old(self).source@[old(self).token_start as int]),
        ensures
            final(self).source == old(self).source,
            final(self).token_start == old(self).token_start,
            ({
                let src = old(self).source@;
                let p = old(self).token_start as int;
                let n = final(self).next as int;
                let l = Lexeme { start: p, end: n, shape: Shape::Num };
                &&& n == number_end(src, p + 1)
                &&& p < n <= src.len()
                &&& valid_utf8(src.subrange(p, n))
                &&& match r {
                    Ok(k) => kind_of(k, l, src) && !(k is Eof),
                    _ => false,
                }
            }),
    {
        let ghost src = self.source@;
        let ghost p = self.token_start as int;
        let ghost k = self.next as int;
        while self.next < self.source.len() && '0' as u8 <= self.source[self.next]
            && self.source[self.next] <= '9' as u8
            invariant
                self.source == old(self).source,
                self.token_start == old(self).token_start,
                src == old(self).source@,
                p == old(self).token_start,
                k <= self.next <= self.source@.len(),
                digits_end(src, self.next as int) == digits_end(src, k),
                forall|i: int| p <= i < self.next ==> #[trigger] src[i] < 0x80,
            decreases self.source@.len() - self.next,
        {
            self.next = self.next + 1;
        }
        if self.next < self.source.len() && self.next + 1 < self.source.len()
            && self.source[self.next] == '.' as u8 && '0' as u8
            <= self.source[self.next + 1] && self.source[self.next + 1] <= '9' as u8 {
            self.next = self.next + 2;
            let ghost k2 = self.next as int;
            while self.next < self.source.len() && '0' as u8 <= self.source[self.next]
                && self.source[self.next] <= '9' as u8
                invariant
                    self.source == old(self).source,
                    self.token_start == old(self).token_start,
                    src == old(self).source@,
                    p == old(self).token_start,
                    k2 <= self.next <= self.source@.len(),
                    digits_end(src, self.next as int) == digits_end(src, k2),
                    forall|i: int| p <= i < self.next ==> #[trigger] src[i] < 0x80,
                decreases self.source@.len() - self.next,
            {
                self.next = self.next + 1;
            }
        }
        proof {
            let t = src.subrange(p, self.next as int);
            assert forall|i: int| 0 <= i < t.len() implies #[trigger] t[i] < 0x80 by {
                assert(t[i] == src[p + i]);
            }
            lemma_ascii_valid(t);
        }
        match substring(self.source, self.token_start..self.next) {
            Ok(s) => Ok(TokenKind::Number(s)),
            Err(e) => Err(invalid_utf8(e)),
        }
    }

    /// Consumes the rest of an identifier and looks its text up among the
    /// keywords.
    fn scan_identifier(&mut self) -> (r: Result<TokenKind, Error>)
        requires
            old(self).token_start < old(self).source@.len(),
            old(self).next == old(self).token_start + 1,
            is_alpha(old(self).source@[old(self).token_start as int])
                || old(self).source@[old(self).token_start as int] == '_' as u8,
        ensures
            final(self).source == old(self).source,
            final(self).token_start == old(self).token_start,
            ({
                let src = old(self).source@;
                let p = old(self).token_start as int;
                let n = final(self).next as int;
                let l = Lexeme { start: p, end: n, shape: Shape::Word };
                &&& n == word_end(src, p + 1)
                &&& p < n <= src.len()
                &&& valid_utf8(src.subrange(p, n))
                &&& match r {
                    Ok(k) => kind_of(k, l, src) && !(k is Eof),
                    _ => false,
                }
            }),
    {
        let ghost src = self.source@;
        let ghost p = self.token_start as int;
        let ghost k = self.next as int;
        while self.next < self.source.len() && (('a' as u8 <= self.source[self.next]
            && self.source[self.next] <= 'z' as u8) || ('A' as u8 <= self.source[self.next]
            && self.source[self.next] <= 'Z' as u8) || ('0' as u8 <= self.source[self.next]
            && self.source[self.next] <= '9' as u8) || self.source[self.next] == '_' as u8)
            invariant
                self.source == old(self).source,
                self.token_start == old(self).token_start,
                src == old(self).source@,
                p == old(self).token_start,
                k <= self.next <= self.source@.len(),
                word_end(src, self.next as int) == word_end(src, k),
                forall|i: int| p <= i < self.next ==> #[trigger] src[i] < 0x80,
            decreases self.source@.len() - self.next,
        {
            self.next = self.next + 1;
        }
        proof {
            let t = src.subrange(p, self.next as int);
            assert forall|i: int| 0 <= i < t.len() implies #[trigger] t[i] < 0x80 by {
                assert(t[i] == src[p + i]);
            }
            lemma_ascii_valid(t);
        }
        let text = vstd::slice::slice_subrange(self.source, self.token_start, self.next);
        match keyword(text) {
            Some(kind) => Ok(kind),
            None => match substring(self.source, self.token_start..self.next) {
                Ok(s) => Ok(TokenKind::Identifier(s)),
                Err(e) => Err(invalid_utf8(e)),
            },
        }
    }

    /// Consumes the next byte where it is `expected`.
    fn matches(&mut self, expected: u8) -> (r: bool)
        requires
            old(self).next <= old(self).source@.len(),
        ensures
            final(self).source == old(self).source,
            final(self).token_start == old(self).token_start,
            r == (old(self).next < old(self).source@.len()
                && old(self).source@[old(self).next as int] == expected),
            final(self).next == if r { old(self).next + 1 } else { old(self).next as int },
    {
        if self.next < self.source.len() && self.source[self.next] == expected {
            self.next = self.next + 1;
            true
        } else {
            false
        }
    }
}

/// Scans a whole buffer.
pub fn scan(source: &[u8]) -> (r: Result<Vec<Token>, Vec<Error>>)
    ensures
        scanned(source@, 0, r),
{
    Scanner::new(source).scan_tokens()
}

proof fn lemma_find_byte(src: Seq<u8>, k: int, b: u8)
    requires
        0 <= k <= src.len(),
    ensures
        k <= find_byte(src, k, b) <= src.len(),
    decreases src.len() - k,
{
    if k < src.len() && src[k] != b {
        lemma_find_byte(src, k + 1, b);
    }
}

proof fn lemma_digits_end(src: Seq<u8>, k: int)
    requires
        0 <= k <= src.len(),
    ensures
        k <= digits_end(src, k) <= src.len(),
    decreases src.len() - k,
{
    if k < src.len() && is_digit(src[k]) {
        lemma_digits_end(src, k + 1);
    }
}

proof fn lemma_word_end(src: Seq<u8>, k: int)
    requires
        0 <= k <= src.len(),
    ensures
        k <= word_end(src, k) <= src.len(),
    decreases src.len() - k,
{
    if k < src.len() && is_word(src[k]) {
        lemma_word_end(src, k + 1);
    }
}

proof fn lemma_comment_close(src: Seq<u8>, k: int)
    requires
        0 <= k <= src.len(),
    ensures
        k <= comment_close(src, k) <= src.len(),
    decreases src.len() - k,
{
    if k + 1 < src.len() && !(src[k] == '*' as u8 && src[k + 1] == '/' as u8) {
        lemma_comment_close(src, k + 1);
    }
}

/// `e` is unresolved and anchored at a byte of `src` that is no line
/// terminator.
pub open spec fn anchored(src: Seq<u8>, e: Error) -> bool {
    &&& e.locator().code is None
    &&& 0 <= e.offset() < src.len()
    &&& src[e.offset()] != '\n' as u8
    &&& src[e.offset()] != '\r' as u8
}

/// A step moves forward, and an error it finds lies within what it consumed.
proof fn lemma_step(src: Seq<u8>, p: int)
    requires
        0 <= p < src.len(),
        src.len() <= usize::MAX,
    ensures
        p < step(src, p).1 <= src.len(),
        step(src, p).0 is Failure ==> {
            let x = step(src, p).0->Failure_0;
            anchored(src, x) && p <= x.offset() < step(src, p).1
        },
{
    let c = src[p];
    let q = p + 1;
    if c == '/' as u8 {
        lemma_find_byte(src, q, '\n' as u8);
        if q < src.len() {
            lemma_find_byte(src, q + 1, '\n' as u8);
            lemma_comment_close(src, q + 1);
        }
    } else if c == '\'' as u8 || c == '"' as u8 {
        lemma_find_byte(src, q, c);
        let m = find_byte(src, q, c);
        if m < src.len() && !valid_utf8(src.subrange(q, m)) {
            let b = src.subrange(q, m);
            lemma_valid_up_to_invalid(b);
            assert(b[valid_up_to(b)] == src[q + valid_up_to(b)]);
        }
    } else if is_digit(c) {
        lemma_digits_end(src, q);
        let m = digits_end(src, q);
        if m + 1 < src.len() {
            lemma_digits_end(src, m + 2);
        }
    } else if is_alpha(c) || c == '_' as u8 {
        lemma_word_end(src, q);
    }
}

/// The errors of a scan from `p` are anchored at or after `p`, in strictly
/// increasing order.
proof fn lemma_scan_errors(src: Seq<u8>, p: int)
    requires
        0 <= p,
        src.len() <= usize::MAX,
    ensures
        forall|i: int|
            0 <= i < scan_from(src, p).1.len() ==> anchored(src, #[trigger] scan_from(src, p).1[i])
                && p <= scan_from(src, p).1[i].offset(),
        forall|i: int, j: int|
            0 <= i < j < scan_from(src, p).1.len() ==> #[trigger] scan_from(src, p).1[i].offset()
                < #[trigger] scan_from(src, p).1[j].offset(),
    decreases src.len() - p,
{
    if p < src.len() {
        lemma_step(src, p);
        let e = step(src, p).1;
        lemma_scan_errors(src, e);
        let rest = scan_from(src, e).1;
        if step(src, p).0 is Failure {
            let x = step(src, p).0->Failure_0;
            let errs = scan_from(src, p).1;
            assert(errs == seq![x] + rest);
            assert forall|i: int| 0 <= i < errs.len() implies anchored(src, #[trigger] errs[i])
                && p <= errs[i].offset() by {
                if i > 0 {
                    assert(errs[i] == rest[i - 1]);
                }
            }
            assert forall|i: int, j: int|
                0 <= i < j < errs.len() implies #[trigger] errs[i].offset()
                < #[trigger] errs[j].offset() by {
                assert(errs[j] == rest[j - 1]);
                if i > 0 {
                    assert(errs[i] == rest[i - 1]);
                }
            }
        }
    }
}

/// Where a scan finds no error it returns the tokens closed by exactly one end
/// marker, at the offset just past the buffer.
pub proof fn lemma_end_marker(src: Seq<u8>, r: Result<Vec<Token>, Vec<Error>>)
    requires
        scanned(src, 0, r),
        scan_from(src, 0).1.len() == 0,
    ensures
        r is Ok,
        r->Ok_0@.len() >= 1,
        is_eof(r->Ok_0@.last(), src.len() as int),
        forall|i: int| 0 <= i < r->Ok_0@.len() - 1 ==> !(#[trigger] r->Ok_0@[i].kind is Eof),
{
    let tokens = r->Ok_0@;
    assert forall|i: int| 0 <= i < tokens.len() - 1 implies !(#[trigger] tokens[i].kind is Eof) by {
        assert(token_is(tokens[i], scan_from(src, 0).0[i], src));
    }
}

/// Where a scan finds an error it returns no token, but every error found:
/// one for each failing region, in source order, each anchored at a byte of
/// the buffer that its locator can be resolved at.
pub proof fn lemma_errors_in_order(src: Seq<u8>, r: Result<Vec<Token>, Vec<Error>>)
    requires
        src.len() <= usize::MAX,
        scanned(src, 0, r),
    ensures
        r is Err <==> scan_from(src, 0).1.len() > 0,
        r is Err ==> {
            let es = r->Err_0@;
            &&& es == scan_from(src, 0).1
            &&& forall|i: int, j: int|
                0 <= i < j < es.len() ==> #[trigger] es[i].offset() < #[trigger] es[j].offset()
            &&& forall|i: int|
                0 <= i < es.len() ==> 0 <= #[trigger] es[i].offset() < src.len() && es[i].resolvable_in(
                    src,
                )
        },
{
    lemma_scan_errors(src, 0);
    if r is Err {
        let es = r->Err_0@;
        assert forall|i: int| 0 <= i < es.len() implies 0 <= #[trigger] es[i].offset() < src.len()
            && es[i].resolvable_in(src) by {
            let o = es[i].offset();
            assert(anchored(src, es[i]));
            lemma_resolvable_at_byte(src, o);
        }
    }
}

/// An offset of a byte that is no line terminator can be resolved.
proof fn lemma_resolvable_at_byte(src: Seq<u8>, o: int)
    requires
        src.len() <= usize::MAX,
        0 <= o < src.len(),
        src[o] != '\n' as u8,
        src[o] != '\r' as u8,
    ensures
        resolvable(src, o),
{
    crate::src::lemma_line_end(src, o + 1);
    crate::src::lemma_line_of(src, o);
}

proof fn lemma_encode_concat(a: Seq<char>, b: Seq<char>)
    ensures
        encode_utf8(a + b) == encode_utf8(a) + encode_utf8(b),
    decreases a.len(),
{
    if a.len() == 0 {
        assert(a + b =~= b);
        assert(encode_utf8(a) + encode_utf8(b) =~= encode_utf8(b));
    } else {
        lemma_encode_concat(a.drop_first(), b);
        assert((a + b).drop_first() =~= a.drop_first() + b);
        assert((a + b)[0] == a[0]);
        assert(encode_utf8(a + b) =~= encode_utf8(a) + encode_utf8(b));
    }
}

/// A one-byte ASCII character encodes as that byte.
proof fn lemma_encode_ascii_char(q: u8)
    requires
        q < 0x80,
    ensures
        encode_utf8(seq![q as char]) == seq![q],
{
    let c = seq![q as char];
    assert(is_ascii_chars(c));
    is_ascii_chars_encode_utf8(c);
    assert(encode_utf8(c) =~= seq![q]);
}

/// Every token but the end marker encodes back to exactly the bytes it was
/// matched on, starting at its offset. The text of a string literal is its
/// opening quote, its value and the same quote again, and the value encodes
/// back to the bytes between the quotes.
pub proof fn lemma_round_trip(src: Seq<u8>, r: Result<Vec<Token>, Vec<Error>>, i: int)
    requires
        scanned(src, 0, r),
        r is Ok,
        0 <= i < r->Ok_0@.len() - 1,
    ensures
        ({
            let t = r->Ok_0@[i];
            let b = encode_utf8(t.lexeme@);
            &&& t.offset + b.len() <= src.len()
            &&& src.subrange(t.offset as int, t.offset + b.len()) == b
            &&& t.kind is String ==> encode_utf8(t.kind->String_0@) == src.subrange(
                t.offset + 1,
                t.offset + b.len() - 1,
            )
            &&& t.kind is String ==> {
                let q = src[t.offset as int];
                &&& q == '\'' as u8 || q == '"' as u8
                &&& t.lexeme@ == seq![q as char] + t.kind->String_0@ + seq![q as char]
            }
        }),
{
    let t = r->Ok_0@[i];
    let l = scan_from(src, 0).0[i];
    assert(token_is(t, l, src));
    let text = src.subrange(l.start, l.end);
    decode_utf8_encode_utf8(text);
    if t.kind is String {
        let payload = src.subrange(l.start + 1, l.end - 1);
        let q = src[l.start];
        let value = t.kind->String_0@;
        decode_utf8_encode_utf8(payload);
        lemma_encode_ascii_char(q);
        let c = seq![q as char] + value + seq![q as char];
        lemma_encode_concat(seq![q as char], value);
        lemma_encode_concat(seq![q as char] + value, seq![q as char]);
        assert(encode_utf8(c) =~= text);
        encode_utf8_decode_utf8(c);
    }
}

} // verus!

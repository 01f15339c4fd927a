//! Tokens and the keyword table.
use vstd::prelude::*;

verus! {

/// The class of a token, with the decoded text for literals and identifiers.
///
/// A number literal keeps its decimal text; its numeric value is the decimal
/// reading of that text.
#[derive(Debug, Clone, PartialEq)]
pub enum TokenKind {
    LeftParen,
    RightParen,
    LeftBrace,
    RightBrace,
    Comma,
    Dot,
    Minus,
    Plus,
    Semicolon,
    Slash,
    Star,
    Bang,
    BangEqual,
    Equal,
    EqualEqual,
    Greater,
    GreaterEqual,
    Less,
    LessEqual,
    String(String),
    Number(String),
    Identifier(String),
    And,
    Class,
    Else,
    False,
    For,
    Fun,
    If,
    Nil,
    Or,
    Print,
    Return,
    Super,
    This,
    True,
    Var,
    While,
    Eof,
}

/// A recognised token: its kind, the exact decoded source text, and the byte
/// offset of its first byte.
#[derive(Debug, Clone, PartialEq)]
pub struct Token {
    pub kind: TokenKind,
    pub lexeme: String,
    pub offset: usize,
}

impl TokenKind {
    /// How the kind is shown: its spelling, the value of a string literal,
    /// the text of a number or identifier, and `\\d` for the end marker.
    pub open spec fn spec_text(&self) -> Seq<char> {
        match self {
            TokenKind::LeftParen => "("@,
            TokenKind::RightParen => ")"@,
            TokenKind::LeftBrace => "{"@,
            TokenKind::RightBrace => "}"@,
            TokenKind::Comma => ","@,
            TokenKind::Dot => "."@,
            TokenKind::Minus => "-"@,
            TokenKind::Plus => "+"@,
            TokenKind::Semicolon => ";"@,
            TokenKind::Slash => "/"@,
            TokenKind::Star => "*"@,
            TokenKind::Bang => "!"@,
            TokenKind::BangEqual => "!="@,
            TokenKind::Equal => "="@,
            TokenKind::EqualEqual => "=="@,
            TokenKind::Greater => ">"@,
            TokenKind::GreaterEqual => ">="@,
            TokenKind::Less => "<"@,
            TokenKind::LessEqual => "<="@,
            TokenKind::String(s) => s@,
            TokenKind::Number(s) => s@,
            TokenKind::Identifier(s) => s@,
            TokenKind::And => "and"@,
            TokenKind::Class => "class"@,
            TokenKind::Else => "else"@,
            TokenKind::False => "false"@,
            TokenKind::For => "for"@,
            TokenKind::Fun => "fun"@,
            TokenKind::If => "if"@,
            TokenKind::Nil => "nil"@,
            TokenKind::Or => "or"@,
            TokenKind::Print => "print"@,
            TokenKind::Return => "return"@,
            TokenKind::Super => "super"@,
            TokenKind::This => "this"@,
            TokenKind::True => "true"@,
            TokenKind::Var => "var"@,
            TokenKind::While => "while"@,
            TokenKind::Eof => "\\d"@,
        }
    }

    /// How the kind is shown.
    pub fn text(&self) -> (r: &str)
        ensures
            r@ == self.spec_text(),
    {
        match self {
            TokenKind::LeftParen => "(",
            TokenKind::RightParen => ")",
            TokenKind::LeftBrace => "{",
            TokenKind::RightBrace => "}",
            TokenKind::Comma => ",",
            TokenKind::Dot => ".",
            TokenKind::Minus => "-",
            TokenKind::Plus => "+",
            TokenKind::Semicolon => ";",
            TokenKind::Slash => "/",
            TokenKind::Star => "*",
            TokenKind::Bang => "!",
            TokenKind::BangEqual => "!=",
            TokenKind::Equal => "=",
            TokenKind::EqualEqual => "==",
            TokenKind::Greater => ">",
            TokenKind::GreaterEqual => ">=",
            TokenKind::Less => "<",
            TokenKind::LessEqual => "<=",
            TokenKind::String(s) => s.as_str(),
            TokenKind::Number(s) => s.as_str(),
            TokenKind::Identifier(s) => s.as_str(),
            TokenKind::And => "and",
            TokenKind::Class => "class",
            TokenKind::Else => "else",
            TokenKind::False => "false",
            TokenKind::For => "for",
            TokenKind::Fun => "fun",
            TokenKind::If => "if",
            TokenKind::Nil => "nil",
            TokenKind::Or => "or",
            TokenKind::Print => "print",
            TokenKind::Return => "return",
            TokenKind::Super => "super",
            TokenKind::This => "this",
            TokenKind::True => "true",
            TokenKind::Var => "var",
            TokenKind::While => "while",
            TokenKind::Eof => "\\d",
        }
    }
}

impl Token {
    /// How the token is shown: as its kind.
    pub fn text(&self) -> (r: &str)
        ensures
            r@ == self.kind.spec_text(),
    {
        self.kind.text()
    }
}

/// The keyword spelled exactly by `s`, if any.
pub open spec fn spec_keyword(s: Seq<u8>) -> Option<TokenKind> {
    if s == seq!['a' as u8, 'n' as u8, 'd' as u8] {
        Some(TokenKind::And)
    } else if s == seq!['c' as u8, 'l' as u8, 'a' as u8, 's' as u8, 's' as u8] {
        Some(TokenKind::Class)
    } else if s == seq!['e' as u8, 'l' as u8, 's' as u8, 'e' as u8] {
        Some(TokenKind::Else)
    } else if s == seq!['f' as u8, 'a' as u8, 'l' as u8, 's' as u8, 'e' as u8] {
        Some(TokenKind::False)
    } else if s == seq!['f' as u8, 'o' as u8, 'r' as u8] {
        Some(TokenKind::For)
    } else if s == seq!['f' as u8, 'u' as u8, 'n' as u8] {
        Some(TokenKind::Fun)
    } else if s == seq!['i' as u8, 'f' as u8] {
        Some(TokenKind::If)
    } else if s == seq!['n' as u8, 'i' as u8, 'l' as u8] {
        Some(TokenKind::Nil)
    } else if s == seq!['o' as u8, 'r' as u8] {
        Some(TokenKind::Or)
    } else if s == seq!['p' as u8, 'r' as u8, 'i' as u8, 'n' as u8, 't' as u8] {
        Some(TokenKind::Print)
    } else if s == seq!['r' as u8, 'e' as u8, 't' as u8, 'u' as u8, 'r' as u8, 'n' as u8] {
        Some(TokenKind::Return)
    } else if s == seq!['s' as u8, 'u' as u8, 'p' as u8, 'e' as u8, 'r' as u8] {
        Some(TokenKind::Super)
    } else if s == seq!['t' as u8, 'h' as u8, 'i' as u8, 's' as u8] {
        Some(TokenKind::This)
    } else if s == seq!['t' as u8, 'r' as u8, 'u' as u8, 'e' as u8] {
        Some(TokenKind::True)
    } else if s == seq!['v' as u8, 'a' as u8, 'r' as u8] {
        Some(TokenKind::Var)
    } else if s == seq!['w' as u8, 'h' as u8, 'i' as u8, 'l' as u8, 'e' as u8] {
        Some(TokenKind::While)
    } else {
        None
    }
}

/// Whether `text` spells exactly the word `word`.
fn spells(text: &[u8], word: &[u8]) -> (r: bool)
    ensures
        r == (text@ == word@),
{
    if text.len() != word.len() {
        return false;
    }
    let mut i: usize = 0;
    while i < text.len()
        invariant
            text@.len() == word@.len(),
            i <= text@.len(),
            forall|j: int| 0 <= j < i ==> text@[j] == word@[j],
        decreases text@.len() - i,
    {
        if text[i] != word[i] {
            return false;
        }
        i += 1;
    }
    assert(text@ =~= word@);
    true
}

/// Looks up an identifier-shaped spelling in the fixed keyword table.
pub fn keyword(text: &[u8]) -> (r: Option<TokenKind>)
    ensures
        r == spec_keyword(text@),
{
    if spells(text, &['a' as u8, 'n' as u8, 'd' as u8]) {
        Some(TokenKind::And)
    } else if spells(text, &['c' as u8, 'l' as u8, 'a' as u8, 's' as u8, 's' as u8]) {
        Some(TokenKind::Class)
    } else if spells(text, &['e' as u8, 'l' as u8, 's' as u8, 'e' as u8]) {
        Some(TokenKind::Else)
    } else if spells(text, &['f' as u8, 'a' as u8, 'l' as u8, 's' as u8, 'e' as u8]) {
        Some(TokenKind::False)
    } else if spells(text, &['f' as u8, 'o' as u8, 'r' as u8]) {
        Some(TokenKind::For)
    } else if spells(text, &['f' as u8, 'u' as u8, 'n' as u8]) {
        Some(TokenKind::Fun)
    } else if spells(text, &['i' as u8, 'f' as u8]) {
        Some(TokenKind::If)
    } else if spells(text, &['n' as u8, 'i' as u8, 'l' as u8]) {
        Some(TokenKind::Nil)
    } else if spells(text, &['o' as u8, 'r' as u8]) {
        Some(TokenKind::Or)
    } else if spells(text, &['p' as u8, 'r' as u8, 'i' as u8, 'n' as u8, 't' as u8]) {
        Some(TokenKind::Print)
    } else if spells(text, &['r' as u8, 'e' as u8, 't' as u8, 'u' as u8, 'r' as u8, 'n' as u8]) {
        Some(TokenKind::Return)
    } else if spells(text, &['s' as u8, 'u' as u8, 'p' as u8, 'e' as u8, 'r' as u8]) {
        Some(TokenKind::Super)
    } else if spells(text, &['t' as u8, 'h' as u8, 'i' as u8, 's' as u8]) {
        Some(TokenKind::This)
    } else if spells(text, &['t' as u8, 'r' as u8, 'u' as u8, 'e' as u8]) {
        Some(TokenKind::True)
    } else if spells(text, &['v' as u8, 'a' as u8, 'r' as u8]) {
        Some(TokenKind::Var)
    } else if spells(text, &['w' as u8, 'h' as u8, 'i' as u8, 'l' as u8, 'e' as u8]) {
        Some(TokenKind::While)
    } else {
        None
    }
}

} // verus!

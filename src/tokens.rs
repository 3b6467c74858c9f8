use vstd::prelude::*;
use crate::pos::TokenPos;
use crate::text::{int_text, push_char, push_int, push_text};

verus! {

/// What a token is, apart from where it stands.
#[derive(Debug)]
pub enum TokenKind {
    LParen,
    RParen,
    LBrack,
    RBrack,
    LCurl,
    RCurl,
    SingleQuote,
    Hash,
    Comma,
    Symbol(String),
    Ident(String),
    String(String),
    Char(char),
    Integer(i64),
}

/// A token kind with its text as a sequence of characters.
pub enum Lexeme {
    LParen,
    RParen,
    LBrack,
    RBrack,
    LCurl,
    RCurl,
    SingleQuote,
    Hash,
    Comma,
    Symbol(Seq<char>),
    Ident(Seq<char>),
    Str(Seq<char>),
    Char(char),
    Integer(int),
}

impl View for TokenKind {
    type V = Lexeme;

    open spec fn view(&self) -> Lexeme {
        match self {
            TokenKind::LParen => Lexeme::LParen,
            TokenKind::RParen => Lexeme::RParen,
            TokenKind::LBrack => Lexeme::LBrack,
            TokenKind::RBrack => Lexeme::RBrack,
            TokenKind::LCurl => Lexeme::LCurl,
            TokenKind::RCurl => Lexeme::RCurl,
            TokenKind::SingleQuote => Lexeme::SingleQuote,
            TokenKind::Hash => Lexeme::Hash,
            TokenKind::Comma => Lexeme::Comma,
            TokenKind::Symbol(s) => Lexeme::Symbol(s@),
            TokenKind::Ident(s) => Lexeme::Ident(s@),
            TokenKind::String(s) => Lexeme::Str(s@),
            TokenKind::Char(c) => Lexeme::Char(*c),
            TokenKind::Integer(n) => Lexeme::Integer(*n as int),
        }
    }
}

impl PartialEq for TokenKind {
    fn eq(&self, other: &TokenKind) -> (r: bool) {
        match (self, other) {
            (TokenKind::LParen, TokenKind::LParen) => true,
            (TokenKind::RParen, TokenKind::RParen) => true,
            (TokenKind::LBrack, TokenKind::LBrack) => true,
            (TokenKind::RBrack, TokenKind::RBrack) => true,
            (TokenKind::LCurl, TokenKind::LCurl) => true,
            (TokenKind::RCurl, TokenKind::RCurl) => true,
            (TokenKind::SingleQuote, TokenKind::SingleQuote) => true,
            (TokenKind::Hash, TokenKind::Hash) => true,
            (TokenKind::Comma, TokenKind::Comma) => true,
            (TokenKind::Symbol(a), TokenKind::Symbol(b)) => *a == *b,
            (TokenKind::Ident(a), TokenKind::Ident(b)) => *a == *b,
            (TokenKind::String(a), TokenKind::String(b)) => *a == *b,
            (TokenKind::Char(a), TokenKind::Char(b)) => *a == *b,
            (TokenKind::Integer(a), TokenKind::Integer(b)) => *a == *b,
            _ => false,
        }
    }
}

impl vstd::std_specs::cmp::PartialEqSpecImpl for TokenKind {
    open spec fn obeys_eq_spec() -> bool {
        true
    }

    open spec fn eq_spec(&self, other: &TokenKind) -> bool {
        self@ == other@
    }
}

/// The text by which a token kind is named in messages: its spelling in
/// single quotes; the quote token itself is named `'"'`.
pub open spec fn kind_text(l: Lexeme) -> Seq<char> {
    match l {
        Lexeme::LParen => seq!['\'', '(', '\''],
        Lexeme::RParen => seq!['\'', ')', '\''],
        Lexeme::LBrack => seq!['\'', '[', '\''],
        Lexeme::RBrack => seq!['\'', ']', '\''],
        Lexeme::LCurl => seq!['\'', '{', '\''],
        Lexeme::RCurl => seq!['\'', '}', '\''],
        Lexeme::SingleQuote => seq!['\'', '"', '\''],
        Lexeme::Hash => seq!['\'', '#', '\''],
        Lexeme::Comma => seq!['\'', ',', '\''],
        Lexeme::Symbol(s) => seq!['\''] + s + seq!['\''],
        Lexeme::Ident(s) => seq!['\''] + s + seq!['\''],
        Lexeme::Str(s) => seq!['\''] + s + seq!['\''],
        Lexeme::Char(c) => seq!['\'', c, '\''],
        Lexeme::Integer(n) => seq!['\''] + int_text(n) + seq!['\''],
    }
}

impl TokenKind {
    /// The token kind as it is named in messages.
    pub fn describe(&self) -> (r: String)
        ensures
            r@ == kind_text(self@),
    {
        let mut out = String::new();
        push_char(&mut out, '\'');
        match self {
            TokenKind::LParen => push_char(&mut out, '('),
            TokenKind::RParen => push_char(&mut out, ')'),
            TokenKind::LBrack => push_char(&mut out, '['),
            TokenKind::RBrack => push_char(&mut out, ']'),
            TokenKind::LCurl => push_char(&mut out, '{'),
            TokenKind::RCurl => push_char(&mut out, '}'),
            TokenKind::SingleQuote => push_char(&mut out, '"'),
            TokenKind::Hash => push_char(&mut out, '#'),
            TokenKind::Comma => push_char(&mut out, ','),
            TokenKind::Symbol(s) => push_text(&mut out, s.as_str()),
            TokenKind::Ident(s) => push_text(&mut out, s.as_str()),
            TokenKind::String(s) => push_text(&mut out, s.as_str()),
            TokenKind::Char(c) => push_char(&mut out, *c),
            TokenKind::Integer(n) => push_int(&mut out, *n),
        }
        push_char(&mut out, '\'');
        assert(out@ =~= kind_text(self@));
        out
    }
}

/// A token and the position of its first character.
#[derive(Debug)]
pub struct Token(pub TokenKind, pub TokenPos);

impl View for Token {
    type V = (Lexeme, (int, int));

    open spec fn view(&self) -> (Lexeme, (int, int)) {
        (self.0@, self.1@)
    }
}

impl PartialEq for Token {
    fn eq(&self, other: &Token) -> (r: bool) {
        self.0 == other.0 && self.1 == other.1
    }
}

impl vstd::std_specs::cmp::PartialEqSpecImpl for Token {
    open spec fn obeys_eq_spec() -> bool {
        true
    }

    open spec fn eq_spec(&self, other: &Token) -> bool {
        self@ == other@
    }
}

} // verus!

use vstd::prelude::*;
use crate::pos::{TokenPos, pos_at, lemma_pos_bounds};
use crate::text::{digits_of, push_char, push_digits, push_text};
use crate::tokens::{Lexeme, Token, TokenKind};

verus! {

/// ASCII whitespace: space, tab, line feed, form feed and carriage return.
pub open spec fn is_space(c: char) -> bool {
    c == ' ' || c == '\t' || c == '\n' || c == '\x0C' || c == '\r'
}

/// The characters that end a symbol or an identifier.
pub open spec fn is_reserved(c: char) -> bool {
    c == '[' || c == ']' || c == '(' || c == ')' || c == '{' || c == '}' || c == '\'' || c == '"'
}

pub open spec fn is_letter(c: char) -> bool {
    ('a' <= c && c <= 'z') || ('A' <= c && c <= 'Z')
}

pub open spec fn is_digit(c: char) -> bool {
    '0' <= c && c <= '9'
}

/// The first index at or after `i` that holds no whitespace.
pub open spec fn skip_end(s: Seq<char>, i: int) -> int
    decreases s.len() - i,
{
    if 0 <= i < s.len() && is_space(s[i]) {
        skip_end(s, i + 1)
    } else {
        i
    }
}

/// The first index at or after `i` that holds whitespace or a reserved character.
pub open spec fn word_end(s: Seq<char>, i: int) -> int
    decreases s.len() - i,
{
    if 0 <= i < s.len() && !is_space(s[i]) && !is_reserved(s[i]) {
        word_end(s, i + 1)
    } else {
        i
    }
}

/// The first index at or after `i` that holds no decimal digit.
pub open spec fn digits_end(s: Seq<char>, i: int) -> int
    decreases s.len() - i,
{
    if 0 <= i < s.len() && is_digit(s[i]) {
        digits_end(s, i + 1)
    } else {
        i
    }
}

/// The value of the decimal digits `s[i..k]`.
pub open spec fn digits_value(s: Seq<char>, i: int, k: int) -> int
    decreases k - i,
{
    if k <= i {
        0
    } else {
        digits_value(s, i, k - 1) * 10 + (s[k - 1] as int - '0' as int)
    }
}

/// The first index at or after `i` that holds a double quote or a newline.
pub open spec fn quote_end(s: Seq<char>, i: int) -> int
    decreases s.len() - i,
{
    if 0 <= i < s.len() && s[i] != '"' && s[i] != '\n' {
        quote_end(s, i + 1)
    } else {
        i
    }
}

/// The token of a character that stands for itself.
pub open spec fn single_lexeme(c: char) -> Option<Lexeme> {
    if c == '(' { Some(Lexeme::LParen) }
    else if c == ')' { Some(Lexeme::RParen) }
    else if c == '[' { Some(Lexeme::LBrack) }
    else if c == ']' { Some(Lexeme::RBrack) }
    else if c == '{' { Some(Lexeme::LCurl) }
    else if c == '}' { Some(Lexeme::RCurl) }
    else if c == '#' { Some(Lexeme::Hash) }
    else if c == ',' { Some(Lexeme::Comma) }
    else if c == '\'' { Some(Lexeme::SingleQuote) }
    else { None }
}

/// Why a text cannot be split into tokens.
pub enum LexFault {
    /// A string literal meets a newline before its closing quote.
    LineInString,
    /// A string literal meets the end of the text.
    EndInString,
    /// A backslash is the last character of the text.
    EndInChar,
    /// A run of digits denotes a value above `i64::MAX`.
    IntegerTooLarge,
    /// A character that starts no token.
    Unexpected(char),
}

/// The message that reports a fault.
pub open spec fn fault_text(f: LexFault) -> Seq<char> {
    match f {
        LexFault::LineInString => "Unexpected end of line while parsing a string"@,
        LexFault::EndInString => "Unexpected End of File while parsing String"@,
        LexFault::EndInChar => "Unexpected End of File while parsing Char"@,
        LexFault::IntegerTooLarge => "Integer literal out of range"@,
        LexFault::Unexpected(c) => "Unexpected Character: "@.push(c),
    }
}

/// The token that starts at index `j` (no whitespace there), with the index
/// just past it, or the fault found there.
pub open spec fn step_token(s: Seq<char>, j: int) -> Result<(Lexeme, int), LexFault> {
    let c = s[j];
    if is_letter(c) || c == ':' {
        let k = word_end(s, j);
        let w = s.subrange(j, k);
        if c == ':' {
            Ok((Lexeme::Ident(w), k))
        } else {
            Ok((Lexeme::Symbol(w), k))
        }
    } else if is_digit(c) {
        let k = digits_end(s, j);
        let v = digits_value(s, j, k);
        if v > i64::MAX {
            Err(LexFault::IntegerTooLarge)
        } else {
            Ok((Lexeme::Integer(v), k))
        }
    } else if c == '"' {
        let k = quote_end(s, j + 1);
        if k >= s.len() {
            Err(LexFault::EndInString)
        } else if s[k] == '\n' {
            Err(LexFault::LineInString)
        } else {
            Ok((Lexeme::Str(s.subrange(j + 1, k)), k + 1))
        }
    } else if c == '\\' {
        if j + 1 < s.len() {
            Ok((Lexeme::Char(s[j + 1]), j + 2))
        } else {
            Err(LexFault::EndInChar)
        }
    } else {
        match single_lexeme(c) {
            Some(l) => Ok((l, j + 1)),
            None => Err(LexFault::Unexpected(c)),
        }
    }
}

/// The tokens of `s` from index `i` on, appended to `acc`; or the first fault
/// with the position of the token where it was found.
pub open spec fn lex_from(s: Seq<char>, i: int, acc: Seq<(Lexeme, (int, int))>) -> Result<
    Seq<(Lexeme, (int, int))>,
    (LexFault, (int, int)),
>
    decreases s.len() - i,
    via lex_from_decreases
{
    let j = skip_end(s, i);
    if 0 <= j < s.len() {
        match step_token(s, j) {
            Err(f) => Err((f, pos_at(s, j))),
            Ok((l, k)) => lex_from(s, k, acc.push((l, pos_at(s, j)))),
        }
    } else {
        Ok(acc)
    }
}

#[via_fn]
proof fn lex_from_decreases(s: Seq<char>, i: int, acc: Seq<(Lexeme, (int, int))>) {
    lemma_skip_end(s, i);
    let j = skip_end(s, i);
    if 0 <= j < s.len() {
        lemma_step_advances(s, j);
    }
}

/// The tokens of a whole text, or its first fault.
pub open spec fn lex(s: Seq<char>) -> Result<Seq<(Lexeme, (int, int))>, (LexFault, (int, int))> {
    lex_from(s, 0, seq![])
}

pub proof fn lemma_skip_end(s: Seq<char>, i: int)
    ensures
        i <= skip_end(s, i),
        0 <= i <= s.len() ==> skip_end(s, i) <= s.len(),
        0 <= i ==> (skip_end(s, i) < s.len() ==> !is_space(s[skip_end(s, i)])),
    decreases s.len() - i,
{
    if 0 <= i < s.len() && is_space(s[i]) {
        lemma_skip_end(s, i + 1);
    }
}

pub proof fn lemma_word_end(s: Seq<char>, i: int)
    ensures
        i <= word_end(s, i),
        0 <= i <= s.len() ==> word_end(s, i) <= s.len(),
    decreases s.len() - i,
{
    if 0 <= i < s.len() && !is_space(s[i]) && !is_reserved(s[i]) {
        lemma_word_end(s, i + 1);
    }
}

pub proof fn lemma_digits_end(s: Seq<char>, i: int)
    ensures
        i <= digits_end(s, i),
        0 <= i <= s.len() ==> digits_end(s, i) <= s.len(),
    decreases s.len() - i,
{
    if 0 <= i < s.len() && is_digit(s[i]) {
        lemma_digits_end(s, i + 1);
    }
}

pub proof fn lemma_quote_end(s: Seq<char>, i: int)
    ensures
        i <= quote_end(s, i),
        0 <= i <= s.len() ==> quote_end(s, i) <= s.len(),
        0 <= i ==> (quote_end(s, i) < s.len() ==> (s[quote_end(s, i)] == '"' || s[quote_end(s, i)] == '\n')),
    decreases s.len() - i,
{
    if 0 <= i < s.len() && s[i] != '"' && s[i] != '\n' {
        lemma_quote_end(s, i + 1);
    }
}

/// A token always consumes at least one character.
pub proof fn lemma_step_advances(s: Seq<char>, j: int)
    requires
        0 <= j < s.len(),
    ensures
        step_token(s, j) matches Ok((_, k)) ==> j < k <= s.len(),
{
    lemma_word_end(s, j);
    lemma_digits_end(s, j);
    lemma_quote_end(s, j + 1);
    let c = s[j];
    if is_letter(c) || c == ':' {
        assert(word_end(s, j) == word_end(s, j + 1));
        lemma_word_end(s, j + 1);
    } else if is_digit(c) {
        assert(digits_end(s, j) == digits_end(s, j + 1));
        lemma_digits_end(s, j + 1);
    }
}

/// A failure to split a text into tokens, with the position of the token
/// where it was found.
#[derive(Debug)]
pub struct TokenizeError {
    message: String,
    pos: TokenPos,
}

impl View for TokenizeError {
    type V = (Seq<char>, (int, int));

    closed spec fn view(&self) -> (Seq<char>, (int, int)) {
        (self.message@, self.pos@)
    }
}

impl TokenizeError {
    pub fn new(message: &str, pos: TokenPos) -> (r: Self)
        ensures
            r@ == (message@, pos@),
    {
        TokenizeError { message: message.to_owned(), pos }
    }

    pub fn message(&self) -> (r: &str)
        ensures
            r@ == self@.0,
    {
        self.message.as_str()
    }

    pub fn pos(&self) -> (r: TokenPos)
        ensures
            r@ == self@.1,
    {
        self.pos
    }

    /// The error as reported to a user: `Tokenize Error (<line>:<column>) <message>`.
    pub fn describe(&self) -> (r: String)
        ensures
            r@ == "Tokenize Error ("@ + digits_of(self@.1.0 as nat) + seq![':'] + digits_of(self@.1.1 as nat)
                + seq![')', ' '] + self@.0,
    {
        let mut out = String::new();
        push_text(&mut out, "Tokenize Error (");
        push_digits(&mut out, self.pos.line as u64);
        push_char(&mut out, ':');
        push_digits(&mut out, self.pos.column as u64);
        push_char(&mut out, ')');
        push_char(&mut out, ' ');
        push_text(&mut out, self.message.as_str());
        assert(out@ =~= "Tokenize Error ("@ + digits_of(self@.1.0 as nat) + seq![':'] + digits_of(
            self@.1.1 as nat,
        ) + seq![')', ' '] + self@.0);
        out
    }
}

/// A cursor over the characters of a text that knows the line and column it
/// stands at.
pub struct Tokenizer {
    pub chars: Vec<char>,
    pub index: usize,
    pub line: usize,
    pub column: usize,
}

impl Tokenizer {
    /// The characters being read.
    pub open spec fn text(&self) -> Seq<char> {
        self.chars@
    }

    /// How many characters have been consumed.
    pub open spec fn at(&self) -> int {
        self.index as int
    }

    pub open spec fn wf(&self) -> bool {
        &&& self.chars.len() < usize::MAX
        &&& self.index <= self.chars.len()
        &&& (self.line as int, self.column as int) == pos_at(self.chars@, self.index as int)
    }

    pub fn new(chars: Vec<char>) -> (r: Self)
        requires
            chars.len() < usize::MAX,
        ensures
            r.wf(),
            r.text() == chars@,
            r.at() == 0,
    {
        Tokenizer { chars, index: 0, line: 1, column: 1 }
    }

    /// The next character, if any is left.
    pub fn peek(&self) -> (r: Option<char>)
        requires
            self.wf(),
        ensures
            r == (if self.at() < self.text().len() {
                Some(self.text()[self.at()])
            } else {
                None::<char>
            }),
    {
        if self.index < self.chars.len() {
            Some(self.chars[self.index])
        } else {
            None
        }
    }

    /// Consumes the next character, if any is left, and moves the position past it.
    pub fn next(&mut self) -> (r: Option<char>)
        requires
            old(self).wf(),
        ensures
            final(self).wf(),
            final(self).text() == old(self).text(),
            r == (if old(self).at() < old(self).text().len() {
                Some(old(self).text()[old(self).at()])
            } else {
                None::<char>
            }),
            final(self).at() == (if old(self).at() < old(self).text().len() {
                old(self).at() + 1
            } else {
                old(self).at()
            }),
    {
        if self.index < self.chars.len() {
            let c = self.chars[self.index];
            proof {
                lemma_pos_bounds(self.chars@, self.index as int);
            }
            if c == '\n' {
                self.line = self.line + 1;
                self.column = 1;
            } else {
                self.column = self.column + 1;
            }
            self.index = self.index + 1;
            Some(c)
        } else {
            None
        }
    }

    /// The position of the next character.
    pub fn pos(&self) -> (r: TokenPos)
        requires
            self.wf(),
        ensures
            r@ == pos_at(self.text(), self.at()),
    {
        TokenPos { line: self.line, column: self.column }
    }
}

pub fn is_space_char(c: char) -> (r: bool)
    ensures
        r == is_space(c),
{
    c == ' ' || c == '\t' || c == '\n' || c == '\x0C' || c == '\r'
}

pub fn is_reserved_char(c: char) -> (r: bool)
    ensures
        r == is_reserved(c),
{
    c == '[' || c == ']' || c == '(' || c == ')' || c == '{' || c == '}' || c == '\'' || c == '"'
}

/// Consumes the whitespace ahead.
pub fn skip_spaces(tokenizer: &mut Tokenizer)
    requires
        old(tokenizer).wf(),
    ensures
        final(tokenizer).wf(),
        final(tokenizer).text() == old(tokenizer).text(),
        final(tokenizer).at() == skip_end(old(tokenizer).text(), old(tokenizer).at()),
{
    loop
        invariant
            tokenizer.wf(),
            tokenizer.text() == old(tokenizer).text(),
            skip_end(tokenizer.text(), tokenizer.at()) == skip_end(
                old(tokenizer).text(),
                old(tokenizer).at(),
            ),
        decreases tokenizer.text().len() - tokenizer.at(),
    {
        match tokenizer.peek() {
            Some(c) => {
                if is_space_char(c) {
                    tokenizer.next();
                } else {
                    return;
                }
            },
            None => {
                return;
            },
        }
    }
}

/// The digits `s[i..k]` are worth no more than the digits `s[i..k2]` that extend them.
pub proof fn lemma_digits_value_grows(s: Seq<char>, i: int, k: int, k2: int)
    requires
        i <= k <= k2,
        k2 <= digits_end(s, i),
        0 <= i,
    ensures
        digits_value(s, i, k) <= digits_value(s, i, k2),
        0 <= digits_value(s, i, k),
    decreases k2 - i,
{
    if k2 > i {
        lemma_digits_in_run(s, i, k2 - 1);
        lemma_digits_value_grows(s, i, k2 - 1, k2 - 1);
        if k < k2 {
            lemma_digits_value_grows(s, i, k, k2 - 1);
        }
    }
}

/// Every index before the end of a run of digits holds a digit.
pub proof fn lemma_digits_in_run(s: Seq<char>, i: int, m: int)
    requires
        0 <= i <= m < digits_end(s, i),
    ensures
        is_digit(s[m]),
        m < s.len(),
        digits_end(s, i) == digits_end(s, m),
    decreases m - i,
{
    if m > i {
        lemma_digits_in_run(s, i + 1, m);
    }
}

fn read_symbol_or_ident(tokenizer: &mut Tokenizer) -> (r: Token)
    requires
        old(tokenizer).wf(),
        old(tokenizer).at() < old(tokenizer).text().len(),
        is_letter(old(tokenizer).text()[old(tokenizer).at()])
            || old(tokenizer).text()[old(tokenizer).at()] == ':',
    ensures
        final(tokenizer).wf(),
        final(tokenizer).text() == old(tokenizer).text(),
        step_token(old(tokenizer).text(), old(tokenizer).at()) == Ok::<(Lexeme, int), LexFault>((r.0@, final(tokenizer).at())),
        r.1@ == pos_at(old(tokenizer).text(), old(tokenizer).at()),
{
    let ghost s = tokenizer.text();
    let ghost start = tokenizer.at();
    let pos = tokenizer.pos();
    let first = tokenizer.chars[tokenizer.index];
    let mut value = String::new();
    loop
        invariant
            tokenizer.wf(),
            tokenizer.text() == s,
            s == old(tokenizer).text(),
            start == old(tokenizer).at(),
            first == s[start],
            pos@ == pos_at(s, start),
            0 <= start <= tokenizer.at() <= s.len(),
            word_end(s, tokenizer.at()) == word_end(s, start),
            value@ == s.subrange(start, tokenizer.at()),
        ensures
            word_end(s, tokenizer.at()) == tokenizer.at(),
        decreases s.len() - tokenizer.at(),
    {
        match tokenizer.peek() {
            Some(c) => {
                if is_space_char(c) || is_reserved_char(c) {
                    break;
                }
                tokenizer.next();
                push_char(&mut value, c);
                assert(value@ =~= s.subrange(start, tokenizer.at()));
            },
            None => {
                break;
            },
        }
    }
    if first == ':' {
        Token(TokenKind::Ident(value), pos)
    } else {
        Token(TokenKind::Symbol(value), pos)
    }
}

fn read_number(tokenizer: &mut Tokenizer) -> (r: Result<Token, TokenizeError>)
    requires
        old(tokenizer).wf(),
        old(tokenizer).at() < old(tokenizer).text().len(),
        is_digit(old(tokenizer).text()[old(tokenizer).at()]),
    ensures
        final(tokenizer).wf(),
        final(tokenizer).text() == old(tokenizer).text(),
        ({
            let st = step_token(old(tokenizer).text(), old(tokenizer).at());
            let p = pos_at(old(tokenizer).text(), old(tokenizer).at());
            match r {
                Ok(tok) => st == Ok::<(Lexeme, int), LexFault>((tok.0@, final(tokenizer).at())) && tok.1@ == p,
                Err(e) => st is Err && e@ == (fault_text(st->Err_0), p),
            }
        }),
{
    let ghost s = tokenizer.text();
    let ghost start = tokenizer.at();
    let pos = tokenizer.pos();
    let mut value: i64 = 0;
    proof {
        lemma_digits_end(s, start);
    }
    loop
        invariant
            tokenizer.wf(),
            tokenizer.text() == s,
            s == old(tokenizer).text(),
            start == old(tokenizer).at(),
            pos@ == pos_at(s, start),
            start < s.len(),
            is_digit(s[start]),
            0 <= start <= tokenizer.at() <= s.len(),
            tokenizer.at() <= digits_end(s, start),
            digits_end(s, tokenizer.at()) == digits_end(s, start),
            value as int == digits_value(s, start, tokenizer.at()),
        ensures
            digits_end(s, tokenizer.at()) == tokenizer.at(),
        decreases s.len() - tokenizer.at(),
    {
        match tokenizer.peek() {
            Some(c) => {
                if !('0' <= c && c <= '9') {
                    break;
                }
                let d: i64 = (c as u32 - '0' as u32) as i64;
                let ghost at = tokenizer.at();
                proof {
                    lemma_digits_end(s, at + 1);
                    assert(digits_end(s, at) == digits_end(s, at + 1));
                }
                if value > (i64::MAX - d) / 10 {
                    proof {
                        assert(value * 10 + d > i64::MAX) by (nonlinear_arith)
                            requires
                                value > (i64::MAX - d) / 10,
                                0 <= d < 10,
                        ;
                        lemma_digits_value_grows(s, start, at + 1, digits_end(s, start));
                    }
                    return Err(TokenizeError::new("Integer literal out of range", pos));
                }
                proof {
                    assert(value * 10 + d <= i64::MAX) by (nonlinear_arith)
                        requires
                            value <= (i64::MAX - d) / 10,
                            0 <= d < 10,
                    ;
                    lemma_digits_value_grows(s, start, at, at);
                }
                tokenizer.next();
                value = value * 10 + d;
            },
            None => {
                break;
            },
        }
    }
    Ok(Token(TokenKind::Integer(value), pos))
}

fn read_string(tokenizer: &mut Tokenizer) -> (r: Result<Token, TokenizeError>)
    requires
        old(tokenizer).wf(),
        old(tokenizer).at() < old(tokenizer).text().len(),
        old(tokenizer).text()[old(tokenizer).at()] == '"',
    ensures
        final(tokenizer).wf(),
        final(tokenizer).text() == old(tokenizer).text(),
        ({
            let st = step_token(old(tokenizer).text(), old(tokenizer).at());
            let p = pos_at(old(tokenizer).text(), old(tokenizer).at());
            match r {
                Ok(tok) => st == Ok::<(Lexeme, int), LexFault>((tok.0@, final(tokenizer).at())) && tok.1@ == p,
                Err(e) => st is Err && e@ == (fault_text(st->Err_0), p),
            }
        }),
{
    let ghost s = tokenizer.text();
    let ghost open_at = tokenizer.at();
    let pos = tokenizer.pos();
    tokenizer.next();
    let ghost start = tokenizer.at();
    let mut value = String::new();
    loop
        invariant
            tokenizer.wf(),
            tokenizer.text() == s,
            s == old(tokenizer).text(),
            open_at == old(tokenizer).at(),
            s[open_at] == '"',
            pos@ == pos_at(s, open_at),
            0 <= open_at,
            start == open_at + 1,
            start <= tokenizer.at() <= s.len(),
            quote_end(s, tokenizer.at()) == quote_end(s, start),
            value@ == s.subrange(start, tokenizer.at()),
        decreases s.len() - tokenizer.at(),
    {
        match tokenizer.peek() {
            Some(c) => {
                if c == '"' {
                    tokenizer.next();
                    return Ok(Token(TokenKind::String(value), pos));
                } else if c == '\n' {
                    proof {
                        reveal_strlit("Unexpected end of line while parsing a string");
                    }
                    return Err(TokenizeError::new("Unexpected end of line while parsing a string", pos));
                }
                tokenizer.next();
                push_char(&mut value, c);
                assert(value@ =~= s.subrange(start, tokenizer.at()));
            },
            None => {
                return Err(TokenizeError::new("Unexpected End of File while parsing String", pos));
            },
        }
    }
}

fn read_char(tokenizer: &mut Tokenizer) -> (r: Result<Token, TokenizeError>)
    requires
        old(tokenizer).wf(),
        old(tokenizer).at() < old(tokenizer).text().len(),
        old(tokenizer).text()[old(tokenizer).at()] == '\\',
    ensures
        final(tokenizer).wf(),
        final(tokenizer).text() == old(tokenizer).text(),
        ({
            let st = step_token(old(tokenizer).text(), old(tokenizer).at());
            let p = pos_at(old(tokenizer).text(), old(tokenizer).at());
            match r {
                Ok(tok) => st == Ok::<(Lexeme, int), LexFault>((tok.0@, final(tokenizer).at())) && tok.1@ == p,
                Err(e) => st is Err && e@ == (fault_text(st->Err_0), p),
            }
        }),
{
    let pos = tokenizer.pos();
    tokenizer.next();
    match tokenizer.next() {
        Some(c) => Ok(Token(TokenKind::Char(c), pos)),
        None => Err(TokenizeError::new("Unexpected End of File while parsing Char", pos)),
    }
}

fn single_char_token(tokenizer: &mut Tokenizer) -> (r: Result<Token, TokenizeError>)
    requires
        old(tokenizer).wf(),
        old(tokenizer).at() < old(tokenizer).text().len(),
    ensures
        final(tokenizer).wf(),
        final(tokenizer).text() == old(tokenizer).text(),
        ({
            let c = old(tokenizer).text()[old(tokenizer).at()];
            let p = pos_at(old(tokenizer).text(), old(tokenizer).at());
            match r {
                Ok(tok) => single_lexeme(c) == Some(tok.0@) && tok.1@ == p
                    && final(tokenizer).at() == old(tokenizer).at() + 1,
                Err(e) => single_lexeme(c) is None && e@ == (fault_text(LexFault::Unexpected(c)), p),
            }
        }),
        r is Err ==> *final(tokenizer) == *old(tokenizer),
{
    let pos = tokenizer.pos();
    let c = tokenizer.chars[tokenizer.index];
    let kind = if c == '(' {
        TokenKind::LParen
    } else if c == ')' {
        TokenKind::RParen
    } else if c == '[' {
        TokenKind::LBrack
    } else if c == ']' {
        TokenKind::RBrack
    } else if c == '{' {
        TokenKind::LCurl
    } else if c == '}' {
        TokenKind::RCurl
    } else if c == '#' {
        TokenKind::Hash
    } else if c == ',' {
        TokenKind::Comma
    } else if c == '\'' {
        TokenKind::SingleQuote
    } else {
        let mut message = String::new();
        push_text(&mut message, "Unexpected Character: ");
        push_char(&mut message, c);
        return Err(TokenizeError { message, pos });
    };
    tokenizer.next();
    Ok(Token(kind, pos))
}

/// Reads the token that starts at the next character, which is no whitespace.
fn next_token(tokenizer: &mut Tokenizer) -> (r: Result<Token, TokenizeError>)
    requires
        old(tokenizer).wf(),
        old(tokenizer).at() < old(tokenizer).text().len(),
        !is_space(old(tokenizer).text()[old(tokenizer).at()]),
    ensures
        final(tokenizer).wf(),
        final(tokenizer).text() == old(tokenizer).text(),
        ({
            let st = step_token(old(tokenizer).text(), old(tokenizer).at());
            let p = pos_at(old(tokenizer).text(), old(tokenizer).at());
            match r {
                Ok(tok) => st == Ok::<(Lexeme, int), LexFault>((tok.0@, final(tokenizer).at())) && tok.1@ == p,
                Err(e) => st is Err && e@ == (fault_text(st->Err_0), p),
            }
        }),
        r is Err ==> final(tokenizer).at() == old(tokenizer).at() && final(tokenizer).line == old(
            tokenizer,
        ).line && final(tokenizer).column == old(tokenizer).column,
{
    let index = tokenizer.index;
    let line = tokenizer.line;
    let column = tokenizer.column;
    let c = tokenizer.chars[tokenizer.index];
    let r = if ('a' <= c && c <= 'z') || ('A' <= c && c <= 'Z') || c == ':' {
        Ok(read_symbol_or_ident(tokenizer))
    } else if '0' <= c && c <= '9' {
        read_number(tokenizer)
    } else if c == '"' {
        read_string(tokenizer)
    } else if c == '\\' {
        read_char(tokenizer)
    } else {
        single_char_token(tokenizer)
    };
    if r.is_err() {
        // A failed token leaves the cursor where the token started.
        tokenizer.index = index;
        tokenizer.line = line;
        tokenizer.column = column;
    }
    r
}

/// Splits a text into tokens: the tokens of `lex(source@)`, or its first fault.
pub fn tokenize(source: &str) -> (r: Result<Vec<Token>, TokenizeError>)
    requires
        source@.len() < usize::MAX,
    ensures
        match r {
            Ok(tokens) => lex(source@) == Ok::<Seq<(Lexeme, (int, int))>, (LexFault, (int, int))>(
                tokens@.map_values(|t: Token| t@),
            ),
            Err(e) => lex(source@) is Err && e@ == (
                fault_text(lex(source@)->Err_0.0),
                lex(source@)->Err_0.1,
            ),
        },
{
    let n = source.unicode_len();
    let mut chars: Vec<char> = Vec::new();
    let mut i: usize = 0;
    while i < n
        invariant
            n == source@.len(),
            i <= n,
            chars@ == source@.subrange(0, i as int),
            n < usize::MAX,
        decreases n - i,
    {
        chars.push(source.get_char(i));
        i = i + 1;
        assert(chars@ =~= source@.subrange(0, i as int));
    }
    assert(chars@ =~= source@);
    let ghost s = source@;
    let mut tokenizer = Tokenizer::new(chars);
    skip_spaces(&mut tokenizer);
    let mut tokens: Vec<Token> = Vec::new();
    proof {
        lemma_skip_end(s, 0);
        lemma_skip_end(s, tokenizer.at());
        assert(tokens@.map_values(|t: Token| t@) =~= seq![]);
    }
    loop
        invariant
            tokenizer.wf(),
            tokenizer.text() == s,
            s == source@,
            skip_end(s, tokenizer.at()) == tokenizer.at(),
            lex(s) == lex_from(s, tokenizer.at(), tokens@.map_values(|t: Token| t@)),
        decreases s.len() - tokenizer.at(),
    {
        if tokenizer.peek().is_none() {
            return Ok(tokens);
        }
        let ghost j = tokenizer.at();
        proof {
            lemma_skip_end(s, j);
        }
        match next_token(&mut tokenizer) {
            Ok(token) => {
                let ghost prev = tokens@.map_values(|t: Token| t@);
                tokens.push(token);
                assert(tokens@.map_values(|t: Token| t@) =~= prev.push(token@));
            },
            Err(e) => {
                return Err(e);
            },
        }
        let ghost k = tokenizer.at();
        let ghost acc = tokens@.map_values(|t: Token| t@);
        proof {
            lemma_step_advances(s, j);
            lemma_skip_end(s, k);
        }
        skip_spaces(&mut tokenizer);
        proof {
            lemma_skip_end(s, tokenizer.at());
            assert(lex_from(s, k, acc) == lex_from(s, tokenizer.at(), acc));
        }
    }
}

} // verus!

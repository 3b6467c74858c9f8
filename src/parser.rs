use vstd::prelude::*;
use std::rc::Rc;
use crate::nodes::{
    Form, Node, NodePtr, all_cells, is_proper, lemma_list_form, lemma_vector_form, lemma_vector_printable,
    list_elems, list_form, list_len, lists_proper, printable,
};
use crate::pos::TokenPos;
use crate::text::{push_char, push_digits, push_text};
use crate::tokens::{Lexeme, Token, TokenKind, kind_text};

verus! {

/// A failure to parse: a message and, where one can be blamed, the position
/// of a token.
#[derive(Debug)]
pub struct ParseError {
    message: String,
    pos: Option<TokenPos>,
}

/// The model of a parse error: its message and its position, if any.
pub type Fault = (Seq<char>, Option<(int, int)>);

pub open spec fn pos_view(p: Option<TokenPos>) -> Option<(int, int)> {
    match p {
        Some(q) => Some(q@),
        None => None,
    }
}

impl View for ParseError {
    type V = Fault;

    closed spec fn view(&self) -> Fault {
        (self.message@, pos_view(self.pos))
    }
}

/// The text by which a parse error is reported.
pub open spec fn fault_report(f: Fault) -> Seq<char> {
    match f.1 {
        Some(p) => "Parse Error ("@ + crate::text::digits_of(p.0 as nat) + seq![':'] + crate::text::digits_of(
            p.1 as nat,
        ) + seq![')', ' '] + f.0,
        None => f.0,
    }
}

impl ParseError {
    pub fn new(message: &str, pos: Option<TokenPos>) -> (r: Self)
        ensures
            r@ == (message@, pos_view(pos)),
    {
        ParseError { message: message.to_owned(), pos }
    }

    pub fn message(&self) -> (r: &str)
        ensures
            r@ == self@.0,
    {
        self.message.as_str()
    }

    pub fn pos(&self) -> (r: Option<TokenPos>)
        ensures
            pos_view(r) == self@.1,
    {
        self.pos
    }

    /// The error as reported to a user: `Parse Error (<line>:<column>) <message>`
    /// when it has a position, the bare message otherwise.
    pub fn describe(&self) -> (r: String)
        ensures
            r@ == fault_report(self@),
    {
        match self.pos {
            Some(p) => {
                let mut out = String::new();
                proof {
                    reveal_strlit("Parse Error (");
                }
                push_text(&mut out, "Parse Error (");
                push_digits(&mut out, p.line as u64);
                push_char(&mut out, ':');
                push_digits(&mut out, p.column as u64);
                push_char(&mut out, ')');
                push_char(&mut out, ' ');
                push_text(&mut out, self.message.as_str());
                assert(out@ =~= fault_report(self@));
                out
            },
            None => {
                let mut out = String::new();
                push_text(&mut out, self.message.as_str());
                assert(out@ =~= fault_report(self@));
                out
            },
        }
    }
}

/// The models of a sequence of tokens.
pub open spec fn views(ts: Seq<Token>) -> Seq<(Lexeme, (int, int))> {
    ts.map_values(|t: Token| t@)
}

pub open spec fn end_fault() -> Fault {
    ("Unexpected End of Token List"@, None)
}

pub open spec fn unclosed_fault(close: Lexeme, open: (int, int)) -> Fault {
    if close == Lexeme::RParen {
        ("Unexpected End of Token List while parsing List"@, Some(open))
    } else {
        ("Unexpected End of Token List while parsing Vector"@, Some(open))
    }
}

/// The expression that starts at token `i`, with the index just past it.
pub open spec fn parse_expr_spec(ts: Seq<(Lexeme, (int, int))>, i: int) -> Result<(Form, int), Fault>
    decreases ts.len() - i, 0nat,
{
    if !(0 <= i < ts.len()) {
        Err(end_fault())
    } else {
        let p = ts[i].1;
        match ts[i].0 {
            Lexeme::LParen => match parse_items(ts, i + 1, Lexeme::RParen, p, seq![]) {
                Ok((items, k)) => Ok((list_form(items, false), k)),
                Err(e) => Err(e),
            },
            Lexeme::LBrack => match parse_items(ts, i + 1, Lexeme::RBrack, p, seq![]) {
                Ok((items, k)) => Ok((Form::Vector(items), k)),
                Err(e) => Err(e),
            },
            Lexeme::SingleQuote => {
                if i + 1 < ts.len() {
                    if ts[i + 1].0 == Lexeme::LParen {
                        match parse_items(ts, i + 2, Lexeme::RParen, ts[i + 1].1, seq![]) {
                            Ok((items, k)) => Ok((list_form(items, true), k)),
                            Err(e) => Err(e),
                        }
                    } else {
                        Err(("Expected a list but got "@ + kind_text(ts[i + 1].0), Some(ts[i + 1].1)))
                    }
                } else {
                    Err(("Expected a list but got nothing."@, None))
                }
            },
            Lexeme::Hash => Err(("Set literals are not supported"@, Some(p))),
            Lexeme::LCurl => Err(("Map literals are not supported"@, Some(p))),
            Lexeme::Symbol(s) => Ok((Form::Symbol(s), i + 1)),
            Lexeme::Ident(s) => Ok((Form::Ident(s), i + 1)),
            Lexeme::Str(s) => Ok((Form::Str(s), i + 1)),
            Lexeme::Char(c) => Ok((Form::Char(c), i + 1)),
            Lexeme::Integer(n) => Ok((Form::Integer(n), i + 1)),
            _ => Err(("Unexpected token "@ + kind_text(ts[i].0), Some(p))),
        }
    }
}

/// The expressions from token `i` up to the token `close`, appended to `acc`,
/// with the index just past `close`; `open` is where the enclosing bracket stands.
pub open spec fn parse_items(
    ts: Seq<(Lexeme, (int, int))>,
    i: int,
    close: Lexeme,
    open: (int, int),
    acc: Seq<Form>,
) -> Result<(Seq<Form>, int), Fault>
    decreases ts.len() - i, 1nat,
{
    if !(0 <= i < ts.len()) {
        Err(unclosed_fault(close, open))
    } else if ts[i].0 == close {
        Ok((acc, i + 1))
    } else {
        match parse_expr_spec(ts, i) {
            Err(e) => Err(e),
            Ok((f, k)) => if i < k <= ts.len() {
                parse_items(ts, k, close, open, acc.push(f))
            } else {
                Err(unclosed_fault(close, open))
            },
        }
    }
}

/// The top-level expressions from token `i` to the end, appended to `acc`.
pub open spec fn parse_top(ts: Seq<(Lexeme, (int, int))>, i: int, acc: Seq<Form>) -> Result<
    Seq<Form>,
    Fault,
>
    decreases ts.len() - i,
{
    if !(0 <= i < ts.len()) {
        Ok(acc)
    } else {
        match parse_expr_spec(ts, i) {
            Err(e) => Err(e),
            Ok((f, k)) => if i < k <= ts.len() {
                parse_top(ts, k, acc.push(f))
            } else {
                Ok(acc)
            },
        }
    }
}

/// Every expression takes at least one token and stops within the sequence.
/// So the fallbacks of `parse_items` and `parse_top` for an expression that
/// would not advance are never taken; they stand only because a spec function's
/// termination cannot rest on a lemma about the function itself.
pub proof fn lemma_expr_advances(ts: Seq<(Lexeme, (int, int))>, i: int)
    ensures
        parse_expr_spec(ts, i) matches Ok((_, k)) ==> i < k <= ts.len(),
    decreases ts.len() - i, 0nat,
{
    if 0 <= i < ts.len() {
        let p = ts[i].1;
        match ts[i].0 {
            Lexeme::LParen => lemma_items_advance(ts, i + 1, Lexeme::RParen, p, seq![]),
            Lexeme::LBrack => lemma_items_advance(ts, i + 1, Lexeme::RBrack, p, seq![]),
            Lexeme::SingleQuote => {
                if i + 1 < ts.len() {
                    lemma_items_advance(ts, i + 2, Lexeme::RParen, ts[i + 1].1, seq![]);
                }
            },
            _ => {},
        }
    }
}

/// The expressions of a list or a vector end, with the closing bracket,
/// after token `i` and within the sequence.
pub proof fn lemma_items_advance(
    ts: Seq<(Lexeme, (int, int))>,
    i: int,
    close: Lexeme,
    open: (int, int),
    acc: Seq<Form>,
)
    ensures
        parse_items(ts, i, close, open, acc) matches Ok((_, k)) ==> i < k <= ts.len(),
    decreases ts.len() - i, 1nat,
{
    if 0 <= i < ts.len() && ts[i].0 != close {
        lemma_expr_advances(ts, i);
        if let Ok((f, k)) = parse_expr_spec(ts, i) {
            if i < k <= ts.len() {
                lemma_items_advance(ts, k, close, open, acc.push(f));
            }
        }
    }
}

/// A whole token sequence: the list of its top-level expressions, not quoted.
pub open spec fn parse_file_spec(ts: Seq<(Lexeme, (int, int))>) -> Result<Form, Fault> {
    match parse_top(ts, 0, seq![]) {
        Ok(items) => Ok(list_form(items, false)),
        Err(e) => Err(e),
    }
}

/// The models of a sequence of node handles.
pub open spec fn forms(v: Seq<NodePtr>) -> Seq<Form> {
    v.map_values(|p: NodePtr| p@)
}

pub open spec fn close_of(list: bool) -> Lexeme {
    if list {
        Lexeme::RParen
    } else {
        Lexeme::RBrack
    }
}

/// A parsed node: printable, and a proper list of at most `bound` cells if a list.
pub open spec fn sound_node(n: NodePtr, bound: int) -> bool {
    printable(*n) && (n@ is List ==> is_proper(n@) && list_len(n@) <= bound)
}

#[inline]
fn ptr(node: Node) -> (r: NodePtr)
    ensures
        *r == node,
{
    Rc::new(node)
}

/// A parse error whose message ends with the name of a token kind.
fn kind_fault(prefix: &str, kind: &TokenKind, pos: TokenPos) -> (r: ParseError)
    ensures
        r@ == (prefix@ + kind_text(kind@), Some(pos@)),
{
    let mut message = String::new();
    push_text(&mut message, prefix);
    let name = kind.describe();
    push_text(&mut message, name.as_str());
    ParseError { message, pos: Some(pos) }
}

/// Builds the list of `items`, from the last one to the first, with the flag
/// `literal` on every cell.
fn fold_list(items: Vec<NodePtr>, literal: bool) -> (r: NodePtr)
    ensures
        r@ == list_form(forms(items@), literal),
        (forall|i: int| 0 <= i < items@.len() ==> printable(*#[trigger] items@[i])) ==> printable(*r),
{
    let ghost all_printable = forall|i: int| 0 <= i < items@.len() ==> printable(*#[trigger] items@[i]);
    let ghost orig = items@;
    let ghost all = forms(items@);
    let mut items = items;
    let mut acc = ptr(Node::Nil);
    proof {
        assert(all.subrange(all.len() as int, all.len() as int) =~= seq![]);
    }
    while items.len() > 0
        invariant
            items.len() <= all.len(),
            forms(items@) == all.take(items.len() as int),
            acc@ == list_form(all.subrange(items.len() as int, all.len() as int), literal),
            items@ == orig.take(items.len() as int),
            all == forms(orig),
            all_printable == (forall|i: int| 0 <= i < orig.len() ==> printable(*#[trigger] orig[i])),
            all_printable ==> printable(*acc),
        decreases items.len(),
    {
        let ghost n = items.len() as int;
        match items.pop() {
            Some(h) => {
                proof {
                    assert(forms(items@) =~= all.take(n - 1));
                    assert(h@ == all.take(n)[n - 1]);
                    let rest = all.subrange(n - 1, all.len() as int);
                    assert(rest.drop_first() =~= all.subrange(n, all.len() as int));
                    assert(items@ =~= orig.take(n - 1));
                    assert(h == orig[n - 1]);
                }
                acc = ptr(Node::List(h, acc, literal));
            },
            None => {},
        }
    }
    assert(all.subrange(0, all.len() as int) =~= all);
    acc
}

/// Parses expressions from token `start` up to the closing bracket of a list
/// (`list`) or of a vector, and consumes that bracket.
fn parse_seq(tokens: &[Token], start: usize, list: bool, open: TokenPos) -> (r: Result<
    (Vec<NodePtr>, usize),
    ParseError,
>)
    requires
        start <= tokens@.len(),
    ensures
        r matches Ok((_, k)) ==> start < k <= tokens@.len(),
        r matches Ok((items, k)) ==> items@.len() <= k - start && forall|i: int|
            0 <= i < items@.len() ==> sound_node(#[trigger] items@[i], tokens@.len() as int),
        match r {
            Ok((items, k)) => parse_items(views(tokens@), start as int, close_of(list), open@, seq![])
                == Ok::<(Seq<Form>, int), Fault>((forms(items@), k as int)),
            Err(e) => parse_items(views(tokens@), start as int, close_of(list), open@, seq![])
                == Err::<(Seq<Form>, int), Fault>(e@),
        },
    decreases tokens@.len() - start, 1nat,
{
    let ghost ts = views(tokens@);
    let mut items: Vec<NodePtr> = Vec::new();
    let mut j: usize = start;
    proof {
        assert(forms(items@) =~= seq![]);
    }
    loop
        invariant
            ts == views(tokens@),
            start <= j <= tokens@.len(),
            items@.len() <= j - start,
            forall|i: int| 0 <= i < items@.len() ==> sound_node(#[trigger] items@[i], tokens@.len() as int),
            parse_items(ts, start as int, close_of(list), open@, seq![]) == parse_items(
                ts,
                j as int,
                close_of(list),
                open@,
                forms(items@),
            ),
        decreases tokens@.len() - j,
    {
        if j >= tokens.len() {
            proof {
                reveal_strlit("Unexpected End of Token List while parsing List");
            }
            if list {
                return Err(ParseError::new("Unexpected End of Token List while parsing List", Some(open)));
            } else {
                return Err(ParseError::new("Unexpected End of Token List while parsing Vector", Some(open)));
            }
        }
        let closes = match &tokens[j].0 {
            TokenKind::RParen => list,
            TokenKind::RBrack => !list,
            _ => false,
        };
        if closes {
            return Ok((items, j + 1));
        }
        match parse_expr(tokens, j) {
            Ok((node, k)) => {
                let ghost prev = forms(items@);
                items.push(node);
                assert(forms(items@) =~= prev.push(node@));
                j = k;
            },
            Err(e) => {
                return Err(e);
            },
        }
    }
}

/// Parses the elements of a list whose opening parenthesis stands at `open`,
/// and builds its cells with the flag `literal`.
fn parse_list(tokens: &[Token], start: usize, open: TokenPos, literal: bool) -> (r: Result<
    (NodePtr, usize),
    ParseError,
>)
    requires
        start <= tokens@.len(),
    ensures
        r matches Ok((_, k)) ==> start < k <= tokens@.len(),
        r matches Ok((n, _)) ==> sound_node(n, tokens@.len() as int),
        match parse_items(views(tokens@), start as int, Lexeme::RParen, open@, seq![]) {
            Ok((items, k)) => r matches Ok((n, k2)) && n@ == list_form(items, literal) && k2 == k,
            Err(e) => r matches Err(e2) && e2@ == e,
        },
    decreases tokens@.len() - start, 2nat,
{
    match parse_seq(tokens, start, true, open) {
        Ok((items, k)) => {
            proof {
                lemma_list_form(forms(items@), literal);
            }
            Ok((fold_list(items, literal), k))
        },
        Err(e) => Err(e),
    }
}

/// Parses the expression that starts at token `i`; on success, also returns
/// the index just past it.
pub fn parse_expr(tokens: &[Token], i: usize) -> (r: Result<(NodePtr, usize), ParseError>)
    requires
        i <= tokens@.len(),
    ensures
        r matches Ok((_, k)) ==> i < k <= tokens@.len(),
        r matches Ok((n, _)) ==> sound_node(n, tokens@.len() as int),
        match r {
            Ok((n, k)) => parse_expr_spec(views(tokens@), i as int) == Ok::<(Form, int), Fault>(
                (n@, k as int),
            ),
            Err(e) => parse_expr_spec(views(tokens@), i as int) == Err::<(Form, int), Fault>(e@),
        },
    decreases tokens@.len() - i, 0nat,
{
    if i >= tokens.len() {
        return Err(ParseError::new("Unexpected End of Token List", None));
    }
    let pos = tokens[i].1;
    match &tokens[i].0 {
        TokenKind::LParen => parse_list(tokens, i + 1, pos, false),
        TokenKind::LBrack => match parse_seq(tokens, i + 1, false, pos) {
            Ok((items, k)) => {
                let node = ptr(Node::Vector(items));
                proof {
                    lemma_vector_form(items);
                    lemma_vector_printable(items);
                }
                Ok((node, k))
            },
            Err(e) => Err(e),
        },
        TokenKind::SingleQuote => {
            if i + 1 < tokens.len() {
                let next_pos = tokens[i + 1].1;
                match &tokens[i + 1].0 {
                    TokenKind::LParen => parse_list(tokens, i + 2, next_pos, true),
                    kind => Err(kind_fault("Expected a list but got ", kind, next_pos)),
                }
            } else {
                Err(ParseError::new("Expected a list but got nothing.", None))
            }
        },
        TokenKind::Hash => Err(ParseError::new("Set literals are not supported", Some(pos))),
        TokenKind::LCurl => Err(ParseError::new("Map literals are not supported", Some(pos))),
        TokenKind::Symbol(s) => Ok((ptr(Node::Symbol(s.clone())), i + 1)),
        TokenKind::Ident(s) => Ok((ptr(Node::Ident(s.clone())), i + 1)),
        TokenKind::String(s) => Ok((ptr(Node::String(s.clone())), i + 1)),
        TokenKind::Char(c) => Ok((ptr(Node::Char(*c)), i + 1)),
        TokenKind::Integer(n) => Ok((ptr(Node::Integer(*n)), i + 1)),
        kind => Err(kind_fault("Unexpected token ", kind, pos)),
    }
}

/// Parses a whole token sequence into the list of its top-level
/// expressions, not quoted.
pub fn parse_file(tokens: &[Token]) -> (r: Result<NodePtr, ParseError>)
    ensures
        match r {
            Ok(n) => parse_file_spec(views(tokens@)) == Ok::<Form, Fault>(n@),
            Err(e) => parse_file_spec(views(tokens@)) == Err::<Form, Fault>(e@),
        },
        r matches Ok(n) ==> printable(*n) && is_proper(n@) && lists_proper(list_elems(n@)),
{
    let ghost ts = views(tokens@);
    let mut items: Vec<NodePtr> = Vec::new();
    let mut j: usize = 0;
    proof {
        assert(forms(items@) =~= seq![]);
    }
    while j < tokens.len()
        invariant
            ts == views(tokens@),
            j <= tokens@.len(),
            forall|i: int| 0 <= i < items@.len() ==> sound_node(#[trigger] items@[i], tokens@.len() as int),
            parse_top(ts, 0, seq![]) == parse_top(ts, j as int, forms(items@)),
        decreases tokens@.len() - j,
    {
        match parse_expr(tokens, j) {
            Ok((node, k)) => {
                let ghost prev = forms(items@);
                items.push(node);
                assert(forms(items@) =~= prev.push(node@));
                j = k;
            },
            Err(e) => {
                return Err(e);
            },
        }
    }
    proof {
        lemma_list_form(forms(items@), false);
        assert forall|i: int| 0 <= i < forms(items@).len() implies (#[trigger] forms(items@)[i] is List ==> is_proper(
            forms(items@)[i],
        ) && list_len(forms(items@)[i]) <= usize::MAX) by {
            assert(sound_node(items@[i], tokens@.len() as int));
        }
    }
    Ok(fold_list(items, false))
}

/// A list written `(e1 e2 ... en)` parses to a proper list of exactly `n`
/// cells, `n` being the number of expressions between the parentheses.
pub proof fn lemma_list_length(ts: Seq<(Lexeme, (int, int))>, i: int)
    requires
        0 <= i < ts.len(),
        ts[i].0 == Lexeme::LParen,
        parse_expr_spec(ts, i) is Ok,
    ensures
        parse_items(ts, i + 1, Lexeme::RParen, ts[i].1, seq![]) is Ok,
        is_proper(parse_expr_spec(ts, i)->Ok_0.0),
        list_len(parse_expr_spec(ts, i)->Ok_0.0) == parse_items(
            ts,
            i + 1,
            Lexeme::RParen,
            ts[i].1,
            seq![],
        )->Ok_0.0.len(),
{
    let items = parse_items(ts, i + 1, Lexeme::RParen, ts[i].1, seq![])->Ok_0.0;
    lemma_list_form(items, false);
}

/// A quoted list `'( ... )` carries the literal flag on every one of its
/// cells; an unquoted list `( ... )` on none of them.
pub proof fn lemma_literal_flags(ts: Seq<(Lexeme, (int, int))>, i: int)
    requires
        0 <= i < ts.len(),
        parse_expr_spec(ts, i) is Ok,
    ensures
        ts[i].0 == Lexeme::SingleQuote ==> all_cells(parse_expr_spec(ts, i)->Ok_0.0, true),
        ts[i].0 == Lexeme::LParen ==> all_cells(parse_expr_spec(ts, i)->Ok_0.0, false),
{
    if ts[i].0 == Lexeme::SingleQuote {
        let items = parse_items(ts, i + 2, Lexeme::RParen, ts[i + 1].1, seq![])->Ok_0.0;
        lemma_list_form(items, true);
    } else if ts[i].0 == Lexeme::LParen {
        let items = parse_items(ts, i + 1, Lexeme::RParen, ts[i].1, seq![])->Ok_0.0;
        lemma_list_form(items, false);
    }
}

/// The list of top-level expressions of a file is never quoted: none of its
/// cells carries the literal flag.
pub proof fn lemma_file_not_literal(ts: Seq<(Lexeme, (int, int))>)
    requires
        parse_file_spec(ts) is Ok,
    ensures
        all_cells(parse_file_spec(ts)->Ok_0, false),
        is_proper(parse_file_spec(ts)->Ok_0),
{
    lemma_list_form(parse_top(ts, 0, seq![])->Ok_0, false);
}

} // verus!

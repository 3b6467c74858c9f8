use vstd::prelude::*;
use crate::nodes::{Node, node_text};
use crate::parser::parse_expr_spec;
use crate::text::{digit_char, digits_of};
use crate::tokenizer::{
    digits_end, digits_value, is_digit, lemma_digits_end, lemma_digits_in_run, lemma_digits_value_grows,
    step_token,
};

verus! {

/// A decimal digit character is the character of its value.
proof fn lemma_digit_char(c: char)
    requires
        is_digit(c),
    ensures
        digit_char((c as int - '0' as int) as nat) == c,
{
    let d = c as int - '0' as int;
    if d == 0 { assert(c == '0'); }
    else if d == 1 { assert(c == '1'); }
    else if d == 2 { assert(c == '2'); }
    else if d == 3 { assert(c == '3'); }
    else if d == 4 { assert(c == '4'); }
    else if d == 5 { assert(c == '5'); }
    else if d == 6 { assert(c == '6'); }
    else if d == 7 { assert(c == '7'); }
    else if d == 8 { assert(c == '8'); }
    else { assert(c == '9'); }
}

/// A run of digits without a leading zero is the decimal text of its value.
proof fn lemma_digits_text(s: Seq<char>, j: int, m: int)
    requires
        0 <= j < m <= digits_end(s, j),
        s[j] == '0' ==> m == j + 1,
    ensures
        digits_of(digits_value(s, j, m) as nat) == s.subrange(j, m),
    decreases m - j,
{
    lemma_digits_in_run(s, j, m - 1);
    lemma_digit_char(s[m - 1]);
    let d = s[m - 1] as int - '0' as int;
    if m == j + 1 {
        assert(digits_value(s, j, j) == 0);
        assert(s.subrange(j, m) =~= seq![s[j]]);
    } else {
        lemma_digits_text(s, j, m - 1);
        lemma_digits_in_run(s, j, j);
        lemma_digits_value_grows(s, j, j + 1, m - 1);
        assert(digits_value(s, j, j) == 0);
        assert(digits_value(s, j, j + 1) == s[j] as int - '0' as int);
        let a = digits_value(s, j, m - 1);
        assert(a >= 1);
        assert((a * 10 + d) / 10 == a && (a * 10 + d) % 10 == d && a * 10 + d >= 10) by (nonlinear_arith)
            requires
                a >= 1,
                0 <= d < 10,
        ;
        assert(s.subrange(j, m) =~= s.subrange(j, m - 1).push(s[m - 1]));
    }
}

/// Printing the node that a single atom token parses to gives back the text
/// of that token: for a symbol, an identifier, a string, a character, and an
/// integer written without a leading zero. The token starts at index `j` of
/// `s`, stands at any position `p`, and is parsed on its own.
pub proof fn lemma_atom_round_trip(s: Seq<char>, j: int, p: (int, int), n: Node)
    requires
        0 <= j < s.len(),
        step_token(s, j) is Ok,
        parse_expr_spec(seq![(step_token(s, j)->Ok_0.0, p)], 0) == Ok::<
            (crate::nodes::Form, int),
            crate::parser::Fault,
        >((n@, 1)),
        s[j] == '0' ==> step_token(s, j)->Ok_0.1 == j + 1,
    ensures
        node_text(n) == s.subrange(j, step_token(s, j)->Ok_0.1),
{
    crate::tokenizer::lemma_step_advances(s, j);
    let c = s[j];
    let k = step_token(s, j)->Ok_0.1;
    if is_digit(c) && !(crate::tokenizer::is_letter(c) || c == ':') {
        lemma_digits_end(s, j);
        lemma_digits_end(s, j + 1);
        assert(digits_end(s, j) == digits_end(s, j + 1));
        lemma_digits_value_grows(s, j, j, k);
        lemma_digits_text(s, j, k);
    } else if c == '"' {
        crate::tokenizer::lemma_quote_end(s, j + 1);
        assert(s.subrange(j, k) =~= seq!['"'] + s.subrange(j + 1, k - 1) + seq!['"']);
    } else if c == '\\' {
        assert(s.subrange(j, k) =~= seq!['\\', s[j + 1]]);
    }
}

} // verus!

use vstd::prelude::*;

verus! {

/// A place in source text: line and column, both counted from 1.
#[derive(Debug, Clone, Copy, PartialEq, Eq, Structural)]
pub struct TokenPos {
    pub line: usize,
    pub column: usize,
}

impl View for TokenPos {
    type V = (int, int);

    open spec fn view(&self) -> (int, int) {
        (self.line as int, self.column as int)
    }
}

/// The position reached after consuming the first `i` characters of `s`:
/// a newline moves to column 1 of the next line, any other character one
/// column to the right.
pub open spec fn pos_at(s: Seq<char>, i: int) -> (int, int)
    decreases i,
{
    if i <= 0 {
        (1, 1)
    } else {
        let p = pos_at(s, i - 1);
        if s[i - 1] == '\n' {
            (p.0 + 1, 1)
        } else {
            (p.0, p.1 + 1)
        }
    }
}

/// Both coordinates of `pos_at(s, i)` stay within `1 ..= i + 1`.
pub proof fn lemma_pos_bounds(s: Seq<char>, i: int)
    requires
        0 <= i,
    ensures
        1 <= pos_at(s, i).0 <= i + 1,
        1 <= pos_at(s, i).1 <= i + 1,
    decreases i,
{
    if i > 0 {
        lemma_pos_bounds(s, i - 1);
    }
}

} // verus!

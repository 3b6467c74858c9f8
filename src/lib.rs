//! Front end of a small Lisp: a tokenizer that tracks line and column, a
//! recursive-descent parser into shared immutable nodes, printing of nodes
//! back to surface text, and the `add` builtin with a minimal evaluator of
//! top-level forms.
//!
//! Each stage is stated as a spec function (`lex`, `parse_file_spec`,
//! `node_text`, `eval_all`) and the executable code is proved to compute it.

pub mod pos;
pub mod text;
pub mod tokens;
pub mod tokenizer;
pub mod nodes;
pub mod parser;
pub mod eval;
pub mod round_trip;

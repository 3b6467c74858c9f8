use vstd::prelude::*;
use std::rc::Rc;
use crate::text::{int_text, push_char, push_int, push_text};

verus! {

/// The value of a node: a tree of plain values.
pub enum Form {
    Nil,
    List(Box<Form>, Box<Form>, bool),
    Vector(Seq<Form>),
    HashSet(Seq<Form>),
    HashMap(Seq<(Form, Form)>),
    Symbol(Seq<char>),
    Ident(Seq<char>),
    Str(Seq<char>),
    Char(char),
    Integer(int),
}

/// A node of the syntax tree. Nodes are immutable once built and shared
/// through reference-counted handles.
#[derive(Debug, Hash)]
pub enum Node {
    Nil,
    /// A cons cell: head, tail (`Nil` or another cell) and whether the list
    /// is quoted data rather than a call.
    List(NodePtr, NodePtr, bool),
    Vector(Vec<NodePtr>),
    HashSet(Vec<NodePtr>),
    HashMap(Vec<(NodePtr, NodePtr)>),
    Symbol(String),
    Ident(String),
    String(String),
    Char(char),
    Integer(i64),
}

pub type NodePtr = Rc<Node>;

pub open spec fn form_of(n: Node) -> Form
    decreases n,
{
    match n {
        Node::Nil => Form::Nil,
        Node::List(h, t, l) => Form::List(Box::new(form_of(*h)), Box::new(form_of(*t)), l),
        Node::Vector(v) => Form::Vector(
            Seq::new(v.len() as nat, |i: int| if 0 <= i < v.len() { form_of(*v[i]) } else { Form::Nil }),
        ),
        Node::HashSet(v) => Form::HashSet(
            Seq::new(v.len() as nat, |i: int| if 0 <= i < v.len() { form_of(*v[i]) } else { Form::Nil }),
        ),
        Node::HashMap(v) => Form::HashMap(
            Seq::new(
                v.len() as nat,
                |i: int|
                    if 0 <= i < v.len() {
                        (form_of(*v[i].0), form_of(*v[i].1))
                    } else {
                        (Form::Nil, Form::Nil)
                    },
            ),
        ),
        Node::Symbol(s) => Form::Symbol(s@),
        Node::Ident(s) => Form::Ident(s@),
        Node::String(s) => Form::Str(s@),
        Node::Char(c) => Form::Char(c),
        Node::Integer(n) => Form::Integer(n as int),
    }
}

impl View for Node {
    type V = Form;

    open spec fn view(&self) -> Form {
        form_of(*self)
    }
}

/// A proper list: `Nil`, or a cell whose tail is a proper list.
pub open spec fn is_proper(f: Form) -> bool
    decreases f,
{
    match f {
        Form::Nil => true,
        Form::List(_, t, _) => is_proper(*t),
        _ => false,
    }
}

/// The number of cells of a chain of cells.
pub open spec fn list_len(f: Form) -> nat
    decreases f,
{
    match f {
        Form::List(_, t, _) => 1 + list_len(*t),
        _ => 0,
    }
}

/// The heads of a chain of cells, in order.
pub open spec fn list_elems(f: Form) -> Seq<Form>
    decreases f,
{
    match f {
        Form::List(h, t, _) => seq![*h] + list_elems(*t),
        _ => seq![],
    }
}

/// The proper list of `items`, with the flag `literal` on every cell.
pub open spec fn list_form(items: Seq<Form>, literal: bool) -> Form
    decreases items.len(),
{
    if items.len() == 0 {
        Form::Nil
    } else {
        Form::List(Box::new(items[0]), Box::new(list_form(items.drop_first(), literal)), literal)
    }
}

/// Every cell of a chain of cells carries the flag `literal`.
pub open spec fn all_cells(f: Form, literal: bool) -> bool
    decreases f,
{
    match f {
        Form::List(_, t, l) => l == literal && all_cells(*t, literal),
        _ => true,
    }
}

/// A tree holds no set and no map.
pub open spec fn printable(n: Node) -> bool
    decreases n,
{
    match n {
        Node::List(h, t, _) => printable(*h) && printable(*t),
        Node::Vector(v) => forall|i: int| 0 <= i < v.len() ==> printable(*#[trigger] v[i]),
        Node::HashSet(_) => false,
        Node::HashMap(_) => false,
        _ => true,
    }
}

/// The surface text of a tree: `(a b c)` for a list, `[a b c]` for a vector,
/// strings in double quotes, characters after a backslash, atoms verbatim and
/// integers in decimal. The quote of a literal list is not written.
pub open spec fn node_text(n: Node) -> Seq<char>
    decreases n, 0nat,
{
    match n {
        Node::Nil => "Nil"@,
        Node::List(h, t, _) => seq!['('] + node_text(*h) + tail_text(*t) + seq![')'],
        Node::Vector(v) => seq!['['] + items_text(v, v.len() as nat) + seq![']'],
        Node::HashSet(_) => seq![],
        Node::HashMap(_) => seq![],
        Node::Symbol(s) => s@,
        Node::Ident(s) => s@,
        Node::String(s) => seq!['"'] + s@ + seq!['"'],
        Node::Char(c) => seq!['\\', c],
        Node::Integer(k) => int_text(k as int),
    }
}

/// The text of the cells that follow the first one of a list, each after a space.
pub open spec fn tail_text(n: Node) -> Seq<char>
    decreases n, 0nat,
{
    match n {
        Node::List(h, t, _) => seq![' '] + node_text(*h) + tail_text(*t),
        _ => seq![],
    }
}

/// The texts of the first `k` elements of a vector, joined by single spaces.
pub open spec fn items_text(v: Vec<NodePtr>, k: nat) -> Seq<char>
    decreases v, k,
{
    if k == 0 || k > v.len() {
        seq![]
    } else if k == 1 {
        node_text(*v[0])
    } else {
        items_text(v, (k - 1) as nat) + seq![' '] + node_text(*v[k - 1])
    }
}

impl Node {
    pub fn is_list(&self) -> (r: bool)
        ensures
            r == (self@ is List),
    {
        match self {
            Node::List(_, _, _) => true,
            _ => false,
        }
    }

    /// The number of cells of a list, or of elements of a vector or a set;
    /// `None` for the other kinds.
    pub fn len(&self) -> (r: Option<usize>)
        requires
            self@ is List ==> is_proper(self@) && list_len(self@) <= usize::MAX,
        ensures
            r == match self@ {
                Form::List(_, _, _) => Some(list_len(self@) as usize),
                Form::Vector(items) => Some(items.len() as usize),
                Form::HashSet(items) => Some(items.len() as usize),
                _ => None::<usize>,
            },
    {
        match self {
            Node::List(_, tail, _) => {
                let mut count: usize = 1;
                let mut cur: &Node = &**tail;
                loop
                    invariant
                        count as int + list_len(cur@) == list_len(self@),
                        is_proper(cur@),
                        list_len(self@) <= usize::MAX,
                    ensures
                        count as int == list_len(self@),
                    decreases list_len(cur@),
                {
                    match cur {
                        Node::List(_, t, _) => {
                            count = count + 1;
                            cur = &**t;
                        },
                        _ => {
                            break;
                        },
                    }
                }
                Some(count)
            },
            Node::Vector(v) => Some(v.len()),
            Node::HashSet(v) => Some(v.len()),
            _ => None,
        }
    }

    /// The surface text of the node.
    pub fn to_text(&self) -> (r: String)
        requires
            printable(*self),
        ensures
            r@ == node_text(*self),
    {
        let mut out = String::new();
        self.write_text(&mut out);
        out
    }

    fn write_text(&self, out: &mut String)
        requires
            printable(*self),
        ensures
            final(out)@ == old(out)@ + node_text(*self),
        decreases self,
    {
        match self {
            Node::Nil => {
                proof {
                    reveal_strlit("Nil");
                }
                push_text(out, "Nil");
                assert(final(out)@ =~= old(out)@ + node_text(*self));
            },
            Node::List(h, t, _) => {
                push_char(out, '(');
                h.write_text(out);
                write_tail(t, out);
                push_char(out, ')');
            },
            Node::Vector(v) => {
                let ghost start = out@;
                push_char(out, '[');
                let mut i: usize = 0;
                while i < v.len()
                    invariant
                        i <= v.len(),
                        printable(*self),
                        *self == Node::Vector(*v),
                        out@ == start + seq!['['] + items_text(*v, i as nat),
                    decreases v.len() - i,
                {
                    if i > 0 {
                        push_char(out, ' ');
                    }
                    proof {
                        lemma_vector_item(*self, i as int);
                    }
                    v[i].write_text(out);
                    assert(out@ =~= start + seq!['['] + items_text(*v, (i + 1) as nat));
                    i = i + 1;
                }
                push_char(out, ']');
                assert(out@ =~= start + node_text(*self));
            },
            Node::Symbol(s) => {
                push_text(out, s.as_str());
            },
            Node::Ident(s) => {
                push_text(out, s.as_str());
            },
            Node::String(s) => {
                push_char(out, '"');
                push_text(out, s.as_str());
                push_char(out, '"');
            },
            Node::Char(c) => {
                push_char(out, '\\');
                push_char(out, *c);
            },
            Node::Integer(n) => {
                push_int(out, *n);
            },
            Node::HashSet(_) => {},
            Node::HashMap(_) => {},
        }
    }
}

/// Writes the cells that follow the first one of a list, each after a space.
fn write_tail(node: &Node, out: &mut String)
    requires
        printable(*node),
    ensures
        final(out)@ == old(out)@ + tail_text(*node),
    decreases node,
{
    match node {
        Node::List(h, t, _) => {
            push_char(out, ' ');
            h.write_text(out);
            write_tail(t, out);
            assert(final(out)@ =~= old(out)@ + tail_text(*node));
        },
        _ => {
            assert(final(out)@ =~= old(out)@ + tail_text(*node));
        },
    }
}

proof fn lemma_vector_item(n: Node, k: int)
    requires
        n is Vector,
        printable(n),
        0 <= k < n->Vector_0.len(),
    ensures
        printable(*n->Vector_0[k]),
        decreases_to!(n => *n->Vector_0[k]),
{
    broadcast use vstd::std_specs::vec::axiom_vec_index_decreases;
}

impl PartialEq for Node {
    /// Equal values among `Nil`, symbols, identifiers and integers; every
    /// other node is unequal to everything, itself included.
    fn eq(&self, other: &Node) -> (r: bool) {
        match (self, other) {
            (Node::Nil, Node::Nil) => true,
            (Node::Symbol(a), Node::Symbol(b)) => *a == *b,
            (Node::Ident(a), Node::Ident(b)) => *a == *b,
            (Node::Integer(a), Node::Integer(b)) => *a == *b,
            _ => false,
        }
    }
}

/// Node equality: defined for `Nil`, symbols, identifiers and integers only.
pub open spec fn node_eq(a: Form, b: Form) -> bool {
    match (a, b) {
        (Form::Nil, Form::Nil) => true,
        (Form::Symbol(x), Form::Symbol(y)) => x == y,
        (Form::Ident(x), Form::Ident(y)) => x == y,
        (Form::Integer(x), Form::Integer(y)) => x == y,
        _ => false,
    }
}

impl vstd::std_specs::cmp::PartialEqSpecImpl for Node {
    open spec fn obeys_eq_spec() -> bool {
        true
    }

    open spec fn eq_spec(&self, other: &Node) -> bool {
        node_eq(self@, other@)
    }
}

/// A forward walk over the elements of a list.
pub struct NodeIter {
    node: NodePtr,
}

impl View for NodeIter {
    type V = Seq<Form>;

    /// The elements not yet handed out.
    closed spec fn view(&self) -> Seq<Form> {
        list_elems(self.node@)
    }
}

impl NodeIter {
    /// The rest of the walk is a proper list.
    pub closed spec fn proper(&self) -> bool {
        is_proper(self.node@)
    }

    /// Hands out the next element, or `None` at the end of the list.
    pub fn next(&mut self) -> (r: Option<NodePtr>)
        requires
            old(self).proper(),
        ensures
            final(self).proper(),
            old(self)@.len() == 0 ==> r is None && final(self)@ == old(self)@,
            old(self)@.len() > 0 ==> r is Some && r->0@ == old(self)@[0] && final(self)@
                == old(self)@.drop_first(),
    {
        let cur = self.node.clone();
        match &*cur {
            Node::List(h, t, _) => {
                self.node = t.clone();
                assert(list_elems(cur@) =~= seq![h@] + list_elems(t@));
                Some(h.clone())
            },
            _ => None,
        }
    }
}

/// Walking a list without copying its elements.
pub trait IntoListIter {
    spec fn list_view(&self) -> Seq<Form>;

    spec fn list_ok(&self) -> bool;

    fn list_iter(&self) -> (r: NodeIter)
        ensures
            r@ == self.list_view(),
            r.proper() == self.list_ok(),
    ;
}

impl IntoListIter for NodePtr {
    open spec fn list_view(&self) -> Seq<Form> {
        list_elems((**self)@)
    }

    open spec fn list_ok(&self) -> bool {
        is_proper((**self)@)
    }

    fn list_iter(&self) -> (r: NodeIter) {
        NodeIter { node: self.clone() }
    }
}

/// The model of a vector node holds the models of its elements, in order.
pub proof fn lemma_vector_form(v: Vec<NodePtr>)
    ensures
        form_of(Node::Vector(v)) == Form::Vector(v@.map_values(|p: NodePtr| p@)),
{
    broadcast use vstd::std_specs::vec::axiom_vec_index_decreases;

    let items = form_of(Node::Vector(v))->Vector_0;
    assert(items =~= v@.map_values(|p: NodePtr| p@));
}

/// The list built from `items` is proper, has one cell per item, holds the
/// items in order and carries its flag on every cell.
pub proof fn lemma_list_form(items: Seq<Form>, literal: bool)
    ensures
        is_proper(list_form(items, literal)),
        list_len(list_form(items, literal)) == items.len(),
        list_elems(list_form(items, literal)) == items,
        all_cells(list_form(items, literal), literal),
    decreases items.len(),
{
    if items.len() > 0 {
        lemma_list_form(items.drop_first(), literal);
        assert(items =~= seq![items[0]] + items.drop_first());
    } else {
        assert(list_elems(list_form(items, literal)) =~= items);
    }
}

/// A vector node is printable when all its elements are.
pub proof fn lemma_vector_printable(v: Vec<NodePtr>)
    requires
        forall|i: int| 0 <= i < v.len() ==> printable(*#[trigger] v[i]),
    ensures
        printable(Node::Vector(v)),
{
    broadcast use vstd::std_specs::vec::axiom_vec_index_decreases;
}

/// Every list among `forms` is proper and short enough to be counted.
pub open spec fn lists_proper(forms: Seq<Form>) -> bool {
    forall|i: int|
        0 <= i < forms.len() ==> (#[trigger] forms[i] is List ==> is_proper(forms[i]) && list_len(forms[i])
            <= usize::MAX)
}

} // verus!

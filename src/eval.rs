use vstd::prelude::*;
use std::rc::Rc;
use crate::nodes::{Form, Node, NodePtr, is_proper, list_elems, list_len, lists_proper, printable};
use crate::text::{digits_of, push_digits, push_text};

verus! {

/// A failure while evaluating.
#[derive(Debug)]
pub struct EvalError {
    message: String,
}

impl View for EvalError {
    type V = Seq<char>;

    closed spec fn view(&self) -> Seq<char> {
        self.message@
    }
}

impl EvalError {
    pub fn new(message: &str) -> (r: Self)
        ensures
            r@ == message@,
    {
        EvalError { message: message.to_owned() }
    }

    pub fn message(&self) -> (r: &str)
        ensures
            r@ == self@,
    {
        self.message.as_str()
    }

    /// The error as reported to a user: `Eval Error: <message>`.
    pub fn describe(&self) -> (r: String)
        ensures
            r@ == "Eval Error: "@ + self@,
    {
        let mut out = String::new();
        push_text(&mut out, "Eval Error: ");
        push_text(&mut out, self.message.as_str());
        out
    }
}

/// The native operations that a call form can name.
#[derive(Debug, Clone, Copy, PartialEq, Eq, Structural)]
pub enum Builtin {
    /// Integer addition of exactly two arguments.
    Add,
}

/// What `add` gives for its argument list.
pub open spec fn add_spec(args: Form) -> Result<Form, Seq<char>> {
    let elems = list_elems(args);
    if elems.len() != 2 {
        Err("Expected 2 arguments but got "@ + digits_of(elems.len()))
    } else {
        match (elems[0], elems[1]) {
            (Form::Integer(a), Form::Integer(b)) => if i64::MIN <= a + b <= i64::MAX {
                Ok(Form::Integer(a + b))
            } else {
                Err("add: integer overflow"@)
            },
            _ => Err("add: invalid argument types"@),
        }
    }
}

pub open spec fn builtin_spec(b: Builtin, args: Form) -> Result<Form, Seq<char>> {
    match b {
        Builtin::Add => add_spec(args),
    }
}

/// Adds two integers; fails on any other number or kind of arguments.
pub fn add(args: &NodePtr) -> (r: Result<NodePtr, EvalError>)
    requires
        is_proper(args@),
        list_len(args@) <= usize::MAX,
    ensures
        r matches Ok(n) ==> printable(*n),
        match add_spec(args@) {
            Ok(f) => r matches Ok(n) && n@ == f,
            Err(m) => r matches Err(e) && e@ == m,
        },
{
    proof {
        lemma_elems_len(args@);
    }
    let count = match args.len() {
        Some(n) => n,
        None => 0,
    };
    if count != 2 {
        let mut message = String::new();
        push_text(&mut message, "Expected 2 arguments but got ");
        push_digits(&mut message, count as u64);
        assert(message@ =~= "Expected 2 arguments but got "@ + digits_of(list_elems(args@).len()));
        return Err(EvalError { message });
    }
    proof {
        reveal_with_fuel(list_elems, 3);
    }
    match &**args {
        Node::List(first, rest, _) => match &**rest {
            Node::List(second, tail, _) => match (&**first, &**second) {
                (Node::Integer(a), Node::Integer(b)) => {
                    assert(rest@ == Form::List(Box::new(second@), Box::new(tail@), rest@->List_2));
                    assert(list_elems(rest@) == seq![second@] + list_elems(tail@));
                    assert(list_elems(args@) == seq![first@] + list_elems(rest@));
                    assert(list_elems(args@)[1] == second@);
                    let sum = (*a as i128) + (*b as i128);
                    if sum < i64::MIN as i128 || sum > i64::MAX as i128 {
                        Err(EvalError::new("add: integer overflow"))
                    } else {
                        Ok(Rc::new(Node::Integer(sum as i64)))
                    }
                },
                _ => Err(EvalError::new("add: invalid argument types")),
            },
            _ => Err(EvalError::new("add: invalid argument types")),
        },
        _ => Err(EvalError::new("add: invalid argument types")),
    }
}

/// `add` on two integers gives their sum when it fits in an `i64`; on two
/// arguments that are not both integers it fails; on any other number of
/// arguments it fails with a message that names that number.
pub proof fn lemma_add_laws(args: Form)
    requires
        is_proper(args),
    ensures
        list_elems(args).len() != 2 ==> add_spec(args) == Err::<Form, Seq<char>>(
            "Expected 2 arguments but got "@ + digits_of(list_elems(args).len()),
        ),
        list_elems(args).len() == 2 && list_elems(args)[0] is Integer && list_elems(args)[1] is Integer
            && i64::MIN <= list_elems(args)[0]->Integer_0 + list_elems(args)[1]->Integer_0 <= i64::MAX
            ==> add_spec(args) == Ok::<Form, Seq<char>>(
            Form::Integer(list_elems(args)[0]->Integer_0 + list_elems(args)[1]->Integer_0),
        ),
        list_elems(args).len() == 2 && !(list_elems(args)[0] is Integer && list_elems(args)[1] is Integer)
            ==> add_spec(args) is Err,
{
}

proof fn lemma_elems_len(f: Form)
    ensures
        list_elems(f).len() == list_len(f),
    decreases f,
{
    if let Form::List(_, t, _) = f {
        lemma_elems_len(*t);
    }
}

/// The builtin registered last under `name`, if any.
pub open spec fn lookup_builtin(reg: Seq<(Seq<char>, Builtin)>, name: Seq<char>) -> Option<Builtin>
    decreases reg.len(),
{
    if reg.len() == 0 {
        None
    } else if reg.last().0 == name {
        Some(reg.last().1)
    } else {
        lookup_builtin(reg.drop_last(), name)
    }
}

/// The value bound last to `name`, if any.
pub open spec fn lookup_var(vars: Seq<(Seq<char>, Form)>, name: Seq<char>) -> Option<Form>
    decreases vars.len(),
{
    if vars.len() == 0 {
        None
    } else if vars.last().0 == name {
        Some(vars.last().1)
    } else {
        lookup_var(vars.drop_last(), name)
    }
}

/// The registry that every main context starts with.
pub open spec fn default_registry() -> Seq<(Seq<char>, Builtin)> {
    seq![("add"@, Builtin::Add)]
}

/// The registry of builtins, shared by a context and all its children.
#[derive(Debug)]
pub struct RootContext {
    builtins: Vec<(String, Builtin)>,
}

impl View for RootContext {
    type V = Seq<(Seq<char>, Builtin)>;

    closed spec fn view(&self) -> Seq<(Seq<char>, Builtin)> {
        self.builtins@.map_values(|e: (String, Builtin)| (e.0@, e.1))
    }
}

/// Registers the builtins of the language.
pub fn populate_builtins(builtins: &mut Vec<(String, Builtin)>)
    ensures
        final(builtins)@.len() == old(builtins)@.len() + 1,
        final(builtins)@.drop_last() == old(builtins)@,
        final(builtins)@.last().0@ == "add"@,
        final(builtins)@.last().1 == Builtin::Add,
{
    builtins.push(("add".to_owned(), Builtin::Add));
    assert(builtins@.drop_last() =~= old(builtins)@);
}

impl RootContext {
    pub fn new() -> (r: Self)
        ensures
            r@ == default_registry(),
    {
        let mut builtins: Vec<(String, Builtin)> = Vec::new();
        populate_builtins(&mut builtins);
        let r = RootContext { builtins };
        assert(r@ =~= default_registry());
        r
    }

    pub fn get_builtin(&self, name: &str) -> (r: Option<Builtin>)
        ensures
            r == lookup_builtin(self@, name@),
    {
        let key = name.to_owned();
        let mut i: usize = self.builtins.len();
        assert(self@.take(i as int) =~= self@);
        while i > 0
            invariant
                i <= self.builtins.len(),
                key@ == name@,
                lookup_builtin(self@, name@) == lookup_builtin(self@.take(i as int), name@),
            decreases i,
        {
            let ghost prefix = self@.take(i as int);
            assert(prefix.drop_last() =~= self@.take(i - 1));
            if self.builtins[i - 1].0 == key {
                return Some(self.builtins[i - 1].1);
            }
            i = i - 1;
        }
        None
    }

    pub fn insert_builtin(&mut self, name: String, builtin: Builtin)
        ensures
            final(self)@ == old(self)@.push((name@, builtin)),
    {
        self.builtins.push((name, builtin));
        assert(self@ =~= old(self)@.push((name@, builtin)));
    }
}

/// A scope of variables, with its parent scope and the shared registry.
#[derive(Debug)]
pub struct EvalContext {
    variables: Vec<(String, NodePtr)>,
    parent: Option<Rc<EvalContext>>,
    root: Rc<RootContext>,
}

impl EvalContext {
    /// The bindings of this scope, oldest first.
    pub closed spec fn vars(&self) -> Seq<(Seq<char>, Form)> {
        self.variables@.map_values(|e: (String, NodePtr)| (e.0@, e.1@))
    }

    /// The registry of builtins.
    pub closed spec fn registry(&self) -> Seq<(Seq<char>, Builtin)> {
        self.root@
    }

    pub closed spec fn has_parent(&self) -> bool {
        self.parent is Some
    }

    pub fn new_main() -> (r: Self)
        ensures
            r.vars() == Seq::<(Seq<char>, Form)>::empty(),
            r.registry() == default_registry(),
            !r.has_parent(),
    {
        let r = EvalContext { variables: Vec::new(), parent: None, root: Rc::new(RootContext::new()) };
        assert(r.vars() =~= Seq::<(Seq<char>, Form)>::empty());
        r
    }

    pub fn new_child(parent: &Rc<Self>) -> (r: Self)
        ensures
            r.vars() == Seq::<(Seq<char>, Form)>::empty(),
            r.registry() == parent.registry(),
            r.has_parent(),
    {
        let r = EvalContext {
            variables: Vec::new(),
            parent: Some(parent.clone()),
            root: parent.root.clone(),
        };
        assert(r.vars() =~= Seq::<(Seq<char>, Form)>::empty());
        r
    }

    /// The value bound last to `name` in this scope.
    pub fn get_var(&self, name: &str) -> (r: Option<&NodePtr>)
        ensures
            match lookup_var(self.vars(), name@) {
                Some(f) => r matches Some(p) && p@ == f,
                None => r is None,
            },
    {
        let key = name.to_owned();
        let mut i: usize = self.variables.len();
        assert(self.vars().take(i as int) =~= self.vars());
        while i > 0
            invariant
                i <= self.variables.len(),
                key@ == name@,
                lookup_var(self.vars(), name@) == lookup_var(self.vars().take(i as int), name@),
            decreases i,
        {
            let ghost prefix = self.vars().take(i as int);
            assert(prefix.drop_last() =~= self.vars().take(i - 1));
            if self.variables[i - 1].0 == key {
                return Some(&self.variables[i - 1].1);
            }
            i = i - 1;
        }
        None
    }

    /// Binds `name` to `value` in this scope; a later binding hides an earlier one.
    pub fn set_var(&mut self, name: &str, value: NodePtr)
        ensures
            final(self).vars() == old(self).vars().push((name@, value@)),
            final(self).registry() == old(self).registry(),
            final(self).has_parent() == old(self).has_parent(),
    {
        self.variables.push((name.to_owned(), value));
        assert(self.vars() =~= old(self).vars().push((name@, value@)));
    }

    pub fn parent(&self) -> (r: &Option<Rc<EvalContext>>)
        ensures
            r is Some == self.has_parent(),
    {
        &self.parent
    }

    pub fn root(&self) -> (r: &RootContext)
        ensures
            r@ == self.registry(),
    {
        &self.root
    }
}

/// A call of `head` on the argument list `args`.
pub open spec fn call_spec(reg: Seq<(Seq<char>, Builtin)>, head: Form, args: Form) -> Result<Form, Seq<char>> {
    match head {
        Form::Symbol(name) => match lookup_builtin(reg, name) {
            Some(b) => builtin_spec(b, args),
            None => Err("Function '"@ + name + "' not found"@),
        },
        Form::List(_, _, _) => Err("Calling a list is not supported"@),
        _ => Err("Node is not a function"@),
    }
}

/// The value of one form: an unquoted list is a call, anything else stands
/// for itself.
pub open spec fn eval_spec(reg: Seq<(Seq<char>, Builtin)>, f: Form) -> Result<Form, Seq<char>> {
    match f {
        Form::List(h, t, literal) => if literal {
            Ok(f)
        } else {
            call_spec(reg, *h, *t)
        },
        _ => Ok(f),
    }
}

/// The forms evaluated in order; the value of the last one, or `last` when
/// there are none.
pub open spec fn eval_all(reg: Seq<(Seq<char>, Builtin)>, forms: Seq<Form>, last: Form) -> Result<Form, Seq<char>>
    decreases forms.len(),
{
    if forms.len() == 0 {
        Ok(last)
    } else {
        match eval_spec(reg, forms[0]) {
            Ok(v) => eval_all(reg, forms.drop_first(), v),
            Err(e) => Err(e),
        }
    }
}

fn call(context: &mut EvalContext, head: &NodePtr, args: &NodePtr) -> (r: Result<NodePtr, EvalError>)
    requires
        is_proper(args@),
        list_len(args@) < usize::MAX,
    ensures
        final(context).registry() == old(context).registry(),
        r matches Ok(n) ==> printable(*n),
        match call_spec(old(context).registry(), head@, args@) {
            Ok(f) => r matches Ok(n) && n@ == f,
            Err(m) => r matches Err(e) && e@ == m,
        },
{
    match &**head {
        Node::Symbol(name) => match context.root().get_builtin(name.as_str()) {
            Some(Builtin::Add) => crate::eval::add(args),
            None => {
                let mut message = String::new();
                push_text(&mut message, "Function '");
                push_text(&mut message, name.as_str());
                push_text(&mut message, "' not found");
                assert(message@ =~= "Function '"@ + name@ + "' not found"@);
                Err(EvalError { message })
            },
        },
        Node::List(_, _, _) => Err(EvalError::new("Calling a list is not supported")),
        _ => Err(EvalError::new("Node is not a function")),
    }
}

fn eval_expr(context: &mut EvalContext, node: &NodePtr) -> (r: Result<NodePtr, EvalError>)
    requires
        node@ is List ==> is_proper(node@) && list_len(node@) <= usize::MAX,
    ensures
        final(context).registry() == old(context).registry(),
        printable(**node) ==> (r matches Ok(n) ==> printable(*n)),
        match eval_spec(old(context).registry(), node@) {
            Ok(f) => r matches Ok(n) && n@ == f,
            Err(m) => r matches Err(e) && e@ == m,
        },
{
    match &**node {
        Node::List(head, args, literal) => {
            if *literal {
                Ok(node.clone())
            } else {
                call(context, head, args)
            }
        },
        _ => Ok(node.clone()),
    }
}

/// Evaluates the top-level forms of a file in order and returns the value of
/// the last one, or `Nil` for an empty file; stops at the first error.
pub fn eval_file(context: &mut EvalContext, node: &NodePtr) -> (r: Result<NodePtr, EvalError>)
    requires
        is_proper(node@),
        lists_proper(list_elems(node@)),
    ensures
        final(context).registry() == old(context).registry(),
        printable(**node) ==> (r matches Ok(n) ==> printable(*n)),
        match eval_all(old(context).registry(), list_elems(node@), Form::Nil) {
            Ok(f) => r matches Ok(n) && n@ == f,
            Err(m) => r matches Err(e) && e@ == m,
        },
{
    let ghost reg = context.registry();
    let mut result: NodePtr = Rc::new(Node::Nil);
    let mut cur: &Node = &**node;
    loop
        invariant
            context.registry() == reg,
            reg == old(context).registry(),
            is_proper(cur@),
            lists_proper(list_elems(cur@)),
            printable(**node) ==> printable(*cur) && printable(*result),
            eval_all(reg, list_elems(node@), Form::Nil) == eval_all(reg, list_elems(cur@), result@),
        decreases list_len(cur@),
    {
        match cur {
            Node::List(head, tail, _) => {
                proof {
                    assert(list_elems(cur@) == seq![head@] + list_elems(tail@));
                    assert(list_elems(cur@)[0] == head@);
                    assert(list_elems(cur@).drop_first() =~= list_elems(tail@));
                    assert(lists_proper(list_elems(tail@))) by {
                        assert forall|i: int| 0 <= i < list_elems(tail@).len() implies (#[trigger] list_elems(
                            tail@,
                        )[i] is List ==> is_proper(list_elems(tail@)[i]) && list_len(list_elems(tail@)[i])
                            <= usize::MAX) by {
                            assert(list_elems(tail@)[i] == list_elems(cur@)[i + 1]);
                        }
                    }
                }
                match eval_expr(context, head) {
                    Ok(v) => {
                        result = v;
                    },
                    Err(e) => {
                        return Err(e);
                    },
                }
                cur = &**tail;
            },
            _ => {
                return Ok(result);
            },
        }
    }
}

} // verus!

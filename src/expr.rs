//! The expression model shared by parsed code and runtime values.
use std::rc::Rc;
use vstd::prelude::*;

verus! {

/// The native primitives that the root environment binds.
#[derive(PartialEq, Eq, Structural, Clone, Copy, Debug)]
pub enum Prim {
    Add,
    Sub,
    Eq,
    Gt,
    Ge,
    Lt,
    Le,
}

/// An expression: code as parsed, and values as computed.
#[derive(Debug)]
pub enum Expr {
    Boolean(bool),
    Symbol(String),
    Number(i64),
    List(Vec<Expr>),
    Builtin(Prim),
    Closure(Rc<Expr>, Rc<Expr>),
}

/// The mathematical value of an `Expr`.
pub enum ExprV {
    Boolean(bool),
    Symbol(Seq<char>),
    Number(int),
    List(Seq<ExprV>),
    Builtin(Prim),
    Closure(Box<ExprV>, Box<ExprV>),
}

/// A failure of the interpreter.
#[derive(Debug)]
pub enum Error {
    /// A language-level failure, with a human-readable reason.
    Reason(String),
    /// The `exit` form asked for the session to end.
    Exit,
}

/// The mathematical value of an `Error`.
pub enum ErrorV {
    Reason(Seq<char>),
    Exit,
}

impl Expr {
    pub open spec fn view_items(items: Seq<Expr>) -> Seq<ExprV>
        decreases items,
    {
        if items.len() == 0 {
            Seq::empty()
        } else {
            Self::view_items(items.drop_last()).push(items.last().view())
        }
    }
}

impl View for Expr {
    type V = ExprV;

    open spec fn view(&self) -> ExprV
        decreases self,
    {
        match self {
            Expr::Boolean(b) => ExprV::Boolean(*b),
            Expr::Symbol(s) => ExprV::Symbol(s@),
            Expr::Number(n) => ExprV::Number(*n as int),
            Expr::List(items) => ExprV::List(Expr::view_items(items@)),
            Expr::Builtin(p) => ExprV::Builtin(*p),
            Expr::Closure(params, body) => ExprV::Closure(Box::new((**params).view()), Box::new((**body).view())),
        }
    }
}

/// Relies on `Rc::clone`: the new pointer refers to the same value.
#[verifier::external_body]
fn share(r: &Rc<Expr>) -> (s: Rc<Expr>)
    ensures
        *s == **r,
{
    Rc::clone(r)
}

/// Each item's view sits at its index.
pub proof fn lemma_view_items(items: Seq<Expr>)
    ensures
        Expr::view_items(items).len() == items.len(),
        forall|i: int| 0 <= i < items.len() ==> #[trigger] Expr::view_items(items)[i] == items[i]@,
    decreases items.len(),
{
    if items.len() > 0 {
        let init = items.drop_last();
        lemma_view_items(init);
        assert(Expr::view_items(items) == Expr::view_items(init).push(items.last()@));
        assert forall|i: int| 0 <= i < items.len() implies #[trigger] Expr::view_items(items)[i]
            == items[i]@ by {
            if i < init.len() {
                assert(init[i] == items[i]);
            }
        }
    }
}

impl Expr {
    /// A copy of this expression; closures share their parameter list and body.
    pub fn duplicate(&self) -> (r: Expr)
        ensures
            r@ == self@,
        decreases self,
    {
        match self {
            Expr::Boolean(b) => Expr::Boolean(*b),
            Expr::Symbol(s) => Expr::Symbol(s.clone()),
            Expr::Number(n) => Expr::Number(*n),
            Expr::List(items) => Expr::List(duplicate_items(items)),
            Expr::Builtin(p) => Expr::Builtin(*p),
            Expr::Closure(params, body) => Expr::Closure(share(params), share(body)),
        }
    }
}

/// A copy of each expression of a sequence, in order.
pub fn duplicate_items(items: &Vec<Expr>) -> (r: Vec<Expr>)
    ensures
        Expr::view_items(r@) == Expr::view_items(items@),
    decreases items,
{
    let mut r: Vec<Expr> = Vec::new();
    let mut i: usize = 0;
    while i < items.len()
        invariant
            i <= items.len(),
            Expr::view_items(r@) == Expr::view_items(items@.take(i as int)),
        decreases items.len() - i,
    {
        proof {
            assert(decreases_to!(items => items[i as int]));
        }
        let c = items[i].duplicate();
        let ghost before = r@;
        r.push(c);
        assert(r@.drop_last() == before);
        assert(items@.take(i + 1).drop_last() == items@.take(i as int));
        i = i + 1;
    }
    assert(items@.take(i as int) == items@);
    r
}

} // verus!

verus! {

impl View for Error {
    type V = ErrorV;

    open spec fn view(&self) -> ErrorV {
        match self {
            Error::Reason(m) => ErrorV::Reason(m@),
            Error::Exit => ErrorV::Exit,
        }
    }
}

/// The view of an evaluation's outcome.
pub open spec fn outcome(r: Result<Expr, Error>) -> Result<ExprV, ErrorV> {
    match r {
        Ok(e) => Ok(e@),
        Err(e) => Err(e@),
    }
}

/// A failure with the given reason.
pub fn reason(m: &str) -> (r: Error)
    ensures
        r@ == ErrorV::Reason(m@),
{
    Error::Reason(String::from_str(m))
}

} // verus!

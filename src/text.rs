//! The text form of expressions.
use crate::expr::{lemma_view_items, Expr, ExprV};
use vstd::prelude::*;

verus! {

/// The decimal digit for `d`, where `d < 10`.
pub open spec fn digit(d: nat) -> char {
    seq!['0', '1', '2', '3', '4', '5', '6', '7', '8', '9'][d as int]
}

/// The decimal text of a natural number, without leading zeros.
pub open spec fn decimal(n: nat) -> Seq<char>
    decreases n,
{
    if n < 10 {
        seq![digit(n)]
    } else {
        decimal(n / 10).push(digit(n % 10))
    }
}

/// The decimal text of an integer, with a minus sign where it is negative.
pub open spec fn number_text(v: int) -> Seq<char> {
    if v < 0 {
        seq!['-'] + decimal((-v) as nat)
    } else {
        decimal(v as nat)
    }
}

/// The text form of an expression.
pub open spec fn render(e: ExprV) -> Seq<char>
    decreases e,
{
    match e {
        ExprV::Boolean(b) => if b {
            "true"@
        } else {
            "false"@
        },
        ExprV::Symbol(s) => s,
        ExprV::Number(n) => number_text(n),
        ExprV::List(items) => "("@ + render_items(items) + ")"@,
        ExprV::Builtin(_) => "Function {}"@,
        ExprV::Closure(_, _) => "Lambda {}"@,
    }
}

/// The text forms of a sequence of expressions, joined by commas.
pub open spec fn render_items(items: Seq<ExprV>) -> Seq<char>
    decreases items,
{
    if items.len() == 0 {
        Seq::empty()
    } else if items.len() == 1 {
        render(items[0])
    } else {
        render_items(items.drop_last()) + ","@ + render(items.last())
    }
}

/// The text of a single decimal digit.
fn digit_text(d: u64) -> (r: &'static str)
    requires
        d < 10,
    ensures
        r@ == seq![digit(d as nat)],
{
    proof {
        reveal_strlit("0");
        reveal_strlit("1");
        reveal_strlit("2");
        reveal_strlit("3");
        reveal_strlit("4");
        reveal_strlit("5");
        reveal_strlit("6");
        reveal_strlit("7");
        reveal_strlit("8");
        reveal_strlit("9");
    }
    let r = match d {
        0 => "0",
        1 => "1",
        2 => "2",
        3 => "3",
        4 => "4",
        5 => "5",
        6 => "6",
        7 => "7",
        8 => "8",
        _ => "9",
    };
    assert(r@ =~= seq![digit(d as nat)]);
    r
}

/// The decimal text of a natural number.
pub fn decimal_text(n: u64) -> (r: String)
    ensures
        r@ == decimal(n as nat),
    decreases n,
{
    if n < 10 {
        String::from_str(digit_text(n))
    } else {
        let r = decimal_text(n / 10).concat(digit_text(n % 10));
        assert(r@ =~= decimal(n as nat));
        r
    }
}

/// The decimal text of an integer.
pub fn number_to_text(v: i64) -> (r: String)
    ensures
        r@ == number_text(v as int),
{
    if v < 0 {
        let m: u64 = if v == i64::MIN {
            0x8000_0000_0000_0000
        } else {
            (-v) as u64
        };
        let digits = decimal_text(m);
        proof {
            reveal_strlit("-");
        }
        let r = String::from_str("-").concat(digits.as_str());
        assert(r@ =~= number_text(v as int));
        r
    } else {
        decimal_text(v as u64)
    }
}

impl Expr {
    /// The text form of this expression.
    pub fn to_text(&self) -> (r: String)
        ensures
            r@ == render(self@),
        decreases self,
    {
        match self {
            Expr::Boolean(b) => if *b {
                String::from_str("true")
            } else {
                String::from_str("false")
            },
            Expr::Symbol(s) => s.clone(),
            Expr::Number(n) => number_to_text(*n),
            Expr::List(items) => {
                let inner = items_to_text(items);
                String::from_str("(").concat(inner.as_str()).concat(")")
            },
            Expr::Builtin(_) => String::from_str("Function {}"),
            Expr::Closure(_, _) => String::from_str("Lambda {}"),
        }
    }
}

/// The text forms of expressions, joined by commas.
pub fn items_to_text(items: &Vec<Expr>) -> (r: String)
    ensures
        r@ == render_items(Expr::view_items(items@)),
    decreases items,
{
    let ghost vs = Expr::view_items(items@);
    proof {
        lemma_view_items(items@);
    }
    let mut acc = String::new();
    let mut i: usize = 0;
    while i < items.len()
        invariant
            i <= items.len(),
            vs == Expr::view_items(items@),
            vs.len() == items.len(),
            forall|j: int| 0 <= j < items.len() ==> #[trigger] vs[j] == items@[j]@,
            acc@ == render_items(vs.take(i as int)),
        decreases items.len() - i,
    {
        proof {
            assert(decreases_to!(items => items[i as int]));
        }
        let t = items[i].to_text();
        let ghost next = vs.take(i + 1);
        assert(next.drop_last() == vs.take(i as int));
        if i > 0 {
            acc.append(",");
        } else {
            assert(vs.take(0) =~= Seq::<ExprV>::empty());
        }
        acc.append(t.as_str());
        assert(acc@ =~= render_items(next));
        i = i + 1;
    }
    assert(vs.take(i as int) == vs);
    acc
}

} // verus!

//! The arithmetic and comparison primitives of the root environment.
use crate::env::{define_in, Env};
use crate::expr::{lemma_view_items, reason, Error, ErrorV, Expr, ExprV, Prim};
use crate::parser::in_i64;
use vstd::prelude::*;

verus! {

/// Whether every argument is a number.
pub open spec fn all_numbers(args: Seq<ExprV>) -> bool {
    forall|i: int| 0 <= i < args.len() ==> (#[trigger] args[i]) is Number
}

/// The integer of a number, and 0 for anything else.
pub open spec fn num(e: ExprV) -> int {
    match e {
        ExprV::Number(n) => n,
        _ => 0,
    }
}

/// The sum of the numbers of a sequence.
pub open spec fn sum(args: Seq<ExprV>) -> int
    decreases args.len(),
{
    if args.len() == 0 {
        0
    } else {
        sum(args.drop_last()) + num(args.last())
    }
}

/// The relation that a comparison primitive checks between neighbours.
pub open spec fn relates(p: Prim, a: int, b: int) -> bool {
    match p {
        Prim::Eq => a == b,
        Prim::Gt => a > b,
        Prim::Ge => a >= b,
        Prim::Lt => a < b,
        Prim::Le => a <= b,
        _ => false,
    }
}

/// Whether the relation of `p` holds between every adjacent pair.
pub open spec fn chained(p: Prim, args: Seq<ExprV>) -> bool {
    forall|i: int| 0 <= i < args.len() - 1 ==> relates(p, num(#[trigger] args[i]), num(args[i + 1]))
}

/// The result of applying a primitive to evaluated arguments.
pub open spec fn apply_prim(p: Prim, args: Seq<ExprV>) -> Result<ExprV, ErrorV> {
    if !all_numbers(args) {
        Err(ErrorV::Reason("expected a number"@))
    } else {
        match p {
            Prim::Add => if in_i64(sum(args)) {
                Ok(ExprV::Number(sum(args)))
            } else {
                Err(ErrorV::Reason("number out of range"@))
            },
            Prim::Sub => if args.len() == 0 {
                Err(ErrorV::Reason("expected at least one number"@))
            } else if in_i64(num(args[0]) - sum(args.drop_first())) {
                Ok(ExprV::Number(num(args[0]) - sum(args.drop_first())))
            } else {
                Err(ErrorV::Reason("number out of range"@))
            },
            _ => if args.len() == 0 {
                Err(ErrorV::Reason("expected at least one number"@))
            } else {
                Ok(ExprV::Boolean(chained(p, args)))
            },
        }
    }
}

/// The number held by an expression known to be one.
fn number_of(e: &Expr) -> (r: i64)
    requires
        e@ is Number,
    ensures
        r as int == num(e@),
{
    match e {
        Expr::Number(n) => *n,
        _ => 0,
    }
}

/// The sum of the numbers `args[from..]`, none of them left out of range.
fn sum_from(args: &Vec<Expr>, from: usize) -> (r: i128)
    requires
        from <= args.len(),
        all_numbers(Expr::view_items(args@)),
    ensures
        r as int == sum(Expr::view_items(args@).skip(from as int)),
{
    let ghost vs = Expr::view_items(args@);
    proof {
        lemma_view_items(args@);
    }
    let mut acc: i128 = 0;
    let mut i: usize = from;
    assert(vs.subrange(from as int, from as int) =~= Seq::<ExprV>::empty());
    while i < args.len()
        invariant
            from <= i <= args.len(),
            vs == Expr::view_items(args@),
            vs.len() == args.len(),
            all_numbers(vs),
            forall|j: int| 0 <= j < args.len() ==> #[trigger] vs[j] == args@[j]@,
            acc as int == sum(vs.subrange(from as int, i as int)),
            -(i - from) * 0x8000_0000_0000_0000 <= acc <= (i - from) * 0x8000_0000_0000_0000,
        decreases args.len() - i,
    {
        assert(vs[i as int] is Number);
        let n = number_of(&args[i]);
        assert(vs.subrange(from as int, i + 1).drop_last() == vs.subrange(from as int, i as int));
        acc = acc + n as i128;
        i = i + 1;
    }
    assert(vs.subrange(from as int, args.len() as int) == vs.skip(from as int));
    acc
}

/// Applies a primitive to evaluated arguments.
pub fn call_prim(p: Prim, args: &Vec<Expr>) -> (r: Result<Expr, Error>)
    ensures
        crate::expr::outcome(r) == apply_prim(p, Expr::view_items(args@)),
{
    let ghost vs = Expr::view_items(args@);
    proof {
        lemma_view_items(args@);
    }
    let mut i: usize = 0;
    while i < args.len()
        invariant
            i <= args.len(),
            vs == Expr::view_items(args@),
            vs.len() == args.len(),
            forall|j: int| 0 <= j < args.len() ==> #[trigger] vs[j] == args@[j]@,
            forall|j: int| 0 <= j < i ==> (#[trigger] vs[j]) is Number,
        decreases args.len() - i,
    {
        if !matches!(args[i], Expr::Number(_)) {
            assert(!(vs[i as int] is Number));
            return Err(reason("expected a number"));
        }
        i = i + 1;
    }
    match p {
        Prim::Add => {
            assert(vs.skip(0) == vs);
            let s = sum_from(args, 0);
            if -0x8000_0000_0000_0000 <= s && s <= 0x7fff_ffff_ffff_ffff {
                Ok(Expr::Number(s as i64))
            } else {
                Err(reason("number out of range"))
            }
        },
        Prim::Sub => {
            if args.len() == 0 {
                return Err(reason("expected at least one number"));
            }
            assert(vs.skip(1) == vs.drop_first());
            let first = number_of(&args[0]) as i128;
            let rest = sum_from(args, 1);
            if rest < first - 0x7fff_ffff_ffff_ffff || rest > first + 0x8000_0000_0000_0000 {
                Err(reason("number out of range"))
            } else {
                Ok(Expr::Number((first - rest) as i64))
            }
        },
        _ => {
            if args.len() == 0 {
                return Err(reason("expected at least one number"));
            }
            let mut k: usize = 1;
            while k < args.len()
                invariant
                    1 <= k <= args.len(),
                    p != Prim::Add && p != Prim::Sub,
                    vs == Expr::view_items(args@),
                    vs.len() == args.len(),
                    all_numbers(vs),
                    forall|j: int| 0 <= j < args.len() ==> #[trigger] vs[j] == args@[j]@,
                    forall|j: int|
                        0 <= j < k - 1 ==> relates(p, num(#[trigger] vs[j]), num(vs[j + 1])),
                decreases args.len() - k,
            {
                assert(vs[k - 1] is Number && vs[k as int] is Number);
                let a = number_of(&args[k - 1]);
                let b = number_of(&args[k]);
                let holds = match p {
                    Prim::Eq => a == b,
                    Prim::Gt => a > b,
                    Prim::Ge => a >= b,
                    Prim::Lt => a < b,
                    _ => a <= b,
                };
                if !holds {
                    return Ok(Expr::Boolean(false));
                }
                k = k + 1;
            }
            Ok(Expr::Boolean(true))
        },
    }
}

/// The bindings of the root frame: each primitive under its operator.
pub open spec fn root_frame() -> Map<Seq<char>, ExprV> {
    Map::empty().insert("+"@, ExprV::Builtin(Prim::Add)).insert("-"@, ExprV::Builtin(Prim::Sub)).insert(
        "="@,
        ExprV::Builtin(Prim::Eq),
    ).insert(">"@, ExprV::Builtin(Prim::Gt)).insert(">="@, ExprV::Builtin(Prim::Ge)).insert(
        "<"@,
        ExprV::Builtin(Prim::Lt),
    ).insert("<="@, ExprV::Builtin(Prim::Le))
}

/// A root environment that binds the primitives.
pub fn default_env() -> (r: Env)
    ensures
        r@ == seq![root_frame()],
{
    let mut env = Env::new();
    env.define(String::from_str("+"), Expr::Builtin(Prim::Add));
    env.define(String::from_str("-"), Expr::Builtin(Prim::Sub));
    env.define(String::from_str("="), Expr::Builtin(Prim::Eq));
    env.define(String::from_str(">"), Expr::Builtin(Prim::Gt));
    env.define(String::from_str(">="), Expr::Builtin(Prim::Ge));
    env.define(String::from_str("<"), Expr::Builtin(Prim::Lt));
    env.define(String::from_str("<="), Expr::Builtin(Prim::Le));
    assert(env@ =~= seq![root_frame()]);
    env
}

} // verus!

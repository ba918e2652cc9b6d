//! Evaluation of expressions against a chain of frames.
use crate::builtins::{apply_prim, call_prim};
use crate::env::{define_in, lookup_in, Env};
use crate::expr::{lemma_view_items, outcome, reason, Error, ErrorV, Expr, ExprV};
use crate::lexer::{tokenize, tokens_of, views};
use crate::parser::{parse, parse_at, same_text};
use crate::text::{decimal, decimal_text, render};
use std::rc::Rc;
use vstd::prelude::*;

verus! {

/// The frames of an environment, the innermost last.
pub type Frames = Seq<Map<Seq<char>, ExprV>>;

/// How deeply evaluations may nest within one top-level evaluation.
pub const MAX_DEPTH: u64 = 500;

/// The reason given for a symbol that nothing binds.
pub open spec fn unbound_reason(k: Seq<char>) -> Seq<char> {
    "unexpected symbol k='"@ + k + "'"@
}

/// The reason given when a closure gets the wrong number of arguments.
pub open spec fn arity_reason(expected: nat, given: nat) -> Seq<char> {
    "expected "@ + decimal(expected) + " arguments, got "@ + decimal(given)
}

/// The reason given when the test of an `if` is not a boolean.
pub open spec fn test_reason(form: ExprV) -> Seq<char> {
    "unexpected test form='"@ + render(form) + "'"@
}

/// Whether every item is a symbol.
pub open spec fn all_symbols(items: Seq<ExprV>) -> bool {
    forall|i: int| 0 <= i < items.len() ==> (#[trigger] items[i]) is Symbol
}

/// The name of a symbol.
pub open spec fn name_of(e: ExprV) -> Seq<char> {
    match e {
        ExprV::Symbol(s) => s,
        _ => Seq::empty(),
    }
}

/// The frame of a call: each parameter bound to its argument, in order.
pub open spec fn bind_params(params: Seq<ExprV>, args: Seq<ExprV>) -> Map<Seq<char>, ExprV>
    decreases params.len(),
{
    if params.len() == 0 || args.len() == 0 {
        Map::empty()
    } else {
        bind_params(params.drop_last(), args.drop_last()).insert(name_of(params.last()), args.last())
    }
}

/// Evaluates `e` in the frames `env`, nesting at most `d` deep: the outcome,
/// and the frames afterwards.
pub open spec fn spec_eval(e: ExprV, env: Frames, d: nat) -> (Result<ExprV, ErrorV>, Frames)
    decreases d, 0int, 0int,
{
    if d == 0 {
        (Err(ErrorV::Reason("recursion limit reached"@)), env)
    } else {
        match e {
            ExprV::Boolean(_) => (Ok(e), env),
            ExprV::Number(_) => (Ok(e), env),
            ExprV::Symbol(k) => match lookup_in(env, k) {
                Some(v) => (Ok(v), env),
                None => (Err(ErrorV::Reason(unbound_reason(k))), env),
            },
            ExprV::List(items) => if items.len() == 0 {
                (Err(ErrorV::Reason("expected a non-empty list"@)), env)
            } else if items[0] == ExprV::Symbol("if"@) {
                spec_if(items, env, (d - 1) as nat)
            } else if items[0] == ExprV::Symbol("def"@) {
                spec_def(items, env, (d - 1) as nat)
            } else if items[0] == ExprV::Symbol("fn"@) {
                (spec_fn_form(items), env)
            } else if items[0] == ExprV::Symbol("exit"@) {
                (Err(ErrorV::Exit), env)
            } else {
                spec_apply(items, env, (d - 1) as nat)
            },
            _ => (Err(ErrorV::Reason("unexpected form"@)), env),
        }
    }
}

/// The `if` form `items`: the test, then the form it selects.
pub open spec fn spec_if(items: Seq<ExprV>, env: Frames, d: nat) -> (Result<ExprV, ErrorV>, Frames)
    decreases d, 2int, 0int,
{
    if items.len() < 2 {
        (Err(ErrorV::Reason("expected test form"@)), env)
    } else {
        let (t, env1) = spec_eval(items[1], env, d);
        match t {
            Err(e) => (Err(e), env1),
            Ok(ExprV::Boolean(b)) => if b {
                if items.len() < 3 {
                    (Err(ErrorV::Reason("expected form idx=1"@)), env1)
                } else {
                    spec_eval(items[2], env1, d)
                }
            } else {
                if items.len() < 4 {
                    (Err(ErrorV::Reason("expected form idx=2"@)), env1)
                } else {
                    spec_eval(items[3], env1, d)
                }
            },
            Ok(_) => (Err(ErrorV::Reason(test_reason(items[1]))), env1),
        }
    }
}

/// The `def` form `items`: binds a symbol in the innermost frame and gives it back.
pub open spec fn spec_def(items: Seq<ExprV>, env: Frames, d: nat) -> (Result<ExprV, ErrorV>, Frames)
    decreases d, 2int, 0int,
{
    if items.len() < 2 {
        (Err(ErrorV::Reason("expected first form"@)), env)
    } else if !(items[1] is Symbol) {
        (Err(ErrorV::Reason("expected first form to be a symbol"@)), env)
    } else if items.len() < 3 {
        (Err(ErrorV::Reason("expected second form"@)), env)
    } else if items.len() > 3 {
        (Err(ErrorV::Reason("def can only have two forms"@)), env)
    } else {
        let (v, env1) = spec_eval(items[2], env, d);
        match v {
            Err(e) => (Err(e), env1),
            Ok(v) => (Ok(items[1]), define_in(env1, name_of(items[1]), v)),
        }
    }
}

/// The `fn` form `items`: a closure over its two forms, unevaluated.
pub open spec fn spec_fn_form(items: Seq<ExprV>) -> Result<ExprV, ErrorV> {
    if items.len() < 2 {
        Err(ErrorV::Reason("expected args form"@))
    } else if items.len() < 3 {
        Err(ErrorV::Reason("expected second form"@))
    } else if items.len() > 3 {
        Err(ErrorV::Reason("fn definition can only have two forms"@))
    } else {
        Ok(ExprV::Closure(Box::new(items[1]), Box::new(items[2])))
    }
}

/// A call `items`: the head evaluated to a function, applied to the other forms.
pub open spec fn spec_apply(items: Seq<ExprV>, env: Frames, d: nat) -> (Result<ExprV, ErrorV>, Frames)
    decreases d, 2int, 0int,
{
    let (h, env1) = spec_eval(items[0], env, d);
    match h {
        Err(e) => (Err(e), env1),
        Ok(ExprV::Builtin(p)) => {
            let (vs, env2) = spec_args(items.drop_first(), env1, d);
            match vs {
                Err(e) => (Err(e), env2),
                Ok(vs) => (apply_prim(p, vs), env2),
            }
        },
        Ok(ExprV::Closure(params, body)) => match *params {
            ExprV::List(ps) => if !all_symbols(ps) {
                (Err(ErrorV::Reason("expected symbols in the argument list"@)), env1)
            } else if ps.len() != items.len() - 1 {
                (
                    Err(ErrorV::Reason(arity_reason(ps.len(), (items.len() - 1) as nat))),
                    env1,
                )
            } else {
                let (vs, env2) = spec_args(items.drop_first(), env1, d);
                match vs {
                    Err(e) => (Err(e), env2),
                    Ok(vs) => {
                        let (r, env3) = spec_eval(*body, env2.push(bind_params(ps, vs)), d);
                        (r, env3.drop_last())
                    },
                }
            },
            _ => (Err(ErrorV::Reason("expected args form to be a list"@)), env1),
        },
        Ok(_) => (Err(ErrorV::Reason("first form must be a function"@)), env1),
    }
}

/// Evaluates forms left to right, stopping at the first failure.
pub open spec fn spec_args(forms: Seq<ExprV>, env: Frames, d: nat) -> (Result<Seq<ExprV>, ErrorV>, Frames)
    decreases d, 1int, forms.len(),
{
    if forms.len() == 0 {
        (Ok(Seq::empty()), env)
    } else {
        let (r, env1) = spec_eval(forms[0], env, d);
        match r {
            Err(e) => (Err(e), env1),
            Ok(v) => {
                let (rs, env2) = spec_args(forms.drop_first(), env1, d);
                match rs {
                    Err(e) => (Err(e), env2),
                    Ok(vs) => (Ok(seq![v] + vs), env2),
                }
            },
        }
    }
}

/// Reads and evaluates the first expression of a text.
pub open spec fn spec_evaluate_text(src: Seq<char>, env: Frames) -> (Result<ExprV, ErrorV>, Frames) {
    match parse_at(tokens_of(src), 0) {
        Err(e) => (Err(e), env),
        Ok((x, _)) => spec_eval(x, env, MAX_DEPTH as nat),
    }
}

/// The view of the outcome of evaluating several forms.
pub open spec fn args_outcome(r: Result<Vec<Expr>, Error>) -> Result<Seq<ExprV>, ErrorV> {
    match r {
        Ok(v) => Ok(Expr::view_items(v@)),
        Err(e) => Err(e@),
    }
}

/// `p`, with the values `acc` put before the values it holds, if any.
pub open spec fn prepend(acc: Seq<ExprV>, p: (Result<Seq<ExprV>, ErrorV>, Frames)) -> (
    Result<Seq<ExprV>, ErrorV>,
    Frames,
) {
    (
        match p.0 {
            Ok(vs) => Ok(acc + vs),
            Err(e) => Err(e),
        },
        p.1,
    )
}

proof fn lemma_prepend(acc: Seq<ExprV>, v: ExprV, x: (Result<Seq<ExprV>, ErrorV>, Frames))
    ensures
        prepend(
            acc,
            (
                match x.0 {
                    Ok(vs) => Ok(seq![v] + vs),
                    Err(e) => Err(e),
                },
                x.1,
            ),
        ) == prepend(acc.push(v), x),
        prepend(Seq::empty(), x) == x,
{
    if let Ok(vs) = x.0 {
        assert(acc + (seq![v] + vs) =~= acc.push(v) + vs);
        assert(Seq::<ExprV>::empty() + vs =~= vs);
    }
}

/// Whether `e` is the symbol `name`.
fn is_symbol_named(e: &Expr, name: &str) -> (r: bool)
    ensures
        r == (e@ == ExprV::Symbol(name@)),
{
    match e {
        Expr::Symbol(s) => same_text(s.as_str(), name),
        _ => false,
    }
}

/// Evaluates `e` in `env`, nesting at most `depth` deep.
pub fn eval(e: &Expr, env: &mut Env, depth: u64) -> (r: Result<Expr, Error>)
    requires
        old(env)@.len() > 0,
    ensures
        (outcome(r), final(env)@) == spec_eval(e@, old(env)@, depth as nat),
        final(env)@.len() == old(env)@.len(),
    decreases depth, 0int, 0int,
{
    if depth == 0 {
        return Err(reason("recursion limit reached"));
    }
    match e {
        Expr::Boolean(_) => Ok(e.duplicate()),
        Expr::Number(_) => Ok(e.duplicate()),
        Expr::Symbol(k) => match env.lookup(k.as_str()) {
            Some(v) => Ok(v),
            None => {
                let m = String::from_str("unexpected symbol k='").concat(k.as_str()).concat("'");
                Err(Error::Reason(m))
            },
        },
        Expr::List(items) => {
            proof {
                lemma_view_items(items@);
            }
            if items.len() == 0 {
                Err(reason("expected a non-empty list"))
            } else if is_symbol_named(&items[0], "if") {
                eval_if(items, env, depth - 1)
            } else if is_symbol_named(&items[0], "def") {
                eval_def(items, env, depth - 1)
            } else if is_symbol_named(&items[0], "fn") {
                eval_fn(items)
            } else if is_symbol_named(&items[0], "exit") {
                Err(Error::Exit)
            } else {
                apply(items, env, depth - 1)
            }
        },
        _ => Err(reason("unexpected form")),
    }
}

/// Evaluates the `if` form `items`.
fn eval_if(items: &Vec<Expr>, env: &mut Env, d: u64) -> (r: Result<Expr, Error>)
    requires
        old(env)@.len() > 0,
    ensures
        (outcome(r), final(env)@) == spec_if(Expr::view_items(items@), old(env)@, d as nat),
        final(env)@.len() == old(env)@.len(),
    decreases d, 2int, 0int,
{
    proof {
        lemma_view_items(items@);
    }
    if items.len() < 2 {
        return Err(reason("expected test form"));
    }
    match eval(&items[1], env, d) {
        Err(e) => Err(e),
        Ok(Expr::Boolean(b)) => if b {
            if items.len() < 3 {
                Err(reason("expected form idx=1"))
            } else {
                eval(&items[2], env, d)
            }
        } else {
            if items.len() < 4 {
                Err(reason("expected form idx=2"))
            } else {
                eval(&items[3], env, d)
            }
        },
        Ok(_) => {
            let m = String::from_str("unexpected test form='").concat(
                items[1].to_text().as_str(),
            ).concat("'");
            Err(Error::Reason(m))
        },
    }
}

/// Evaluates the `def` form `items`.
fn eval_def(items: &Vec<Expr>, env: &mut Env, d: u64) -> (r: Result<Expr, Error>)
    requires
        old(env)@.len() > 0,
    ensures
        (outcome(r), final(env)@) == spec_def(Expr::view_items(items@), old(env)@, d as nat),
        final(env)@.len() == old(env)@.len(),
    decreases d, 2int, 0int,
{
    proof {
        lemma_view_items(items@);
    }
    if items.len() < 2 {
        return Err(reason("expected first form"));
    }
    let name = match &items[1] {
        Expr::Symbol(s) => s.clone(),
        _ => {
            return Err(reason("expected first form to be a symbol"));
        },
    };
    if items.len() < 3 {
        return Err(reason("expected second form"));
    }
    if items.len() > 3 {
        return Err(reason("def can only have two forms"));
    }
    match eval(&items[2], env, d) {
        Err(e) => Err(e),
        Ok(v) => {
            env.define(name, v);
            Ok(items[1].duplicate())
        },
    }
}

/// Evaluates the `fn` form `items`.
fn eval_fn(items: &Vec<Expr>) -> (r: Result<Expr, Error>)
    ensures
        outcome(r) == spec_fn_form(Expr::view_items(items@)),
{
    proof {
        lemma_view_items(items@);
    }
    if items.len() < 2 {
        return Err(reason("expected args form"));
    }
    if items.len() < 3 {
        return Err(reason("expected second form"));
    }
    if items.len() > 3 {
        return Err(reason("fn definition can only have two forms"));
    }
    Ok(Expr::Closure(Rc::new(items[1].duplicate()), Rc::new(items[2].duplicate())))
}

/// Evaluates the forms `items[1..]` left to right.
fn eval_args(items: &Vec<Expr>, env: &mut Env, d: u64) -> (r: Result<Vec<Expr>, Error>)
    requires
        old(env)@.len() > 0,
        items.len() >= 1,
    ensures
        (args_outcome(r), final(env)@) == spec_args(
            Expr::view_items(items@).drop_first(),
            old(env)@,
            d as nat,
        ),
        final(env)@.len() == old(env)@.len(),
        r matches Ok(v) ==> v.len() == items.len() - 1,
    decreases d, 1int, items.len(),
{
    let ghost all = Expr::view_items(items@);
    proof {
        lemma_view_items(items@);
        lemma_prepend(Seq::empty(), ExprV::Boolean(true), spec_args(all.drop_first(), env@, d as nat));
    }
    assert(all.skip(1) == all.drop_first());
    let mut vals: Vec<Expr> = Vec::new();
    let mut i: usize = 1;
    assert(Expr::view_items(vals@) =~= Seq::<ExprV>::empty());
    while i < items.len()
        invariant
            1 <= i <= items.len(),
            vals.len() == i - 1,
            env@.len() > 0,
            all == Expr::view_items(items@),
            all.len() == items.len(),
            forall|j: int| 0 <= j < items.len() ==> #[trigger] all[j] == items@[j]@,
            env@.len() == old(env)@.len(),
            spec_args(all.drop_first(), old(env)@, d as nat) == prepend(
                Expr::view_items(vals@),
                spec_args(all.skip(i as int), env@, d as nat),
            ),
        decreases items.len() - i,
    {
        let ghost forms = all.skip(i as int);
        let ghost env_i = env@;
        assert(forms[0] == all[i as int]);
        assert(forms.drop_first() == all.skip(i + 1));
        match eval(&items[i], env, d) {
            Err(e) => {
                return Err(e);
            },
            Ok(v) => {
                proof {
                    lemma_prepend(
                        Expr::view_items(vals@),
                        v@,
                        spec_args(all.skip(i + 1), env@, d as nat),
                    );
                }
                let ghost before = vals@;
                vals.push(v);
                assert(vals@.drop_last() == before);
                i = i + 1;
            },
        }
    }
    assert(all.skip(i as int) =~= Seq::<ExprV>::empty());
    assert(Expr::view_items(vals@) + Seq::<ExprV>::empty() =~= Expr::view_items(vals@));
    Ok(vals)
}

/// Whether every item is a symbol.
fn symbols_only(ps: &Vec<Expr>) -> (r: bool)
    ensures
        r == all_symbols(Expr::view_items(ps@)),
{
    let ghost psv = Expr::view_items(ps@);
    proof {
        lemma_view_items(ps@);
    }
    let mut k: usize = 0;
    while k < ps.len()
        invariant
            k <= ps.len(),
            psv == Expr::view_items(ps@),
            psv.len() == ps.len(),
            forall|j: int| 0 <= j < ps.len() ==> #[trigger] psv[j] == ps@[j]@,
            forall|j: int| 0 <= j < k ==> (#[trigger] psv[j]) is Symbol,
        decreases ps.len() - k,
    {
        if !matches!(ps[k], Expr::Symbol(_)) {
            assert(!(psv[k as int] is Symbol));
            return false;
        }
        k = k + 1;
    }
    true
}

/// Opens the frame of a call, binding each parameter to its argument.
fn push_call_frame(env: &mut Env, ps: &Vec<Expr>, vs: &Vec<Expr>)
    requires
        ps.len() == vs.len(),
        all_symbols(Expr::view_items(ps@)),
    ensures
        final(env)@ == old(env)@.push(bind_params(Expr::view_items(ps@), Expr::view_items(vs@))),
{
    let ghost psv = Expr::view_items(ps@);
    let ghost vsv = Expr::view_items(vs@);
    let ghost outer = env@;
    proof {
        lemma_view_items(ps@);
        lemma_view_items(vs@);
    }
    env.push_frame();
    let mut i: usize = 0;
    assert(psv.take(0) =~= Seq::<ExprV>::empty());
    assert(vsv.take(0) =~= Seq::<ExprV>::empty());
    while i < ps.len()
        invariant
            i <= ps.len() == vs.len(),
            psv == Expr::view_items(ps@),
            vsv == Expr::view_items(vs@),
            psv.len() == ps.len(),
            vsv.len() == vs.len(),
            forall|j: int| 0 <= j < ps.len() ==> #[trigger] psv[j] == ps@[j]@,
            forall|j: int| 0 <= j < vs.len() ==> #[trigger] vsv[j] == vs@[j]@,
            all_symbols(psv),
            env@ == outer.push(bind_params(psv.take(i as int), vsv.take(i as int))),
        decreases ps.len() - i,
    {
        let name = match &ps[i] {
            Expr::Symbol(s) => s.clone(),
            _ => String::new(),
        };
        assert(psv[i as int] is Symbol);
        assert(name@ == name_of(psv[i as int]));
        let v = vs[i].duplicate();
        env.define(name, v);
        assert(psv.take(i + 1).drop_last() == psv.take(i as int));
        assert(vsv.take(i + 1).drop_last() == vsv.take(i as int));
        assert(env@ =~= outer.push(bind_params(psv.take(i + 1), vsv.take(i + 1))));
        i = i + 1;
    }
    assert(psv.take(i as int) == psv);
    assert(vsv.take(i as int) == vsv);
}

/// Evaluates the call `items`.
fn apply(items: &Vec<Expr>, env: &mut Env, d: u64) -> (r: Result<Expr, Error>)
    requires
        old(env)@.len() > 0,
        items.len() >= 1,
    ensures
        (outcome(r), final(env)@) == spec_apply(Expr::view_items(items@), old(env)@, d as nat),
        final(env)@.len() == old(env)@.len(),
    decreases d, 2int, 0int,
{
    proof {
        lemma_view_items(items@);
    }
    match eval(&items[0], env, d) {
        Err(e) => Err(e),
        Ok(Expr::Builtin(p)) => match eval_args(items, env, d) {
            Err(e) => Err(e),
            Ok(vs) => call_prim(p, &vs),
        },
        Ok(Expr::Closure(params, body)) => match &*params {
            Expr::List(ps) => {
                proof {
                    lemma_view_items(ps@);
                }
                if !symbols_only(ps) {
                    Err(reason("expected symbols in the argument list"))
                } else if ps.len() != items.len() - 1 {
                    let m = String::from_str("expected ").concat(
                        decimal_text(ps.len() as u64).as_str(),
                    ).concat(" arguments, got ").concat(
                        decimal_text((items.len() - 1) as u64).as_str(),
                    );
                    Err(Error::Reason(m))
                } else {
                    match eval_args(items, env, d) {
                    Err(e) => Err(e),
                    Ok(vs) => {
                        push_call_frame(env, ps, &vs);
                        let b: &Expr = &body;
                        assert(Expr::Closure(params, body)@ == ExprV::Closure(
                            Box::new(Expr::List(*ps)@),
                            Box::new(b@),
                        ));
                        let r = eval(b, env, d);
                        env.pop_frame();
                        r
                    },
                    }
                }
            },
            _ => Err(reason("expected args form to be a list")),
        },
        Ok(_) => Err(reason("first form must be a function")),
    }
}

/// Reads the first expression of `source` and evaluates it in `env`.
/// Tokens after that expression are ignored.
pub fn evaluate_text(source: &str, env: &mut Env) -> (r: Result<Expr, Error>)
    requires
        old(env)@.len() > 0,
    ensures
        (outcome(r), final(env)@) == spec_evaluate_text(source@, old(env)@),
        final(env)@.len() == old(env)@.len(),
{
    let tokens = tokenize(source);
    match parse(&tokens, 0) {
        Err(e) => Err(e),
        Ok((x, _)) => eval(&x, env, MAX_DEPTH),
    }
}

} // verus!

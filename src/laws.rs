//! Properties of evaluation, proved over the evaluator's specification.
use crate::env::{define_in, lookup_in};
use crate::eval::{
    all_symbols, arity_reason, bind_params, spec_apply, spec_args, spec_def, spec_eval, spec_if,
    unbound_reason, Frames,
};
use crate::expr::{ErrorV, ExprV};
use vstd::prelude::*;

verus! {

/// Evaluation keeps the number of frames and changes only the innermost one:
/// the frame of a call is gone once the call returns.
pub proof fn lemma_eval_frames(e: ExprV, env: Frames, d: nat)
    requires
        env.len() > 0,
    ensures
        spec_eval(e, env, d).1.len() == env.len(),
        spec_eval(e, env, d).1.drop_last() == env.drop_last(),
    decreases d, 0int, 0int,
{
    if d > 0 {
        if let ExprV::List(items) = e {
            if items.len() > 0 {
                if items[0] == ExprV::Symbol("if"@) {
                    lemma_if_frames(items, env, (d - 1) as nat);
                } else if items[0] == ExprV::Symbol("def"@) {
                    lemma_def_frames(items, env, (d - 1) as nat);
                } else if items[0] != ExprV::Symbol("fn"@) && items[0] != ExprV::Symbol("exit"@) {
                    lemma_apply_frames(items, env, (d - 1) as nat);
                }
            }
        }
    }
}

proof fn lemma_if_frames(items: Seq<ExprV>, env: Frames, d: nat)
    requires
        env.len() > 0,
    ensures
        spec_if(items, env, d).1.len() == env.len(),
        spec_if(items, env, d).1.drop_last() == env.drop_last(),
    decreases d, 2int, 0int,
{
    if items.len() >= 2 {
        lemma_eval_frames(items[1], env, d);
        let env1 = spec_eval(items[1], env, d).1;
        if items.len() >= 3 {
            lemma_eval_frames(items[2], env1, d);
        }
        if items.len() >= 4 {
            lemma_eval_frames(items[3], env1, d);
        }
    }
}

proof fn lemma_def_frames(items: Seq<ExprV>, env: Frames, d: nat)
    requires
        env.len() > 0,
    ensures
        spec_def(items, env, d).1.len() == env.len(),
        spec_def(items, env, d).1.drop_last() == env.drop_last(),
    decreases d, 2int, 0int,
{
    if items.len() == 3 {
        lemma_eval_frames(items[2], env, d);
        let (v, env1) = spec_eval(items[2], env, d);
        if let Ok(v) = v {
            let k = crate::eval::name_of(items[1]);
            assert(define_in(env1, k, v).drop_last() =~= env1.drop_last());
        }
    }
}

proof fn lemma_apply_frames(items: Seq<ExprV>, env: Frames, d: nat)
    requires
        env.len() > 0,
    ensures
        spec_apply(items, env, d).1.len() == env.len(),
        spec_apply(items, env, d).1.drop_last() == env.drop_last(),
    decreases d, 2int, 0int,
{
    lemma_eval_frames(items[0], env, d);
    let (h, env1) = spec_eval(items[0], env, d);
    lemma_args_frames(items.drop_first(), env1, d);
    let (vs, env2) = spec_args(items.drop_first(), env1, d);
    if let Ok(ExprV::Closure(params, body)) = h {
        if let ExprV::List(ps) = *params {
            if let Ok(vs) = vs {
                let inner = env2.push(bind_params(ps, vs));
                lemma_eval_frames(*body, inner, d);
                assert(inner.drop_last() == env2);
            }
        }
    }
}

proof fn lemma_args_frames(forms: Seq<ExprV>, env: Frames, d: nat)
    requires
        env.len() > 0,
    ensures
        spec_args(forms, env, d).1.len() == env.len(),
        spec_args(forms, env, d).1.drop_last() == env.drop_last(),
    decreases d, 1int, forms.len(),
{
    if forms.len() > 0 {
        lemma_eval_frames(forms[0], env, d);
        let env1 = spec_eval(forms[0], env, d).1;
        lemma_args_frames(forms.drop_first(), env1, d);
    }
}

proof fn lemma_form_names_differ()
    ensures
        "if"@ != "def"@,
        "if"@ != "fn"@,
        "if"@ != "exit"@,
        "def"@ != "fn"@,
        "def"@ != "exit"@,
        "fn"@ != "exit"@,
{
    reveal_strlit("if");
    reveal_strlit("def");
    reveal_strlit("fn");
    reveal_strlit("exit");
    assert("if"@.len() != "def"@.len());
    assert("if"@.len() != "exit"@.len());
    assert("def"@.len() != "fn"@.len());
    assert("def"@.len() != "exit"@.len());
    assert("fn"@.len() != "exit"@.len());
    assert("if"@[0] != "fn"@[0]);
}

/// Once a `def` has succeeded, its name resolves, in the same environment,
/// to the value that its form evaluated to.
pub proof fn law_def_then_use(k: Seq<char>, form: ExprV, env: Frames, d: nat, d2: nat)
    requires
        env.len() > 0,
        d > 0,
        d2 > 0,
    ensures
        ({
            let def_form = ExprV::List(seq![ExprV::Symbol("def"@), ExprV::Symbol(k), form]);
            let (r, env1) = spec_eval(def_form, env, d);
            r is Ok ==> spec_eval(ExprV::Symbol(k), env1, d2).0 == spec_eval(
                form,
                env,
                (d - 1) as nat,
            ).0
        }),
{
    lemma_form_names_differ();
    let items = seq![ExprV::Symbol("def"@), ExprV::Symbol(k), form];
    assert(items[0] != ExprV::Symbol("if"@));
    lemma_eval_frames(form, env, (d - 1) as nat);
    let (v, env1) = spec_eval(form, env, (d - 1) as nat);
    if let Ok(v) = v {
        let env2 = define_in(env1, k, v);
        assert(env2.last() == env1.last().insert(k, v));
        assert(lookup_in(env2, k) == Some(v));
    }
}

/// A symbol that no frame binds fails to evaluate, with a reason that holds
/// the symbol's name.
pub proof fn law_unbound_symbol(k: Seq<char>, env: Frames, d: nat)
    requires
        d > 0,
        lookup_in(env, k) is None,
    ensures
        spec_eval(ExprV::Symbol(k), env, d).0 == Err::<ExprV, ErrorV>(
            ErrorV::Reason(unbound_reason(k)),
        ),
        exists|i: int|
            0 <= i && i + k.len() <= unbound_reason(k).len() && #[trigger] unbound_reason(
                k,
            ).subrange(i, i + k.len()) == k,
{
    let m = unbound_reason(k);
    let i = "unexpected symbol k='"@.len() as int;
    assert(m.subrange(i, i + k.len()) =~= k);
}

/// Applying a closure to a number of argument forms other than its number of
/// parameters fails, with a reason that states both numbers.
pub proof fn law_arity_mismatch(
    head: ExprV,
    ps: Seq<ExprV>,
    body: ExprV,
    args: Seq<ExprV>,
    env: Frames,
    d: nat,
)
    requires
        d > 0,
        head != ExprV::Symbol("if"@),
        head != ExprV::Symbol("def"@),
        head != ExprV::Symbol("fn"@),
        head != ExprV::Symbol("exit"@),
        spec_eval(head, env, (d - 1) as nat).0 == Ok::<ExprV, ErrorV>(
            ExprV::Closure(Box::new(ExprV::List(ps)), Box::new(body)),
        ),
        all_symbols(ps),
        ps.len() != args.len(),
    ensures
        spec_eval(ExprV::List(seq![head] + args), env, d).0 == Err::<ExprV, ErrorV>(
            ErrorV::Reason(arity_reason(ps.len(), args.len())),
        ),
{
    let items = seq![head] + args;
    assert(items[0] == head);
    assert(items.drop_first() =~= args);
}

/// Inside a closure's body a parameter hides any outer binding of its name;
/// once the call returns, the frames are as they were, so the name resolves
/// to the outer binding again.
pub proof fn law_parameter_shadows(k: Seq<char>, body: ExprV, n: int, env: Frames, d: nat)
    requires
        env.len() > 0,
        d > 1,
    ensures
        ({
            let clo = ExprV::List(
                seq![ExprV::Symbol("fn"@), ExprV::List(seq![ExprV::Symbol(k)]), body],
            );
            let call = ExprV::List(seq![clo, ExprV::Number(n)]);
            let inner = env.push(Map::empty().insert(k, ExprV::Number(n)));
            &&& lookup_in(inner, k) == Some(ExprV::Number(n))
            &&& spec_eval(call, env, d).0 == spec_eval(body, inner, (d - 1) as nat).0
            &&& spec_eval(call, env, d).1 == env
        }),
{
    lemma_form_names_differ();
    let ps = seq![ExprV::Symbol(k)];
    let vs = seq![ExprV::Number(n)];
    let clo_items = seq![ExprV::Symbol("fn"@), ExprV::List(ps), body];
    let clo = ExprV::List(clo_items);
    let items = seq![clo, ExprV::Number(n)];
    let inner = env.push(Map::empty().insert(k, ExprV::Number(n)));
    assert(clo_items[0] != ExprV::Symbol("if"@));
    assert(clo_items[0] != ExprV::Symbol("def"@));
    assert(items.drop_first() =~= vs);
    assert(vs.drop_first() =~= Seq::<ExprV>::empty());
    assert(seq![ExprV::Number(n)] + Seq::<ExprV>::empty() =~= vs);
    assert(ps.drop_last() =~= Seq::<ExprV>::empty());
    assert(vs.drop_last() =~= Seq::<ExprV>::empty());
    assert(ps.last() == ExprV::Symbol(k));
    assert(vs.last() == ExprV::Number(n));
    assert(bind_params(Seq::empty(), Seq::empty()) == Map::<Seq<char>, ExprV>::empty());
    assert(bind_params(ps, vs) == Map::<Seq<char>, ExprV>::empty().insert(k, ExprV::Number(n)));
    assert(all_symbols(ps));
    assert(spec_eval(clo, env, (d - 1) as nat) == (
        Ok::<ExprV, ErrorV>(ExprV::Closure(Box::new(ExprV::List(ps)), Box::new(body))),
        env,
    ));
    assert(spec_eval(ExprV::Number(n), env, (d - 1) as nat) == (
        Ok::<ExprV, ErrorV>(ExprV::Number(n)),
        env,
    ));
    assert(spec_args(vs.drop_first(), env, (d - 1) as nat) == (
        Ok::<Seq<ExprV>, ErrorV>(Seq::empty()),
        env,
    ));
    assert(spec_args(vs, env, (d - 1) as nat) == (Ok::<Seq<ExprV>, ErrorV>(vs), env));
    lemma_eval_frames(body, inner, (d - 1) as nat);
    assert(inner.drop_last() == env);
}

} // verus!

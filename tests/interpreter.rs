use risp::builtins::default_env;
use risp::env::Env;
use risp::eval::{eval, evaluate_text};
use risp::expr::{Error, Expr, Prim};
use risp::lexer::tokenize;
use risp::parser::{numeral, parse};

fn run(env: &mut Env, src: &str) -> Result<Expr, Error> {
    evaluate_text(src, env)
}

fn number(r: Result<Expr, Error>) -> i64 {
    match r {
        Ok(Expr::Number(n)) => n,
        Ok(other) => panic!("expected a number, got {}", other.to_text()),
        Err(e) => panic!("expected a number, got error {:?}", e),
    }
}

fn boolean(r: Result<Expr, Error>) -> bool {
    match r {
        Ok(Expr::Boolean(b)) => b,
        Ok(other) => panic!("expected a boolean, got {}", other.to_text()),
        Err(e) => panic!("expected a boolean, got error {:?}", e),
    }
}

fn reason_of(r: Result<Expr, Error>) -> String {
    match r {
        Err(Error::Reason(m)) => m,
        Err(Error::Exit) => panic!("expected a reason, got exit"),
        Ok(v) => panic!("expected an error, got {}", v.to_text()),
    }
}

fn eval_fresh(src: &str) -> Result<Expr, Error> {
    let mut env = default_env();
    run(&mut env, src)
}

fn text_of(src: &str) -> String {
    let toks = tokenize(src);
    match parse(&toks, 0) {
        Ok((e, _)) => e.to_text(),
        Err(e) => panic!("parse failed: {:?}", e),
    }
}

#[test]
fn tokenize_simple_call() {
    assert_eq!(tokenize("(+ 1 2)"), vec!["(", "+", "1", "2", ")"]);
}

#[test]
fn tokenize_empty_and_blank() {
    assert!(tokenize("").is_empty());
    assert!(tokenize(" \t\n ").is_empty());
}

#[test]
fn tokenize_splits_parens_and_space_runs() {
    assert_eq!(tokenize("((a))"), vec!["(", "(", "a", ")", ")"]);
    assert_eq!(tokenize("  foo\t\tbar(baz)qux "), vec!["foo", "bar", "(", "baz", ")", "qux"]);
    assert_eq!(tokenize("a\u{3000}b\u{a0}c"), vec!["a", "b", "c"]);
    assert_eq!(tokenize("λx"), vec!["λx"]);
}

#[test]
fn parse_then_eval_nested() {
    assert_eq!(number(eval_fresh("(+ 1 (- 4 2))")), 3);
}

#[test]
fn def_then_use() {
    let mut env = default_env();
    match run(&mut env, "(def x 10)") {
        Ok(Expr::Symbol(s)) => assert_eq!(s, "x"),
        other => panic!("def gave {:?}", other),
    }
    assert_eq!(number(run(&mut env, "(+ x 5)")), 15);
}

#[test]
fn closure_application() {
    match eval_fresh("(fn (a b) (+ a b))") {
        Ok(Expr::Closure(_, _)) => {},
        other => panic!("fn gave {:?}", other),
    }
    assert_eq!(number(eval_fresh("((fn (a b) (+ a b)) 3 4)")), 7);
}

#[test]
fn closure_bound_by_def() {
    let mut env = default_env();
    run(&mut env, "(def add (fn (a b) (+ a b)))").unwrap();
    assert_eq!(number(run(&mut env, "(add 20 22)")), 42);
    assert_eq!(number(run(&mut env, "(add (add 1 2) 3)")), 6);
}

#[test]
fn if_selects_branch() {
    assert_eq!(number(eval_fresh("(if (> 3 2) 1 0)")), 1);
    assert_eq!(number(eval_fresh("(if (> 2 3) 1 0)")), 0);
}

#[test]
fn chained_comparison() {
    assert!(boolean(eval_fresh("(< 1 2 3)")));
    assert!(!boolean(eval_fresh("(< 1 3 2)")));
    assert!(boolean(eval_fresh("(= 4 4 4)")));
    assert!(!boolean(eval_fresh("(= 4 4 5)")));
    assert!(boolean(eval_fresh("(>= 3 3 1)")));
    assert!(boolean(eval_fresh("(<= 1 1 2)")));
    assert!(!boolean(eval_fresh("(> 3 3)")));
    assert!(boolean(eval_fresh("(< 7)")));
}

#[test]
fn unresolved_symbol() {
    let m = reason_of(eval_fresh("(+ y 1)"));
    assert!(m.contains("y"));
    assert_eq!(m, "unexpected symbol k='y'");
}

#[test]
fn arity_mismatch() {
    let m = reason_of(eval_fresh("((fn (a b) (+ a b)) 1)"));
    assert_eq!(m, "expected 2 arguments, got 1");
}

#[test]
fn unbalanced_input() {
    let m = reason_of(eval_fresh("(+ 1 2"));
    assert!(m.contains("closing"));
    assert_eq!(m, "could not find closing )");
}

#[test]
fn parameter_shadows_outer_def() {
    let mut env = default_env();
    run(&mut env, "(def x 1)").unwrap();
    assert_eq!(number(run(&mut env, "((fn (x) (+ x 10)) 5)")), 15);
    assert_eq!(number(run(&mut env, "x")), 1);
}

#[test]
fn call_frame_is_discarded() {
    let mut env = default_env();
    run(&mut env, "((fn (a) (def inner a)) 3)").unwrap();
    assert_eq!(reason_of(run(&mut env, "inner")), "unexpected symbol k='inner'");
    assert_eq!(env.depth(), 1);
}

#[test]
fn subtraction_and_sum() {
    assert_eq!(number(eval_fresh("(- 10 1 2)")), 7);
    assert_eq!(number(eval_fresh("(- 5)")), 5);
    assert_eq!(number(eval_fresh("(+)")), 0);
    assert_eq!(number(eval_fresh("(+ -3 -4)")), -7);
}

#[test]
fn arithmetic_out_of_range() {
    assert_eq!(reason_of(eval_fresh("(+ 9223372036854775807 1)")), "number out of range");
    assert_eq!(reason_of(eval_fresh("(- -9223372036854775808 1)")), "number out of range");
    assert_eq!(number(eval_fresh("(- 0 9223372036854775807 1)")), i64::MIN);
}

#[test]
fn builtin_errors() {
    assert_eq!(reason_of(eval_fresh("(+ 1 true)")), "expected a number");
    assert_eq!(reason_of(eval_fresh("(-)")), "expected at least one number");
    assert_eq!(reason_of(eval_fresh("(<)")), "expected at least one number");
}

#[test]
fn parse_errors() {
    assert_eq!(reason_of(eval_fresh("")), "could not get token");
    assert_eq!(reason_of(eval_fresh(")")), "unexpected )");
    assert_eq!(reason_of(eval_fresh("(")), "could not find closing )");
}

#[test]
fn evaluation_errors() {
    assert_eq!(reason_of(eval_fresh("()")), "expected a non-empty list");
    assert_eq!(reason_of(eval_fresh("(1 2)")), "first form must be a function");
    assert_eq!(reason_of(eval_fresh("(if)")), "expected test form");
    assert_eq!(reason_of(eval_fresh("(if 1 2 3)")), "unexpected test form='1'");
    assert_eq!(reason_of(eval_fresh("(if true)")), "expected form idx=1");
    assert_eq!(reason_of(eval_fresh("(if false 1)")), "expected form idx=2");
    assert_eq!(reason_of(eval_fresh("(def)")), "expected first form");
    assert_eq!(reason_of(eval_fresh("(def 1 2)")), "expected first form to be a symbol");
    assert_eq!(reason_of(eval_fresh("(def x)")), "expected second form");
    assert_eq!(reason_of(eval_fresh("(def x 1 2)")), "def can only have two forms");
    assert_eq!(reason_of(eval_fresh("(fn)")), "expected args form");
    assert_eq!(reason_of(eval_fresh("(fn (a))")), "expected second form");
    assert_eq!(reason_of(eval_fresh("(fn (a) a a)")), "fn definition can only have two forms");
    assert_eq!(reason_of(eval_fresh("((fn a a) 1)")), "expected args form to be a list");
    assert_eq!(reason_of(eval_fresh("((fn (1) 1) 1)")), "expected symbols in the argument list");
}

#[test]
fn unexpected_form() {
    let mut env = default_env();
    let r = eval(&Expr::Builtin(Prim::Add), &mut env, 10);
    assert_eq!(reason_of(r), "unexpected form");
}

#[test]
fn exit_form() {
    assert!(matches!(eval_fresh("(exit)"), Err(Error::Exit)));
}

#[test]
fn special_forms_come_before_lookup() {
    let mut env = default_env();
    run(&mut env, "(def if 5)").unwrap();
    assert_eq!(number(run(&mut env, "(if true 1 2)")), 1);
    assert_eq!(number(run(&mut env, "if")), 5);
}

#[test]
fn trailing_tokens_ignored() {
    assert_eq!(number(eval_fresh("1 2")), 1);
    assert_eq!(number(eval_fresh("(+ 1 2))")), 3);
}

#[test]
fn recursion_limit_reported() {
    let mut env = default_env();
    run(&mut env, "(def f (fn () (f)))").unwrap();
    assert_eq!(reason_of(run(&mut env, "(f)")), "recursion limit reached");
    assert_eq!(env.depth(), 1);
}

#[test]
fn recursive_countdown() {
    let mut env = default_env();
    run(&mut env, "(def down (fn (n) (if (= n 0) 0 (down (- n 1)))))").unwrap();
    assert_eq!(number(run(&mut env, "(down 50)")), 0);
}

#[test]
fn numerals() {
    assert_eq!(numeral("42"), Some(42));
    assert_eq!(numeral("-5"), Some(-5));
    assert_eq!(numeral("+5"), Some(5));
    assert_eq!(numeral("-9223372036854775808"), Some(i64::MIN));
    assert_eq!(numeral("9223372036854775807"), Some(i64::MAX));
    assert_eq!(numeral("9223372036854775808"), None);
    assert_eq!(numeral("1.5"), None);
    assert_eq!(numeral("-"), None);
    assert_eq!(numeral(""), None);
    assert_eq!(numeral("12a"), None);
}

#[test]
fn atoms() {
    assert!(boolean(eval_fresh("true")));
    assert!(!boolean(eval_fresh("false")));
    assert_eq!(number(eval_fresh("-17")), -17);
    assert_eq!(reason_of(eval_fresh("1.5")), "unexpected symbol k='1.5'");
}

#[test]
fn text_forms() {
    assert_eq!(text_of("(1 (2 true) x)"), "(1,(2,true),x)");
    assert_eq!(text_of("()"), "()");
    assert_eq!(text_of("-42"), "-42");
    assert_eq!(text_of("-9223372036854775808"), "-9223372036854775808");
    assert_eq!(eval_fresh("+").unwrap().to_text(), "Function {}");
    assert_eq!(eval_fresh("(fn (a) a)").unwrap().to_text(), "Lambda {}");
    assert_eq!(eval_fresh("(def x 3)").unwrap().to_text(), "x");
}

#[test]
fn parse_reports_next_position() {
    let toks = tokenize("(a (b)) c");
    match parse(&toks, 0) {
        Ok((_, next)) => assert_eq!(next, 6),
        Err(e) => panic!("parse failed: {:?}", e),
    }
}

use mkd_lang::env::Env;
use mkd_lang::eval::eval;
use mkd_lang::expression::{Builtin, EvalError, Exp, Lambda};
use mkd_lang::run;
use mkd_lang::token::{atom, parse_tokens, to_ast, tokenize};

fn toks(v: &[&str]) -> Vec<String> {
    v.iter().map(|s| s.to_string()).collect()
}

fn number(r: &Result<Exp, EvalError>) -> i64 {
    match r {
        Ok(Exp::Number(n)) => *n,
        other => panic!("expected a number, got {:?}", other),
    }
}

fn run_in(env: &mut Env, src: &str) -> Result<Exp, EvalError> {
    run(src.to_string(), env)
}

#[test]
fn tokenize_simple_call() {
    assert_eq!(tokenize("(+ 1 2)".to_string()), toks(&["(", "+", "1", "2", ")"]));
}

#[test]
fn tokenize_whitespace_and_nesting() {
    assert_eq!(
        tokenize("  (def\tx\n(foo(bar)))  ".to_string()),
        toks(&["(", "def", "x", "(", "foo", "(", "bar", ")", ")", ")"])
    );
    assert_eq!(tokenize("".to_string()), toks(&[]));
    assert_eq!(tokenize(" \u{a0}\u{3000} ".to_string()), toks(&[]));
    assert_eq!(tokenize("ab)cd".to_string()), toks(&["ab", ")", "cd"]));
}

#[test]
fn atoms() {
    assert!(matches!(atom("true"), Exp::Boolean(true)));
    assert!(matches!(atom("false"), Exp::Boolean(false)));
    assert!(matches!(atom("42"), Exp::Number(42)));
    assert!(matches!(atom("-5"), Exp::Number(-5)));
    assert!(matches!(atom("+7"), Exp::Number(7)));
    assert!(matches!(atom("-9223372036854775808"), Exp::Number(i64::MIN)));
    assert!(matches!(atom("9223372036854775807"), Exp::Number(i64::MAX)));
    match atom("9223372036854775808") {
        Exp::Symbol(s) => assert_eq!(s, "9223372036854775808"),
        other => panic!("{:?}", other),
    }
    match atom("1.5") {
        Exp::Symbol(s) => assert_eq!(s, "1.5"),
        other => panic!("{:?}", other),
    }
    match atom("-") {
        Exp::Symbol(s) => assert_eq!(s, "-"),
        other => panic!("{:?}", other),
    }
    match atom("True") {
        Exp::Symbol(s) => assert_eq!(s, "True"),
        other => panic!("{:?}", other),
    }
}

#[test]
fn parse_nested_list() {
    let p = parse_tokens(toks(&["(", "+", "1", "(", "-", "3", ")", ")"])).unwrap();
    match p {
        Exp::List(outer) => {
            assert_eq!(outer.len(), 1);
            match &outer[0] {
                Exp::List(items) => {
                    assert_eq!(items.len(), 3);
                    assert!(matches!(&items[0], Exp::Symbol(s) if s == "+"));
                    assert!(matches!(&items[1], Exp::Number(1)));
                    assert!(matches!(&items[2], Exp::List(inner) if inner.len() == 2));
                }
                other => panic!("{:?}", other),
            }
        }
        other => panic!("{:?}", other),
    }
}

#[test]
fn parse_errors() {
    assert_eq!(parse_tokens(vec![]).unwrap_err(), EvalError::Parse);
    assert_eq!(parse_tokens(toks(&["(", ")"])).unwrap_err(), EvalError::Parse);
    assert_eq!(parse_tokens(toks(&[")"])).unwrap_err(), EvalError::Parse);
    let mut env = Env::default();
    assert_eq!(run_in(&mut env, "").unwrap_err(), EvalError::Parse);
    assert_eq!(run_in(&mut env, "   ").unwrap_err(), EvalError::Parse);
    assert_eq!(run_in(&mut env, "(fn () 1)").unwrap_err(), EvalError::Parse);
}

#[test]
fn to_ast_returns_position_after_list() {
    let t = toks(&["1", "2", ")", "3"]);
    let (e, j) = to_ast(&t, 0).unwrap();
    assert_eq!(j, 3);
    assert!(matches!(e, Exp::List(items) if items.len() == 2));
    let (e, j) = to_ast(&t, 3).unwrap();
    assert_eq!(j, 4);
    assert!(matches!(e, Exp::List(items) if items.len() == 1));
}

#[test]
fn sum_of_three() {
    let mut env = Env::default();
    assert_eq!(number(&run_in(&mut env, "(+ 1 2 3)")), 6);
}

#[test]
fn subtraction_of_rest() {
    let mut env = Env::default();
    assert_eq!(number(&run_in(&mut env, "(- 10 1 2)")), 7);
    assert_eq!(number(&run_in(&mut env, "(- 10)")), 10);
    assert_eq!(number(&run_in(&mut env, "(+)")), 0);
    assert_eq!(run_in(&mut env, "(-)").unwrap_err(), EvalError::Arity);
}

#[test]
fn chained_comparisons() {
    let mut env = Env::default();
    assert!(matches!(run_in(&mut env, "(< 1 2 3)"), Ok(Exp::Boolean(true))));
    assert!(matches!(run_in(&mut env, "(< 1 3 2)"), Ok(Exp::Boolean(false))));
    assert!(matches!(run_in(&mut env, "(> 3 2 1)"), Ok(Exp::Boolean(true))));
    assert!(matches!(run_in(&mut env, "(<= 1 1 2)"), Ok(Exp::Boolean(true))));
    assert!(matches!(run_in(&mut env, "(>= 2 2 3)"), Ok(Exp::Boolean(false))));
    assert!(matches!(run_in(&mut env, "(<)"), Ok(Exp::Boolean(true))));
    assert!(matches!(run_in(&mut env, "(< 5)"), Ok(Exp::Boolean(true))));
}

#[test]
fn definitions_persist() {
    let mut env = Env::default();
    assert!(matches!(run_in(&mut env, "(def x 5)"), Ok(Exp::Symbol(s)) if s == "x"));
    assert_eq!(number(&run_in(&mut env, "(+ x 1)")), 6);
    assert!(run_in(&mut env, "(def x 7)").is_ok());
    assert_eq!(number(&run_in(&mut env, "x")), 7);
}

#[test]
fn lambda_call_and_arity() {
    let mut env = Env::default();
    assert!(run_in(&mut env, "(def add (fn (a b) (+ a b)))").is_ok());
    assert_eq!(number(&run_in(&mut env, "(add 2 3)")), 5);
    assert_eq!(run_in(&mut env, "(add 2)").unwrap_err(), EvalError::Arity);
    assert_eq!(run_in(&mut env, "(add 1 2 3)").unwrap_err(), EvalError::Arity);
}

#[test]
fn unbound_symbol_keeps_bindings() {
    let mut env = Env::default();
    assert!(run_in(&mut env, "(def x 5)").is_ok());
    assert_eq!(run_in(&mut env, "nope").unwrap_err(), EvalError::UnboundSymbol);
    assert_eq!(run_in(&mut env, "(+ nope 1)").unwrap_err(), EvalError::UnboundSymbol);
    assert_eq!(number(&run_in(&mut env, "x")), 5);
    assert_eq!(number(&run_in(&mut env, "(+ 1 2)")), 3);
}

#[test]
fn arithmetic_matches_operator_tree() {
    let mut env = Env::default();
    assert_eq!(number(&run_in(&mut env, "(- (+ 1 2) (- 10 4) 1)")), 3 - (10 - 4) - 1);
    assert_eq!(number(&run_in(&mut env, "(+ (- 5) (+ 1 (+ 2 3)) -4)")), 5 + (1 + (2 + 3)) - 4);
    assert_eq!(number(&run_in(&mut env, "7")), 7);
}

#[test]
fn symbol_evaluation_is_repeatable() {
    let mut env = Env::default();
    assert!(run_in(&mut env, "(def y 11)").is_ok());
    let first = number(&run_in(&mut env, "y"));
    let second = number(&run_in(&mut env, "y"));
    assert_eq!(first, 11);
    assert_eq!(first, second);
}

#[test]
fn type_mismatches() {
    let mut env = Env::default();
    assert_eq!(run_in(&mut env, "(+ 1 true)").unwrap_err(), EvalError::TypeMismatch);
    assert_eq!(run_in(&mut env, "(< 1 false)").unwrap_err(), EvalError::TypeMismatch);
    assert_eq!(run_in(&mut env, "(def 5 1)").unwrap_err(), EvalError::TypeMismatch);
    assert_eq!(run_in(&mut env, "(if 1 2 3)").unwrap_err(), EvalError::TypeMismatch);
    assert!(run_in(&mut env, "(def bad (fn (1) 1))").is_ok());
    assert_eq!(run_in(&mut env, "(bad 2)").unwrap_err(), EvalError::TypeMismatch);
}

#[test]
fn special_form_arity() {
    let mut env = Env::default();
    assert_eq!(run_in(&mut env, "(def x 1 2)").unwrap_err(), EvalError::Arity);
    assert_eq!(run_in(&mut env, "(def)").unwrap_err(), EvalError::Arity);
    assert_eq!(run_in(&mut env, "(def x)").unwrap_err(), EvalError::Arity);
    assert_eq!(run_in(&mut env, "(fn (a))").unwrap_err(), EvalError::Arity);
    assert_eq!(run_in(&mut env, "(fn (a) a a)").unwrap_err(), EvalError::Arity);
    assert_eq!(run_in(&mut env, "(if true 1)").unwrap_err(), EvalError::Arity);
    assert_eq!(run_in(&mut env, "x").unwrap_err(), EvalError::UnboundSymbol);
}

#[test]
fn failed_definition_binds_nothing() {
    let mut env = Env::default();
    assert_eq!(run_in(&mut env, "(def z (+ 1 true))").unwrap_err(), EvalError::TypeMismatch);
    assert_eq!(run_in(&mut env, "z").unwrap_err(), EvalError::UnboundSymbol);
}

#[test]
fn conditional_evaluates_one_branch() {
    let mut env = Env::default();
    assert_eq!(number(&run_in(&mut env, "(if (< 1 2) 10 20)")), 10);
    assert_eq!(number(&run_in(&mut env, "(if (> 1 2) 10 20)")), 20);
    assert_eq!(number(&run_in(&mut env, "(if true 1 undefined)")), 1);
    assert_eq!(number(&run_in(&mut env, "(if false undefined 2)")), 2);
}

#[test]
fn overflow_is_reported() {
    let mut env = Env::default();
    assert_eq!(run_in(&mut env, "(+ 9223372036854775807 1)").unwrap_err(), EvalError::Overflow);
    assert_eq!(run_in(&mut env, "(- -9223372036854775808 1)").unwrap_err(), EvalError::Overflow);
    assert_eq!(
        number(&run_in(&mut env, "(+ 9223372036854775807 1 -1)")),
        9223372036854775807
    );
    assert_eq!(run_in(&mut env, "99999999999999999999").unwrap_err(), EvalError::UnboundSymbol);
}

#[test]
fn plain_lists_and_several_forms() {
    let mut env = Env::default();
    match run_in(&mut env, "(1 2 3)") {
        Ok(Exp::List(items)) => {
            let ns: Vec<i64> = items.iter().map(|e| number(&Ok(e.copy()))).collect();
            assert_eq!(ns, vec![1, 2, 3]);
        }
        other => panic!("{:?}", other),
    }
    match run_in(&mut env, "(+ 1 2) (+ 3 4)") {
        Ok(Exp::List(items)) => {
            let ns: Vec<i64> = items.iter().map(|e| number(&Ok(e.copy()))).collect();
            assert_eq!(ns, vec![3, 7]);
        }
        other => panic!("{:?}", other),
    }
}

#[test]
fn lambdas_see_the_callers_scope() {
    let mut env = Env::default();
    assert!(run_in(&mut env, "(def y 1)").is_ok());
    assert!(run_in(&mut env, "(def g (fn (a) (+ a y)))").is_ok());
    assert!(run_in(&mut env, "(def h (fn (y) (g 0)))").is_ok());
    assert_eq!(number(&run_in(&mut env, "(h 100)")), 100);
    assert_eq!(number(&run_in(&mut env, "(g 0)")), 1);
    assert!(run_in(&mut env, "(def k (fn (a) (def inner a)))").is_ok());
    assert!(run_in(&mut env, "(k 3)").is_ok());
    assert_eq!(run_in(&mut env, "inner").unwrap_err(), EvalError::UnboundSymbol);
}

#[test]
fn direct_eval_errors() {
    let mut env = Env::default();
    assert_eq!(eval(&Exp::List(vec![]), &mut env, 10).unwrap_err(), EvalError::EmptyList);
    assert_eq!(
        eval(&Exp::Func(Builtin::Add), &mut env, 10).unwrap_err(),
        EvalError::UnexpectedValueKind
    );
    let l = Exp::Lambda(Lambda {
        params: Box::new(Exp::List(vec![])),
        body: Box::new(Exp::Number(1)),
    });
    assert_eq!(eval(&l, &mut env, 10).unwrap_err(), EvalError::UnexpectedValueKind);
    assert_eq!(eval(&Exp::Number(3), &mut env, 0).unwrap_err(), EvalError::DepthExceeded);
}

#[test]
fn runaway_recursion_hits_depth_limit() {
    let mut env = Env::default();
    assert!(run_in(&mut env, "(def f (fn (n) (f n)))").is_ok());
    let call = parse_tokens(tokenize("(f 1)".to_string())).unwrap();
    assert_eq!(eval(&call, &mut env, 60).unwrap_err(), EvalError::DepthExceeded);
    assert_eq!(number(&run_in(&mut env, "(+ 1 1)")), 2);
}

#[test]
fn environment_lookup_and_define() {
    let mut env = Env::new();
    assert!(matches!(env.get_var("+"), Some(Exp::Func(Builtin::Add))));
    assert!(matches!(env.get_var(">="), Some(Exp::Func(Builtin::Ge))));
    assert!(env.get_var("if").is_none());
    env.define("a".to_string(), Exp::Number(4));
    assert!(matches!(env.get_var("a"), Some(Exp::Number(4))));
    env.define("a".to_string(), Exp::Boolean(true));
    assert!(matches!(env.get_var("a"), Some(Exp::Boolean(true))));
    env.define("+".to_string(), Exp::Number(0));
    assert!(matches!(env.get_var("+"), Some(Exp::Number(0))));
}

#[test]
fn copies_and_numbers() {
    let e = Exp::List(vec![Exp::Symbol("s".to_string()), Exp::Number(2)]);
    match e.copy() {
        Exp::List(items) => {
            assert!(matches!(&items[0], Exp::Symbol(s) if s == "s"));
            assert!(matches!(&items[1], Exp::Number(2)));
        }
        other => panic!("{:?}", other),
    }
    assert_eq!(Exp::Number(9).as_number(), Ok(9));
    assert_eq!(Exp::Boolean(true).as_number(), Err(EvalError::TypeMismatch));
}

#[test]
fn printed_forms() {
    let mut env = Env::default();
    assert_eq!(run_in(&mut env, "(+ 1 2)").unwrap().to_text(), "3");
    assert_eq!(run_in(&mut env, "(- 1 20)").unwrap().to_text(), "-19");
    assert_eq!(run_in(&mut env, "-9223372036854775808").unwrap().to_text(), "-9223372036854775808");
    assert_eq!(run_in(&mut env, "(< 1 2)").unwrap().to_text(), "Bool(true)");
    assert_eq!(run_in(&mut env, "false").unwrap().to_text(), "Bool(false)");
    assert_eq!(run_in(&mut env, "(1 (2 3) true)").unwrap().to_text(), "[1, [2, 3], Bool(true)]");
    assert_eq!(run_in(&mut env, "(def q 0)").unwrap().to_text(), "q");
    assert_eq!(run_in(&mut env, "+").unwrap().to_text(), "Func(<fn>)");
    assert_eq!(
        run_in(&mut env, "(fn (a b) (+ a b))").unwrap().to_text(),
        "Lambda([a, b] => [+, a, b])"
    );
}

#[test]
fn runaway_recursion_through_run() {
    let mut env = Env::default();
    assert!(run_in(&mut env, "(def f (fn (n) (f (+ n 1))))").is_ok());
    assert_eq!(run_in(&mut env, "(f 1)").unwrap_err(), EvalError::DepthExceeded);
    assert!(run_in(&mut env, "(def deep (fn (n) (if (< n 1) 0 (+ 1 (deep (- n 1))))))").is_ok());
    assert_eq!(number(&run_in(&mut env, "(deep 100)")), 100);
}

#[test]
fn unbalanced_parentheses_are_parse_errors() {
    let mut env = Env::default();
    assert_eq!(run_in(&mut env, "(+ 1").unwrap_err(), EvalError::Parse);
    assert_eq!(run_in(&mut env, "x )").unwrap_err(), EvalError::Parse);
    assert_eq!(run_in(&mut env, "(+ 1 2))").unwrap_err(), EvalError::Parse);
    assert_eq!(run_in(&mut env, "(+ 1 2)) (def w 1)").unwrap_err(), EvalError::Parse);
    assert_eq!(run_in(&mut env, "((+ 1 2)").unwrap_err(), EvalError::Parse);
    assert_eq!(run_in(&mut env, "w").unwrap_err(), EvalError::UnboundSymbol);
    assert_eq!(parse_tokens(toks(&["x", ")"])).unwrap_err(), EvalError::Parse);
    assert_eq!(parse_tokens(toks(&["(", "+", "1"])).unwrap_err(), EvalError::Parse);
    assert_eq!(run_in(&mut env, "((+ 1 2))").unwrap().to_text(), "[3]");
}

#[test]
fn to_ast_past_the_end_and_unclosed() {
    let t = toks(&["a", "b"]);
    let (e, j) = to_ast(&t, 5).unwrap();
    assert_eq!(j, 5);
    assert!(matches!(e, Exp::List(items) if items.is_empty()));
    let (e, j) = to_ast(&t, 2).unwrap();
    assert_eq!(j, 2);
    assert!(matches!(e, Exp::List(items) if items.is_empty()));
    let u = toks(&["(", "a", "b"]);
    assert_eq!(to_ast(&u, 0).unwrap_err(), EvalError::Parse);
}

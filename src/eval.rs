use vstd::prelude::*;
use vstd::string::*;
use crate::builtins::{apply_builtin, apply_builtin_spec};
use crate::env::{Env, EnvView, env_define, lookup};
use crate::expression::{EvalError, Exp, Lambda, Value, values_of, lemma_values_of, lemma_values_of_push};
use crate::token::{is_word, views_of};

verus! {

/// The result of evaluating something, and the scope chain after it.
pub type Outcome<T> = (Result<T, EvalError>, EnvView);

/// The names of a lambda's parameter forms, if they are all symbols.
pub open spec fn param_names(ps: Seq<Value>) -> Option<Seq<Seq<char>>>
    decreases ps.len(),
{
    if ps.len() == 0 {
        Some(seq![])
    } else {
        match (param_names(ps.drop_last()), ps.last()) {
            (Some(names), Value::Symbol(s)) => Some(names.push(s)),
            _ => None,
        }
    }
}

/// The chain after binding each name to its value, in order, in the innermost scope.
pub open spec fn bind_params(env: EnvView, names: Seq<Seq<char>>, vals: Seq<Value>) -> EnvView
    decreases names.len(),
{
    if names.len() == 0 || vals.len() == 0 {
        env
    } else {
        env_define(bind_params(env, names.drop_last(), vals.drop_last()), names.last(), vals.last())
    }
}

/// Evaluates `e` in `env` with `depth` levels of nesting left.
pub open spec fn eval_spec(e: Value, env: EnvView, depth: nat) -> Outcome<Value>
    decreases depth, 1nat,
{
    if depth == 0 {
        (Err(EvalError::DepthExceeded), env)
    } else {
        match e {
            Value::Symbol(s) => match lookup(env, s) {
                Some(v) => (Ok(v), env),
                None => (Err(EvalError::UnboundSymbol), env),
            },
            Value::Number(n) => (Ok(Value::Number(n)), env),
            Value::Boolean(b) => (Ok(Value::Boolean(b)), env),
            Value::Func(_) => (Err(EvalError::UnexpectedValueKind), env),
            Value::Lambda(_, _) => (Err(EvalError::UnexpectedValueKind), env),
            Value::List(items) => if items.len() == 0 {
                (Err(EvalError::EmptyList), env)
            } else {
                match special_spec(items[0], items.drop_first(), env, depth) {
                    Some(out) => out,
                    None => apply_spec(items, env, depth),
                }
            },
        }
    }
}

/// Evaluates a non-empty list whose head is no special form.
pub open spec fn apply_spec(items: Seq<Value>, env: EnvView, depth: nat) -> Outcome<Value>
    decreases depth, 0nat,
{
    if depth == 0 || items.len() == 0 {
        (Err(EvalError::DepthExceeded), env)
    } else {
        let rest = items.drop_first();
        let (h, env1) = eval_spec(items[0], env, (depth - 1) as nat);
        match h {
            Err(x) => (Err(x), env1),
            Ok(Value::Func(op)) => {
                let (a, env2) = eval_args(rest, env1, (depth - 1) as nat);
                match a {
                    Err(x) => (Err(x), env2),
                    Ok(vs) => (apply_builtin_spec(op, vs), env2),
                }
            },
            Ok(Value::Lambda(params, body)) => match *params {
                Value::List(ps) => match param_names(ps) {
                    None => (Err(EvalError::TypeMismatch), env1),
                    Some(names) => if names.len() != rest.len() {
                        (Err(EvalError::Arity), env1)
                    } else {
                        let (a, env2) = eval_args(rest, env1, (depth - 1) as nat);
                        match a {
                            Err(x) => (Err(x), env2),
                            Ok(vs) => {
                                let call = bind_params(env2.push(seq![]), names, vs);
                                let (r, env3) = eval_spec(*body, call, (depth - 1) as nat);
                                (r, env3.drop_last())
                            },
                        }
                    },
                },
                _ => (Err(EvalError::TypeMismatch), env1),
            },
            Ok(_) => {
                let (a, env2) = eval_args(items, env1, (depth - 1) as nat);
                match a {
                    Err(x) => (Err(x), env2),
                    Ok(vs) => (Ok(Value::List(vs)), env2),
                }
            },
        }
    }
}

/// Evaluates each form of `es` in turn, left to right, threading the scope chain.
pub open spec fn eval_args(es: Seq<Value>, env: EnvView, depth: nat) -> Outcome<Seq<Value>>
    decreases depth, es.len() + 2,
{
    if es.len() == 0 {
        (Ok(seq![]), env)
    } else {
        let (r, env1) = eval_args(es.drop_last(), env, depth);
        match r {
            Err(x) => (Err(x), env1),
            Ok(vs) => {
                let (r2, env2) = eval_spec(es.last(), env1, depth);
                match r2 {
                    Err(x) => (Err(x), env2),
                    Ok(v) => (Ok(vs.push(v)), env2),
                }
            },
        }
    }
}

pub open spec fn is_keyword(head: Value, k: Seq<char>) -> bool {
    head == Value::Symbol(k)
}

/// The special forms `def`, `fn` and `if`, which receive their forms unevaluated;
/// `None` where `head` names none of them.
pub open spec fn special_spec(head: Value, args: Seq<Value>, env: EnvView, depth: nat) -> Option<Outcome<Value>>
    decreases depth, 0nat,
{
    if depth == 0 {
        None
    } else if is_keyword(head, seq!['d', 'e', 'f']) {
        Some(
            if args.len() > 2 || args.len() == 0 {
                (Err(EvalError::Arity), env)
            } else {
                match args[0] {
                    Value::Symbol(name) => if args.len() < 2 {
                        (Err(EvalError::Arity), env)
                    } else {
                        let (r, env1) = eval_spec(args[1], env, (depth - 1) as nat);
                        match r {
                            Err(x) => (Err(x), env1),
                            Ok(v) => (Ok(Value::Symbol(name)), env_define(env1, name, v)),
                        }
                    },
                    _ => (Err(EvalError::TypeMismatch), env),
                }
            },
        )
    } else if is_keyword(head, seq!['f', 'n']) {
        Some(
            if args.len() != 2 {
                (Err(EvalError::Arity), env)
            } else {
                (Ok(Value::Lambda(Box::new(args[0]), Box::new(args[1]))), env)
            },
        )
    } else if is_keyword(head, seq!['i', 'f']) {
        Some(
            if args.len() != 3 {
                (Err(EvalError::Arity), env)
            } else {
                let (c, env1) = eval_spec(args[0], env, (depth - 1) as nat);
                match c {
                    Err(x) => (Err(x), env1),
                    Ok(Value::Boolean(b)) => eval_spec(if b { args[1] } else { args[2] }, env1, (depth - 1) as nat),
                    Ok(_) => (Err(EvalError::TypeMismatch), env1),
                }
            },
        )
    } else {
        None
    }
}

/// Evaluating a symbol that no scope binds fails with `UnboundSymbol` and leaves
/// every binding of the session as it was.
pub proof fn lemma_unbound_symbol(env: EnvView, name: Seq<char>, depth: nat)
    requires
        depth > 0,
        lookup(env, name) is None,
    ensures
        eval_spec(Value::Symbol(name), env, depth).0 == Err::<Value, EvalError>(EvalError::UnboundSymbol),
        eval_spec(Value::Symbol(name), env, depth).1 == env,
        forall|other: Seq<char>|
            lookup(#[trigger] eval_spec(Value::Symbol(name), env, depth).1, other) == lookup(env, other),
{
}

/// Evaluating a bound symbol gives its value and changes nothing, so evaluating it
/// a second time gives the same value again.
pub proof fn lemma_symbol_eval_repeatable(env: EnvView, name: Seq<char>, depth: nat)
    requires
        depth > 0,
        lookup(env, name) is Some,
    ensures
        ({
            let first = eval_spec(Value::Symbol(name), env, depth);
            let second = eval_spec(Value::Symbol(name), first.1, depth);
            &&& first.0 == Ok::<Value, EvalError>(lookup(env, name).unwrap())
            &&& first.1 == env
            &&& second == first
        }),
{
}

pub open spec fn result_view(r: Result<Exp, EvalError>) -> Result<Value, EvalError> {
    match r {
        Ok(e) => Ok(e@),
        Err(x) => Err(x),
    }
}

pub open spec fn forms_view(r: Result<Vec<Exp>, EvalError>) -> Result<Seq<Value>, EvalError> {
    match r {
        Ok(v) => Ok(values_of(v@)),
        Err(x) => Err(x),
    }
}

proof fn lemma_eval_args_err(es: Seq<Value>, env: EnvView, depth: nat, k: int)
    requires
        0 <= k <= es.len(),
        eval_args(es.take(k), env, depth).0 is Err,
    ensures
        eval_args(es, env, depth) == eval_args(es.take(k), env, depth),
    decreases es.len(),
{
    if k < es.len() {
        assert(es.drop_last().take(k) =~= es.take(k));
        lemma_eval_args_err(es.drop_last(), env, depth, k);
    } else {
        assert(es.take(k) =~= es);
    }
}

proof fn lemma_eval_args_len(es: Seq<Value>, env: EnvView, depth: nat)
    ensures
        match eval_args(es, env, depth).0 {
            Ok(vs) => vs.len() == es.len(),
            Err(_) => true,
        },
    decreases es.len(),
{
    if es.len() > 0 {
        lemma_eval_args_len(es.drop_last(), env, depth);
    }
}

proof fn lemma_param_names_none(ps: Seq<Value>, k: int)
    requires
        0 <= k <= ps.len(),
        param_names(ps.take(k)) is None,
    ensures
        param_names(ps) is None,
    decreases ps.len(),
{
    if k < ps.len() {
        assert(ps.drop_last().take(k) =~= ps.take(k));
        lemma_param_names_none(ps.drop_last(), k);
    } else {
        assert(ps.take(k) =~= ps);
    }
}

/// Evaluates `list[from..]` left to right into a vector of values.
fn eval_forms(list: &Vec<Exp>, from: usize, env: &mut Env, depth: usize) -> (r: Result<Vec<Exp>, EvalError>)
    requires
        from <= list@.len(),
        old(env).wf(),
    ensures
        final(env).wf(),
        final(env)@.len() == old(env)@.len(),
        (forms_view(r), final(env)@) == eval_args(
            values_of(list@).subrange(from as int, list@.len() as int),
            old(env)@,
            depth as nat,
        ),
    decreases depth, 3nat,
{
    proof {
        lemma_values_of(list@);
    }
    let ghost vs = values_of(list@);
    let ghost env0 = env@;
    let ghost all = vs.subrange(from as int, list@.len() as int);
    let mut out: Vec<Exp> = Vec::new();
    let mut i: usize = from;
    assert(vs.subrange(from as int, from as int) =~= seq![]);
    assert(values_of(out@) =~= seq![]);
    while i < list.len()
        invariant
            from <= i <= list@.len(),
            vs == values_of(list@),
            vs.len() == list@.len(),
            all == vs.subrange(from as int, list@.len() as int),
            forall|k: int| 0 <= k < list@.len() ==> #[trigger] vs[k] == list@[k]@,
            env.wf(),
            env0 == old(env)@,
            env@.len() == env0.len(),
            eval_args(vs.subrange(from as int, i as int), env0, depth as nat) == (
                Ok::<Seq<Value>, EvalError>(values_of(out@)),
                env@,
            ),
        decreases list@.len() - i,
    {
        assert(vs.subrange(from as int, i + 1).drop_last() =~= vs.subrange(from as int, i as int));
        assert(vs.subrange(from as int, i + 1).last() == list@[i as int]@);
        match eval(&list[i], env, depth) {
            Err(x) => {
                proof {
                    assert(all.take(i + 1 - from) =~= vs.subrange(from as int, i + 1));
                    lemma_eval_args_err(all, env0, depth as nat, i + 1 - from);
                }
                return Err(x);
            },
            Ok(v) => {
                proof {
                    lemma_values_of_push(out@, v);
                }
                out.push(v);
            },
        }
        i = i + 1;
    }
    Ok(out)
}

/// The names of a lambda's parameter forms, or a type mismatch where one is no symbol.
fn param_list(ps: &Vec<Exp>) -> (r: Result<Vec<String>, EvalError>)
    ensures
        match (r, param_names(values_of(ps@))) {
            (Ok(names), Some(n)) => views_of(names@) == n,
            (Err(x), None) => x == EvalError::TypeMismatch,
            _ => false,
        },
{
    proof {
        lemma_values_of(ps@);
    }
    let ghost vs = values_of(ps@);
    let mut names: Vec<String> = Vec::new();
    let mut i: usize = 0;
    assert(vs.take(0) =~= seq![]);
    while i < ps.len()
        invariant
            i <= ps@.len(),
            vs == values_of(ps@),
            vs.len() == ps@.len(),
            forall|k: int| 0 <= k < ps@.len() ==> #[trigger] vs[k] == ps@[k]@,
            param_names(vs.take(i as int)) == Some(views_of(names@)),
        decreases ps@.len() - i,
    {
        assert(vs.take(i + 1).drop_last() =~= vs.take(i as int));
        assert(vs.take(i + 1).last() == ps@[i as int]@);
        match &ps[i] {
            Exp::Symbol(s) => {
                let ghost prev = names@;
                names.push(s.clone());
                assert(views_of(names@) =~= views_of(prev).push(s@));
            },
            _ => {
                proof {
                    lemma_param_names_none(vs, i + 1);
                }
                return Err(EvalError::TypeMismatch);
            },
        }
        i = i + 1;
    }
    assert(vs.take(i as int) =~= vs);
    Ok(names)
}

/// Evaluates an expression in `env`, with `depth` levels of nesting left.
pub fn eval(expression: &Exp, env: &mut Env, depth: usize) -> (r: Result<Exp, EvalError>)
    requires
        old(env).wf(),
    ensures
        final(env).wf(),
        final(env)@.len() == old(env)@.len(),
        (result_view(r), final(env)@) == eval_spec(expression@, old(env)@, depth as nat),
    decreases depth, 2nat,
{
    if depth == 0 {
        return Err(EvalError::DepthExceeded);
    }
    match expression {
        Exp::Symbol(s) => match env.get_var(s.as_str()) {
            Some(v) => Ok(v),
            None => Err(EvalError::UnboundSymbol),
        },
        Exp::Number(n) => Ok(Exp::Number(*n)),
        Exp::Boolean(b) => Ok(Exp::Boolean(*b)),
        Exp::Func(_) => Err(EvalError::UnexpectedValueKind),
        Exp::Lambda(_) => Err(EvalError::UnexpectedValueKind),
        Exp::List(list) => {
            proof {
                lemma_values_of(list@);
            }
            if list.len() == 0 {
                return Err(EvalError::EmptyList);
            }
            match try_builtin_keyword(list, env, depth) {
                Some(r) => r,
                None => apply_list(list, env, depth),
            }
        },
    }
}

/// Evaluates a non-empty list whose head is no special form: a builtin call, a
/// lambda application, or else a plain list of the elements' values.
fn apply_list(list: &Vec<Exp>, env: &mut Env, depth: usize) -> (r: Result<Exp, EvalError>)
    requires
        old(env).wf(),
        list@.len() > 0,
        depth > 0,
    ensures
        final(env).wf(),
        final(env)@.len() == old(env)@.len(),
        (result_view(r), final(env)@) == apply_spec(values_of(list@), old(env)@, depth as nat),
    decreases depth, 1nat,
{
    proof {
        lemma_values_of(list@);
        assert(values_of(list@).drop_first() =~= values_of(list@).subrange(1, list@.len() as int));
        assert(values_of(list@).subrange(0, list@.len() as int) =~= values_of(list@));
    }
    let ghost items = values_of(list@);
    let ghost env0 = env@;
    match eval(&list[0], env, depth - 1) {
        Err(x) => Err(x),
        Ok(Exp::Func(op)) => match eval_forms(list, 1, env, depth - 1) {
            Err(x) => Err(x),
            Ok(args) => apply_builtin(op, &args),
        },
        Ok(Exp::Lambda(l)) => match &*l.params {
            Exp::List(ps) => {
                let ghost env1 = env@;
                assert(l.params@ == Value::List(values_of(ps@)));
                let names = match param_list(ps) {
                    Err(x) => {
                        return Err(x);
                    },
                    Ok(names) => names,
                };
                if names.len() != list.len() - 1 {
                    return Err(EvalError::Arity);
                }
                let args = match eval_forms(list, 1, env, depth - 1) {
                    Err(x) => {
                        return Err(x);
                    },
                    Ok(args) => args,
                };
                let ghost names_v = views_of(names@);
                let ghost vals = values_of(args@);
                let ghost env2 = env@;
                proof {
                    lemma_values_of(args@);
                }
                proof {
                    lemma_eval_args_len(items.drop_first(), env1, (depth - 1) as nat);
                }
                env.push_scope();
                let mut i: usize = 0;
                assert(names_v.take(0) =~= seq![]);
                assert(vals.take(0) =~= seq![]);
                while i < names.len()
                    invariant
                        i <= names@.len(),
                        names@.len() == args@.len(),
                        names_v == views_of(names@),
                        vals == values_of(args@),
                        vals.len() == args@.len(),
                        forall|k: int| 0 <= k < args@.len() ==> #[trigger] vals[k] == args@[k]@,
                        env@ == bind_params(env2.push(seq![]), names_v.take(i as int), vals.take(i as int)),
                        env@.len() == env2.len() + 1,
                        env.wf(),
                    decreases names@.len() - i,
                {
                    assert(names_v.take(i + 1).drop_last() =~= names_v.take(i as int));
                    assert(vals.take(i + 1).drop_last() =~= vals.take(i as int));
                    assert(names_v.take(i + 1).last() == names@[i as int]@);
                    assert(vals.take(i + 1).last() == args@[i as int]@);
                    env.define(names[i].clone(), args[i].copy());
                    i = i + 1;
                }
                assert(names_v.take(i as int) =~= names_v);
                assert(vals.take(i as int) =~= vals);
                let r = eval(&l.body, env, depth - 1);
                env.pop_scope();
                r
            },
            _ => Err(EvalError::TypeMismatch),
        },
        Ok(_) => match eval_forms(list, 0, env, depth - 1) {
            Err(x) => Err(x),
            Ok(vs) => Ok(Exp::List(vs)),
        },
    }
}

/// Handles the special forms `def`, `fn` and `if` at the head of `list`, which
/// receive their forms unevaluated; `None` where the head names none of them.
fn try_builtin_keyword(list: &Vec<Exp>, env: &mut Env, depth: usize) -> (r: Option<Result<Exp, EvalError>>)
    requires
        old(env).wf(),
        list@.len() > 0,
        depth > 0,
    ensures
        final(env).wf(),
        final(env)@.len() == old(env)@.len(),
        match (r, special_spec(list@[0]@, values_of(list@).drop_first(), old(env)@, depth as nat)) {
            (None, None) => final(env)@ == old(env)@,
            (Some(x), Some(out)) => (result_view(x), final(env)@) == out,
            _ => false,
        },
    decreases depth, 1nat,
{
    proof {
        lemma_values_of(list@);
        reveal_strlit("def");
        reveal_strlit("fn");
        reveal_strlit("if");
        assert("def"@ =~= seq!['d', 'e', 'f']);
        assert("fn"@ =~= seq!['f', 'n']);
        assert("if"@ =~= seq!['i', 'f']);
    }
    let ghost args = values_of(list@).drop_first();
    assert(forall|k: int| 0 <= k < args.len() ==> args[k] == #[trigger] list@[k + 1]@);
    let keyword = match &list[0] {
        Exp::Symbol(k) => k,
        _ => {
            return None;
        },
    };
    let n = list.len() - 1;
    if is_word(keyword.as_str(), "def") {
        if n > 2 || n == 0 {
            return Some(Err(EvalError::Arity));
        }
        match &list[1] {
            Exp::Symbol(name) => {
                if n < 2 {
                    return Some(Err(EvalError::Arity));
                }
                match eval(&list[2], env, depth - 1) {
                    Err(x) => Some(Err(x)),
                    Ok(v) => {
                        let sym = name.clone();
                        env.define(name.clone(), v);
                        Some(Ok(Exp::Symbol(sym)))
                    },
                }
            },
            _ => Some(Err(EvalError::TypeMismatch)),
        }
    } else if is_word(keyword.as_str(), "fn") {
        if n != 2 {
            return Some(Err(EvalError::Arity));
        }
        let params = list[1].copy();
        let body = list[2].copy();
        Some(Ok(Exp::Lambda(Lambda { params: Box::new(params), body: Box::new(body) })))
    } else if is_word(keyword.as_str(), "if") {
        if n != 3 {
            return Some(Err(EvalError::Arity));
        }
        match eval(&list[1], env, depth - 1) {
            Err(x) => Some(Err(x)),
            Ok(Exp::Boolean(b)) => {
                if b {
                    Some(eval(&list[2], env, depth - 1))
                } else {
                    Some(eval(&list[3], env, depth - 1))
                }
            },
            Ok(_) => Some(Err(EvalError::TypeMismatch)),
        }
    } else {
        None
    }
}

} // verus!

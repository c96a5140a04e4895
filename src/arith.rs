use vstd::prelude::*;
use crate::builtins::{all_numbers, apply_builtin_spec, numbers_of, sum};
use crate::env::{EnvView, lookup};
use crate::eval::{eval_args, eval_spec};
use crate::expression::{Builtin, EvalError, Value};
use crate::token::fits_i64;

verus! {

pub open spec fn plus_symbol() -> Value {
    Value::Symbol(seq!['+'])
}

pub open spec fn minus_symbol() -> Value {
    Value::Symbol(seq!['-'])
}

/// The value of an arithmetic form by ordinary left-associative arithmetic:
/// `(+ a b c)` is `(a + b) + c`, `(- a b c)` is `(a - b) - c`.
pub open spec fn arith_value(e: Value) -> int
    decreases e, 0int,
{
    match e {
        Value::Number(n) => n,
        Value::List(items) => fold_operands(items, items.len() as int),
        _ => 0,
    }
}

/// The operator `items[0]` applied left to right to the operands `items[1..n]`.
pub open spec fn fold_operands(items: Seq<Value>, n: int) -> int
    decreases items, n,
{
    if n <= 1 || n > items.len() {
        0
    } else if items[0] == minus_symbol() && n == 2 {
        arith_value(items[1])
    } else if items[0] == minus_symbol() {
        fold_operands(items, n - 1) - arith_value(items[n - 1])
    } else {
        fold_operands(items, n - 1) + arith_value(items[n - 1])
    }
}

/// `e` is built from numeric literals, `+` forms and `-` forms with at least one
/// operand; every part of it has a value in the range of `i64`; and `depth`
/// suffices for its nesting.
pub open spec fn arith_ok(e: Value, depth: nat) -> bool
    decreases e,
{
    match e {
        Value::Number(n) => depth > 0 && fits_i64(n),
        Value::List(items) => depth > 1 && items.len() >= 1 && (items[0] == plus_symbol() || (
        items[0] == minus_symbol() && items.len() >= 2)) && (forall|i: int|
            1 <= i < items.len() ==> arith_ok(#[trigger] items[i], (depth - 1) as nat))
            && fits_i64(arith_value(e)),
        _ => false,
    }
}

/// The scope chain binds `+` and `-` to the builtins.
pub open spec fn has_arith_builtins(env: EnvView) -> bool {
    &&& lookup(env, seq!['+']) == Some(Value::Func(Builtin::Add))
    &&& lookup(env, seq!['-']) == Some(Value::Func(Builtin::Sub))
}

pub open spec fn operand_values(items: Seq<Value>) -> Seq<int> {
    items.drop_first().map_values(|v: Value| arith_value(v))
}

pub open spec fn as_numbers(ns: Seq<int>) -> Seq<Value> {
    ns.map_values(|n: int| Value::Number(n))
}

/// An arithmetic form evaluates to the number that ordinary left-associative
/// arithmetic gives it, and leaves the scope chain as it was.
pub proof fn lemma_arith_eval(e: Value, env: EnvView, depth: nat)
    requires
        arith_ok(e, depth),
        has_arith_builtins(env),
    ensures
        eval_spec(e, env, depth) == (Ok::<Value, EvalError>(Value::Number(arith_value(e))), env),
    decreases e, 0int,
{
    if let Value::List(items) = e {
        let d1 = (depth - 1) as nat;
        let rest = items.drop_first();
        assert(items[0] == plus_symbol() || items[0] == minus_symbol());
        assert(seq!['+'] != seq!['d', 'e', 'f'] && seq!['+'] != seq!['f', 'n'] && seq!['+'] != seq!['i', 'f']);
        assert(seq!['-'] != seq!['d', 'e', 'f'] && seq!['-'] != seq!['f', 'n'] && seq!['-'] != seq!['i', 'f']);
        lemma_arith_operands(items, env, d1, rest.len() as int);
        assert(rest.take(rest.len() as int) =~= rest);
        let ns = operand_values(items);
        assert(ns.take(rest.len() as int) =~= ns);
        assert(numbers_of(as_numbers(ns)) =~= ns);
        assert(crate::eval::special_spec(items[0], rest, env, depth) is None);
        assert(eval_spec(items[0], env, d1) == (Ok::<Value, EvalError>(
            if items[0] == plus_symbol() { Value::Func(Builtin::Add) } else { Value::Func(Builtin::Sub) }), env));
        assert(eval_args(rest, env, d1) == (Ok::<Seq<Value>, EvalError>(as_numbers(ns)), env));
        if items[0] == plus_symbol() {
            lemma_fold_plus(items, items.len() as int);
            assert(ns.take(ns.len() as int) =~= ns);
            assert(apply_builtin_spec(Builtin::Add, as_numbers(ns)) == Ok::<Value, EvalError>(Value::Number(arith_value(e))));
        } else {
            lemma_fold_minus(items, items.len() as int);
            assert(ns.subrange(1, ns.len() as int) =~= ns.drop_first());
            assert(apply_builtin_spec(Builtin::Sub, as_numbers(ns)) == Ok::<Value, EvalError>(Value::Number(arith_value(e))));
        }
    }
}

proof fn lemma_arith_operands(items: Seq<Value>, env: EnvView, depth: nat, k: int)
    requires
        0 <= k < items.len(),
        forall|i: int| 1 <= i < items.len() ==> arith_ok(#[trigger] items[i], depth),
        has_arith_builtins(env),
    ensures
        eval_args(items.drop_first().take(k), env, depth) == (
            Ok::<Seq<Value>, EvalError>(as_numbers(operand_values(items).take(k))),
            env,
        ),
    decreases items, k,
{
    let s = items.drop_first().take(k);
    if k == 0 {
        assert(as_numbers(operand_values(items).take(k)) =~= seq![]);
    } else {
        assert(s.drop_last() =~= items.drop_first().take(k - 1));
        assert(s.last() == items[k]);
        lemma_arith_operands(items, env, depth, k - 1);
        lemma_arith_eval(items[k], env, depth);
        assert(as_numbers(operand_values(items).take(k)) =~= as_numbers(operand_values(items).take(k - 1)).push(
            Value::Number(arith_value(items[k])),
        ));
    }
}

proof fn lemma_fold_plus(items: Seq<Value>, k: int)
    requires
        items.len() >= 1,
        items[0] == plus_symbol(),
        1 <= k <= items.len(),
    ensures
        fold_operands(items, k) == sum(operand_values(items).take(k - 1)),
    decreases k,
{
    let ns = operand_values(items);
    if k == 1 {
        assert(ns.take(0) =~= seq![]);
    } else {
        lemma_fold_plus(items, k - 1);
        assert(seq!['+'][0] != seq!['-'][0]);
        assert(ns.take(k - 1).drop_last() =~= ns.take(k - 2));
        assert(ns.take(k - 1).last() == arith_value(items[k - 1]));
    }
}

proof fn lemma_fold_minus(items: Seq<Value>, k: int)
    requires
        items.len() >= 2,
        items[0] == minus_symbol(),
        2 <= k <= items.len(),
    ensures
        fold_operands(items, k) == operand_values(items)[0] - sum(operand_values(items).subrange(1, k - 1)),
    decreases k,
{
    let ns = operand_values(items);
    if k == 2 {
        assert(ns.subrange(1, 1) =~= seq![]);
    } else {
        lemma_fold_minus(items, k - 1);
        assert(ns.subrange(1, k - 1).drop_last() =~= ns.subrange(1, k - 2));
        assert(ns.subrange(1, k - 1).last() == arith_value(items[k - 1]));
    }
}

} // verus!

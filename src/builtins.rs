use vstd::prelude::*;
use crate::expression::{Builtin, EvalError, Exp, Value, values_of, lemma_values_of};
use crate::token::fits_i64;

verus! {

pub open spec fn all_numbers(s: Seq<Value>) -> bool {
    forall|i: int| 0 <= i < s.len() ==> #[trigger] s[i] is Number
}

pub open spec fn number_of(v: Value) -> int {
    match v {
        Value::Number(n) => n,
        _ => 0,
    }
}

pub open spec fn numbers_of(s: Seq<Value>) -> Seq<int> {
    s.map_values(|v: Value| number_of(v))
}

pub open spec fn sum(s: Seq<int>) -> int
    decreases s.len(),
{
    if s.len() == 0 {
        0
    } else {
        sum(s.drop_last()) + s.last()
    }
}

/// Whether `a` and `b` stand in the order that a comparison builtin tests.
pub open spec fn ordered(op: Builtin, a: int, b: int) -> bool {
    match op {
        Builtin::Lt => a < b,
        Builtin::Gt => a > b,
        Builtin::Le => a <= b,
        _ => a >= b,
    }
}

/// Whether every consecutive pair of `s` stands in the order of `op`.
pub open spec fn chain_holds(op: Builtin, s: Seq<int>) -> bool {
    forall|i: int| 0 <= i < s.len() - 1 ==> ordered(op, #[trigger] s[i], s[i + 1])
}

pub open spec fn number_result(n: int) -> Result<Value, EvalError> {
    if fits_i64(n) {
        Ok(Value::Number(n))
    } else {
        Err(EvalError::Overflow)
    }
}

/// What a builtin returns for already evaluated arguments.
pub open spec fn apply_builtin_spec(op: Builtin, args: Seq<Value>) -> Result<Value, EvalError> {
    if !all_numbers(args) {
        Err(EvalError::TypeMismatch)
    } else {
        let ns = numbers_of(args);
        match op {
            Builtin::Add => number_result(sum(ns)),
            Builtin::Sub => if ns.len() == 0 {
                Err(EvalError::Arity)
            } else {
                number_result(ns[0] - sum(ns.drop_first()))
            },
            _ => Ok(Value::Boolean(chain_holds(op, ns))),
        }
    }
}

/// The numbers that the arguments hold, or a type mismatch.
fn numbers(args: &Vec<Exp>) -> (r: Result<Vec<i64>, EvalError>)
    ensures
        match r {
            Ok(ns) => all_numbers(values_of(args@)) && ns@.map_values(|x: i64| x as int)
                == numbers_of(values_of(args@)),
            Err(e) => !all_numbers(values_of(args@)) && e == EvalError::TypeMismatch,
        },
{
    proof {
        lemma_values_of(args@);
    }
    let ghost vs = values_of(args@);
    let mut ns: Vec<i64> = Vec::new();
    let mut i: usize = 0;
    while i < args.len()
        invariant
            vs == values_of(args@),
            vs.len() == args@.len(),
            forall|k: int| 0 <= k < args@.len() ==> #[trigger] vs[k] == args@[k]@,
            i <= args@.len(),
            ns@.len() == i,
            forall|k: int| 0 <= k < i ==> #[trigger] vs[k] is Number,
            forall|k: int| 0 <= k < i ==> #[trigger] ns@[k] as int == number_of(vs[k]),
        decreases args@.len() - i,
    {
        assert(vs[i as int] == args@[i as int]@);
        match args[i].as_number() {
            Ok(n) => {
                ns.push(n);
            },
            Err(e) => {
                assert(!(vs[i as int] is Number));
                return Err(e);
            },
        }
        i = i + 1;
    }
    assert(ns@.map_values(|x: i64| x as int) =~= numbers_of(vs));
    Ok(ns)
}

/// The sum of `ns[from..]`, computed without overflow.
fn sum_from(ns: &Vec<i64>, from: usize) -> (r: i128)
    requires
        from <= ns@.len(),
    ensures
        r as int == sum(ns@.map_values(|x: i64| x as int).subrange(from as int, ns@.len() as int)),
        -(ns@.len() - from) * 0x8000_0000_0000_0000 <= r <= (ns@.len() - from) * 0x8000_0000_0000_0000,
{
    let ghost s = ns@.map_values(|x: i64| x as int);
    let mut acc: i128 = 0;
    let mut i: usize = from;
    assert(s.subrange(from as int, from as int) =~= seq![]);
    while i < ns.len()
        invariant
            s == ns@.map_values(|x: i64| x as int),
            from <= i <= ns@.len(),
            acc as int == sum(s.subrange(from as int, i as int)),
            -(i - from) * 0x8000_0000_0000_0000 <= acc <= (i - from) * 0x8000_0000_0000_0000,
            i <= usize::MAX,
        decreases ns@.len() - i,
    {
        assert(s.subrange(from as int, i as int + 1).drop_last() =~= s.subrange(from as int, i as int));
        acc = acc + ns[i] as i128;
        i = i + 1;
    }
    acc
}

/// Applies a builtin to already evaluated arguments.
pub fn apply_builtin(op: Builtin, args: &Vec<Exp>) -> (r: Result<Exp, EvalError>)
    ensures
        match (r, apply_builtin_spec(op, values_of(args@))) {
            (Ok(e), Ok(v)) => e@ == v,
            (Err(e), Err(f)) => e == f,
            _ => false,
        },
{
    let ns = match numbers(args) {
        Ok(ns) => ns,
        Err(e) => {
            return Err(e);
        },
    };
    let ghost s = ns@.map_values(|x: i64| x as int);
    assert(s.subrange(0, ns@.len() as int) =~= s);
    match op {
        Builtin::Add => {
            let total = sum_from(&ns, 0);
            if total < i64::MIN as i128 || total > i64::MAX as i128 {
                Err(EvalError::Overflow)
            } else {
                Ok(Exp::Number(total as i64))
            }
        },
        Builtin::Sub => {
            if ns.len() == 0 {
                return Err(EvalError::Arity);
            }
            let rest = sum_from(&ns, 1);
            assert(s.subrange(1, ns@.len() as int) =~= s.drop_first());
            let total = ns[0] as i128 - rest;
            if total < i64::MIN as i128 || total > i64::MAX as i128 {
                Err(EvalError::Overflow)
            } else {
                Ok(Exp::Number(total as i64))
            }
        },
        _ => {
            let mut i: usize = 1;
            while i < ns.len()
                invariant
                    s == ns@.map_values(|x: i64| x as int),
                    s == numbers_of(values_of(args@)),
                    all_numbers(values_of(args@)),
                    1 <= i,
                    op != Builtin::Add && op != Builtin::Sub,
                    forall|k: int| 0 <= k < i - 1 && k < s.len() - 1 ==> ordered(op, #[trigger] s[k], s[k + 1]),
                decreases ns@.len() - i,
            {
                let a = ns[i - 1];
                let b = ns[i];
                let holds = match op {
                    Builtin::Lt => a < b,
                    Builtin::Gt => a > b,
                    Builtin::Le => a <= b,
                    _ => a >= b,
                };
                assert(s[i - 1] == a as int && s[i as int] == b as int);
                if !holds {
                    assert(!ordered(op, s[i - 1], s[i as int]));
                    assert(!chain_holds(op, s));
                    return Ok(Exp::Boolean(false));
                }
                i = i + 1;
            }
            Ok(Exp::Boolean(true))
        },
    }
}

} // verus!

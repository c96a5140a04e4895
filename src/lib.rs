//! A small S-expression language: source text is tokenized, parsed into nested
//! lists, and evaluated against a chain of scopes.
use vstd::prelude::*;

pub mod arith;
pub mod builtins;
pub mod env;
pub mod eval;
pub mod expression;
pub mod token;

use env::Env;
use eval::{eval, eval_spec, result_view};
use expression::{EvalError, Exp, Value};
use token::{parse_of, parse_tokens, tokenize, tokens_of};

verus! {

/// How deeply one call of `run` may nest evaluation.
pub const MAX_DEPTH: usize = 2000;

/// The form that a parsed program evaluates: a program of one form is that form,
/// any other is its outer list.
pub open spec fn program_of(p: Value) -> Value {
    match p {
        Value::List(items) => if items.len() == 1 {
            items[0]
        } else {
            p
        },
        _ => p,
    }
}

/// Tokenizes, parses and evaluates one piece of source text in the session `env`.
pub fn run(input: String, env: &mut Env) -> (r: Result<Exp, EvalError>)
    requires
        old(env).wf(),
    ensures
        final(env).wf(),
        match parse_of(tokens_of(input@)) {
            Err(x) => r == Err::<Exp, EvalError>(x) && final(env)@ == old(env)@,
            Ok(p) => (result_view(r), final(env)@) == eval_spec(program_of(p), old(env)@, MAX_DEPTH as nat),
        },
{
    let tokens = tokenize(input);
    let parsed = match parse_tokens(tokens) {
        Ok(p) => p,
        Err(x) => {
            return Err(x);
        },
    };
    match &parsed {
        Exp::List(items) => {
            proof {
                expression::lemma_values_of(items@);
            }
            if items.len() == 1 {
                return eval(&items[0], env, MAX_DEPTH);
            }
        },
        _ => {},
    }
    eval(&parsed, env, MAX_DEPTH)
}

} // verus!

use vstd::prelude::*;
use vstd::string::*;

verus! {

/// The native operations installed in the root scope.
#[derive(Clone, Copy, Debug, PartialEq, Eq, Structural)]
pub enum Builtin {
    Add,
    Sub,
    Lt,
    Gt,
    Le,
    Ge,
}

/// The ways in which parsing or evaluation fails.
#[derive(Clone, Copy, Debug, PartialEq, Eq, Structural)]
pub enum EvalError {
    /// Malformed token stream: no tokens, or an empty `()` form.
    Parse,
    /// A symbol that no scope of the chain defines.
    UnboundSymbol,
    /// A value of the wrong kind handed to an operation.
    TypeMismatch,
    /// A wrong number of arguments for a special form or a lambda.
    Arity,
    /// Evaluation of the empty list.
    EmptyList,
    /// A function or lambda value given to evaluate directly.
    UnexpectedValueKind,
    /// A numeric result outside the range of `i64`.
    Overflow,
    /// Evaluation nested deeper than the depth budget allows.
    DepthExceeded,
}

/// A runtime value, and also the form in which programs are represented.
#[derive(Debug)]
pub enum Exp {
    Symbol(String),
    Number(i64),
    Boolean(bool),
    List(Vec<Exp>),
    Func(Builtin),
    Lambda(Lambda),
}

/// A user-defined function: its parameter form and its body, both unevaluated.
#[derive(Debug)]
pub struct Lambda {
    pub params: Box<Exp>,
    pub body: Box<Exp>,
}

/// The mathematical value that an `Exp` stands for.
pub enum Value {
    Symbol(Seq<char>),
    Number(int),
    Boolean(bool),
    List(Seq<Value>),
    Func(Builtin),
    Lambda(Box<Value>, Box<Value>),
}

impl Exp {
    pub open spec fn view(self) -> Value
        decreases self,
    {
        match self {
            Exp::Symbol(s) => Value::Symbol(s@),
            Exp::Number(n) => Value::Number(n as int),
            Exp::Boolean(b) => Value::Boolean(b),
            Exp::List(v) => Value::List(values_of(v@)),
            Exp::Func(f) => Value::Func(f),
            Exp::Lambda(l) => Value::Lambda(Box::new(l.params.view()), Box::new(l.body.view())),
        }
    }

    /// A copy of this value, element by element.
    pub fn copy(&self) -> (r: Exp)
        ensures
            r@ == self@,
        decreases self,
    {
        match self {
            Exp::Symbol(s) => Exp::Symbol(s.clone()),
            Exp::Number(n) => Exp::Number(*n),
            Exp::Boolean(b) => Exp::Boolean(*b),
            Exp::List(v) => Exp::List(copy_all(v)),
            Exp::Func(f) => Exp::Func(*f),
            Exp::Lambda(l) => Exp::Lambda(
                Lambda { params: Box::new(l.params.copy()), body: Box::new(l.body.copy()) },
            ),
        }
    }

    /// Appends the printed form of this value to `out`.
    pub fn write_text(&self, out: &mut String)
        ensures
            final(out)@ == old(out)@ + text_of(self@),
        decreases self,
    {
        let ghost o = out@;
        match self {
            Exp::Symbol(s) => {
                out.append(s.as_str());
                assert(out@ =~= o + text_of(self@));
            },
            Exp::Number(n) => {
                if *n < 0 {
                    out.append("-");
                    proof {
                        reveal_strlit("-");
                    }
                    let m: u64 = (0i128 - *n as i128) as u64;
                    append_digits(out, m);
                    assert(out@ =~= o + text_of(self@));
                } else {
                    append_digits(out, *n as u64);
                    assert(out@ =~= o + text_of(self@));
                }
            },
            Exp::Boolean(b) => {
                if *b {
                    out.append("Bool(true)");
                } else {
                    out.append("Bool(false)");
                }
                assert(out@ =~= o + text_of(self@));
            },
            Exp::List(items) => {
                proof {
                    lemma_values_of(items@);
                }
                out.append("[");
                write_all(items, out);
                out.append("]");
                assert(out@ =~= o + text_of(self@));
            },
            Exp::Func(_) => {
                out.append("Func(<fn>)");
                assert(out@ =~= o + text_of(self@));
            },
            Exp::Lambda(l) => {
                out.append("Lambda(");
                l.params.write_text(out);
                out.append(" => ");
                l.body.write_text(out);
                out.append(")");
                assert(out@ =~= o + text_of(self@));
            },
        }
    }

    /// The printed form of this value.
    pub fn to_text(&self) -> (r: String)
        ensures
            r@ == text_of(self@),
    {
        let mut out = String::new();
        self.write_text(&mut out);
        assert(out@ =~= text_of(self@));
        out
    }

    /// The number that this value holds, or a type mismatch.
    pub fn as_number(&self) -> (r: Result<i64, EvalError>)
        ensures
            match self@ {
                Value::Number(n) => r == Ok::<i64, EvalError>(n as i64),
                _ => r == Err::<i64, EvalError>(EvalError::TypeMismatch),
            },
    {
        match self {
            Exp::Number(n) => Ok(*n),
            _ => Err(EvalError::TypeMismatch),
        }
    }
}

pub open spec fn digit_char(d: int) -> char {
    if d == 0 { '0' } else if d == 1 { '1' } else if d == 2 { '2' } else if d == 3 { '3' }
    else if d == 4 { '4' } else if d == 5 { '5' } else if d == 6 { '6' } else if d == 7 { '7' }
    else if d == 8 { '8' } else { '9' }
}

/// The decimal digits of a natural number, without leading zeros.
pub open spec fn digits_of(n: nat) -> Seq<char>
    decreases n,
{
    if n < 10 {
        seq![digit_char(n as int)]
    } else {
        digits_of(n / 10) + seq![digit_char((n % 10) as int)]
    }
}

/// The decimal form of an integer.
pub open spec fn decimal(n: int) -> Seq<char> {
    if n < 0 {
        seq!['-'] + digits_of((-n) as nat)
    } else {
        digits_of(n as nat)
    }
}

/// The printed form of a value: symbols as they are, numbers in decimal, booleans as
/// `Bool(..)`, lists in brackets with `, ` between elements, builtins as a
/// placeholder, lambdas with their parameter and body forms.
pub open spec fn text_of(v: Value) -> Seq<char>
    decreases v, 0int,
{
    match v {
        Value::Symbol(s) => s,
        Value::Number(n) => decimal(n),
        Value::Boolean(b) => if b {
            "Bool(true)"@
        } else {
            "Bool(false)"@
        },
        Value::List(items) => "["@ + joined(items, items.len() as int) + "]"@,
        Value::Func(_) => "Func(<fn>)"@,
        Value::Lambda(p, b) => "Lambda("@ + text_of(*p) + " => "@ + text_of(*b) + ")"@,
    }
}

/// The printed forms of `items[..n]`, with `, ` between them.
pub open spec fn joined(items: Seq<Value>, n: int) -> Seq<char>
    decreases items, n,
{
    if n <= 0 || n > items.len() {
        seq![]
    } else if n == 1 {
        text_of(items[0])
    } else {
        joined(items, n - 1) + ", "@ + text_of(items[n - 1])
    }
}

fn append_digit(out: &mut String, d: u64)
    requires
        d < 10,
    ensures
        final(out)@ == old(out)@.push(digit_char(d as int)),
{
    let t = if d == 0 { "0" } else if d == 1 { "1" } else if d == 2 { "2" } else if d == 3 { "3" }
        else if d == 4 { "4" } else if d == 5 { "5" } else if d == 6 { "6" } else if d == 7 { "7" }
        else if d == 8 { "8" } else { "9" };
    proof {
        reveal_strlit("0"); reveal_strlit("1"); reveal_strlit("2"); reveal_strlit("3");
        reveal_strlit("4"); reveal_strlit("5"); reveal_strlit("6"); reveal_strlit("7");
        reveal_strlit("8"); reveal_strlit("9");
        assert(t@ =~= seq![digit_char(d as int)]);
    }
    out.append(t);
}

fn append_digits(out: &mut String, n: u64)
    ensures
        final(out)@ == old(out)@ + digits_of(n as nat),
    decreases n,
{
    if n >= 10 {
        append_digits(out, n / 10);
    }
    append_digit(out, n % 10);
    assert(final(out)@ =~= old(out)@ + digits_of(n as nat));
}

/// The values of a sequence of expressions.
pub open spec fn values_of(s: Seq<Exp>) -> Seq<Value>
    decreases s,
{
    if s.len() == 0 {
        seq![]
    } else {
        values_of(s.drop_last()).push(s.last().view())
    }
}

/// Appends the printed forms of the elements of `items`, with `, ` between them.
fn write_all(items: &Vec<Exp>, out: &mut String)
    ensures
        final(out)@ == old(out)@ + joined(values_of(items@), items@.len() as int),
    decreases items,
{
    let mut i: usize = 0;
    let ghost start = out@;
    let ghost vs = values_of(items@);
    proof {
        lemma_values_of(items@);
        reveal_strlit(", ");
        assert(out@ =~= start + joined(vs, 0));
    }
    while i < items.len()
        invariant
            i <= items@.len(),
            vs == values_of(items@),
            vs.len() == items@.len(),
            forall|k: int| 0 <= k < items@.len() ==> #[trigger] vs[k] == items@[k]@,
            out@ == start + joined(vs, i as int),
        decreases items@.len() - i,
    {
        if i > 0 {
            out.append(", ");
        }
        proof {
            assert(decreases_to!(items => items[i as int]));
        }
        items[i].write_text(out);
        assert(out@ =~= start + joined(vs, i + 1));
        i = i + 1;
    }
}

/// A copy of each expression of `v`, in order.
pub fn copy_all(v: &Vec<Exp>) -> (r: Vec<Exp>)
    ensures
        values_of(r@) == values_of(v@),
    decreases v,
{
    let mut r: Vec<Exp> = Vec::new();
    let mut i: usize = 0;
    while i < v.len()
        invariant
            i <= v@.len(),
            values_of(r@) == values_of(v@.take(i as int)),
        decreases v@.len() - i,
    {
        proof {
            assert(decreases_to!(v => v[i as int]));
        }
        let e = v[i].copy();
        proof {
            lemma_values_of_push(r@, e);
            assert(v@.take(i as int + 1).drop_last() =~= v@.take(i as int));
        }
        r.push(e);
        i = i + 1;
    }
    assert(v@.take(i as int) =~= v@);
    r
}

pub proof fn lemma_values_of(s: Seq<Exp>)
    ensures
        values_of(s).len() == s.len(),
        forall|i: int| 0 <= i < s.len() ==> #[trigger] values_of(s)[i] == s[i]@,
    decreases s.len(),
{
    if s.len() > 0 {
        lemma_values_of(s.drop_last());
    }
}

pub proof fn lemma_values_of_push(s: Seq<Exp>, e: Exp)
    ensures
        values_of(s.push(e)) == values_of(s).push(e@),
{
    assert(s.push(e).drop_last() =~= s);
}

} // verus!

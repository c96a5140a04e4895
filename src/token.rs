use vstd::prelude::*;
use vstd::string::*;
use crate::expression::{Exp, EvalError, Value, values_of, lemma_values_of_push};

verus! {

/// Unicode `White_Space` characters, the set that `char::is_whitespace` recognises.
pub open spec fn is_space(c: char) -> bool {
    ('\u{9}' <= c && c <= '\u{d}') || c == ' ' || c == '\u{85}' || c == '\u{a0}' || c == '\u{1680}'
        || ('\u{2000}' <= c && c <= '\u{200a}') || c == '\u{2028}' || c == '\u{2029}'
        || c == '\u{202f}' || c == '\u{205f}' || c == '\u{3000}'
}

pub open spec fn is_paren(c: char) -> bool {
    c == '(' || c == ')'
}

/// Appends the pending word to the finished tokens, unless it is empty.
pub open spec fn flush(toks: Seq<Seq<char>>, word: Seq<char>) -> Seq<Seq<char>> {
    if word.len() > 0 {
        toks.push(word)
    } else {
        toks
    }
}

/// Left-to-right scan of `s`: the finished tokens and the word still being read.
pub open spec fn scan(s: Seq<char>) -> (Seq<Seq<char>>, Seq<char>)
    decreases s.len(),
{
    if s.len() == 0 {
        (seq![], seq![])
    } else {
        let (toks, word) = scan(s.drop_last());
        let c = s.last();
        if is_paren(c) {
            (flush(toks, word).push(seq![c]), seq![])
        } else if is_space(c) {
            (flush(toks, word), seq![])
        } else {
            (toks, word.push(c))
        }
    }
}

/// The tokens of `s`: every parenthesis on its own, and the maximal runs of other
/// non-whitespace characters.
pub open spec fn tokens_of(s: Seq<char>) -> Seq<Seq<char>> {
    flush(scan(s).0, scan(s).1)
}

pub open spec fn views_of(v: Seq<String>) -> Seq<Seq<char>> {
    v.map_values(|t: String| t@)
}

fn char_is_space(c: char) -> (r: bool)
    ensures
        r == is_space(c),
{
    ('\u{9}' <= c && c <= '\u{d}') || c == ' ' || c == '\u{85}' || c == '\u{a0}' || c == '\u{1680}'
        || ('\u{2000}' <= c && c <= '\u{200a}') || c == '\u{2028}' || c == '\u{2029}'
        || c == '\u{202f}' || c == '\u{205f}' || c == '\u{3000}'
}

fn push_word(toks: &mut Vec<String>, s: &str, start: usize, end: usize)
    requires
        start <= end <= s@.len(),
    ensures
        views_of(final(toks)@) == flush(views_of(old(toks)@), s@.subrange(start as int, end as int)),
{
    if start < end {
        let w = String::from_str(s.substring_char(start, end));
        toks.push(w);
        assert(views_of(final(toks)@) =~= views_of(old(toks)@).push(s@.subrange(start as int, end as int)));
    }
}

/// Splits source text into tokens: each parenthesis is a token of its own, and the
/// rest is split at whitespace, with empty pieces dropped.
pub fn tokenize(input: String) -> (r: Vec<String>)
    ensures
        views_of(r@) == tokens_of(input@),
{
    let s = input.as_str();
    let n = s.unicode_len();
    let mut toks: Vec<String> = Vec::new();
    let mut start: usize = 0;
    let mut i: usize = 0;
    while i < n
        invariant
            n == s@.len(),
            s@ == input@,
            start <= i <= n,
            scan(s@.take(i as int)) == (views_of(toks@), s@.subrange(start as int, i as int)),
        decreases n - i,
    {
        let c = s.get_char(i);
        assert(s@.take(i as int + 1).drop_last() =~= s@.take(i as int));
        if c == '(' || c == ')' {
            push_word(&mut toks, s, start, i);
            let p = String::from_str(s.substring_char(i, i + 1));
            assert(p@ =~= seq![c]);
            toks.push(p);
            assert(views_of(toks@) =~= flush(scan(s@.take(i as int)).0, scan(s@.take(i as int)).1).push(seq![c]));
            start = i + 1;
        } else if char_is_space(c) {
            push_word(&mut toks, s, start, i);
            start = i + 1;
        } else {
            assert(s@.subrange(start as int, i as int + 1) =~= s@.subrange(start as int, i as int).push(c));
        }
        i = i + 1;
    }
    assert(s@.take(n as int) =~= s@);
    push_word(&mut toks, s, start, n);
    toks
}

pub open spec fn is_digit(c: char) -> bool {
    '0' <= c && c <= '9'
}

pub open spec fn all_digits(s: Seq<char>) -> bool {
    s.len() > 0 && forall|i: int| 0 <= i < s.len() ==> is_digit(#[trigger] s[i])
}

/// The number that a string of decimal digits denotes.
pub open spec fn digits_value(s: Seq<char>) -> int
    decreases s.len(),
{
    if s.len() == 0 {
        0
    } else {
        digits_value(s.drop_last()) * 10 + (s.last() as int - '0' as int)
    }
}

/// The integer that a token denotes: decimal digits after an optional `+` or `-`.
pub open spec fn literal_value(s: Seq<char>) -> Option<int> {
    if s.len() > 0 && (s[0] == '-' || s[0] == '+') && all_digits(s.drop_first()) {
        if s[0] == '-' {
            Some(-digits_value(s.drop_first()))
        } else {
            Some(digits_value(s.drop_first()))
        }
    } else if all_digits(s) {
        Some(digits_value(s))
    } else {
        None
    }
}

pub open spec fn fits_i64(n: int) -> bool {
    i64::MIN <= n <= i64::MAX
}

/// The atom that a token stands for.
pub open spec fn atom_of(t: Seq<char>) -> Value {
    if t == seq!['t', 'r', 'u', 'e'] {
        Value::Boolean(true)
    } else if t == seq!['f', 'a', 'l', 's', 'e'] {
        Value::Boolean(false)
    } else {
        match literal_value(t) {
            Some(n) => if fits_i64(n) {
                Value::Number(n)
            } else {
                Value::Symbol(t)
            },
            None => Value::Symbol(t),
        }
    }
}

proof fn lemma_digits_value_nonneg(s: Seq<char>)
    requires
        forall|i: int| 0 <= i < s.len() ==> is_digit(#[trigger] s[i]),
    ensures
        digits_value(s) >= 0,
    decreases s.len(),
{
    if s.len() > 0 {
        lemma_digits_value_nonneg(s.drop_last());
    }
}

pub(crate) fn is_word(t: &str, w: &str) -> (r: bool)
    ensures
        r == (t@ == w@),
{
    let n = t.unicode_len();
    if n != w.unicode_len() {
        return false;
    }
    let mut i: usize = 0;
    while i < n
        invariant
            n == t@.len() == w@.len(),
            i <= n,
            forall|j: int| 0 <= j < i ==> t@[j] == w@[j],
        decreases n - i,
    {
        if t.get_char(i) != w.get_char(i) {
            return false;
        }
        i = i + 1;
    }
    assert(t@ =~= w@);
    true
}

/// Reads a token as an `i64` literal, if it is one and its value fits.
fn parse_int(t: &str) -> (r: Option<i64>)
    ensures
        r == (match literal_value(t@) {
            Some(n) => if fits_i64(n) {
                Some(n as i64)
            } else {
                None::<i64>
            },
            None => None::<i64>,
        }),
{
    let n = t.unicode_len();
    if n == 0 {
        return None;
    }
    let c0 = t.get_char(0);
    let start: usize = if c0 == '-' || c0 == '+' { 1 } else { 0 };
    if start == n {
        assert(!all_digits(t@.drop_first()));
        assert(!is_digit(t@[0]));
        return None;
    }
    let ghost digits = t@.subrange(start as int, n as int);
    let limit: u64 = 9223372036854775808;
    let mut acc: u64 = 0;
    let mut big = false;
    let mut i: usize = start;
    while i < n
        invariant
            n == t@.len(),
            start <= i <= n,
            start < n,
            c0 == t@[0],
            (start == 1) == (c0 == '-' || c0 == '+'),
            start <= 1,
            limit == 9223372036854775808u64,
            forall|j: int| start <= j < i ==> is_digit(#[trigger] t@[j]),
            !big ==> acc == digits_value(t@.subrange(start as int, i as int)) && acc <= limit,
            big ==> digits_value(t@.subrange(start as int, i as int)) > limit,
        decreases n - i,
    {
        let c = t.get_char(i);
        if !('0' <= c && c <= '9') {
            proof {
                assert(!is_digit(t@[i as int]));
                if start == 1 {
                    assert(t@.drop_first()[i - 1] == t@[i as int]);
                    assert(!all_digits(t@.drop_first()));
                    assert(!is_digit(t@[0]));
                }
                assert(!all_digits(t@));
            }
            return None;
        }
        let ghost prev = t@.subrange(start as int, i as int);
        proof {
            assert(t@.subrange(start as int, i as int + 1).drop_last() =~= prev);
            lemma_digits_value_nonneg(prev);
        }
        let d = (c as u32 - '0' as u32) as u64;
        if !big {
            if acc > (limit - d) / 10 {
                big = true;
            } else {
                acc = acc * 10 + d;
            }
        }
        i = i + 1;
    }
    proof {
        assert(t@.subrange(start as int, n as int) == digits);
        if start == 1 {
            assert(digits =~= t@.drop_first());
            assert(all_digits(t@.drop_first()));
        } else {
            assert(digits =~= t@);
            assert(all_digits(t@));
        }
    }
    if big {
        return None;
    }
    if c0 == '-' {
        if acc == limit {
            Some(i64::MIN)
        } else {
            Some(-(acc as i64))
        }
    } else if acc < limit {
        Some(acc as i64)
    } else {
        None
    }
}

/// Turns a token into an atom: a boolean, a number, or else a symbol.
pub fn atom(token: &str) -> (r: Exp)
    ensures
        r@ == atom_of(token@),
{
    proof {
        reveal_strlit("true");
        reveal_strlit("false");
    }
    if is_word(token, "true") {
        assert("true"@ =~= seq!['t', 'r', 'u', 'e']);
        return Exp::Boolean(true);
    }
    if is_word(token, "false") {
        assert("false"@ =~= seq!['f', 'a', 'l', 's', 'e']);
        return Exp::Boolean(false);
    }
    assert("true"@ =~= seq!['t', 'r', 'u', 'e']);
    assert("false"@ =~= seq!['f', 'a', 'l', 's', 'e']);
    match parse_int(token) {
        Some(n) => Exp::Number(n),
        None => Exp::Symbol(token.to_owned()),
    }
}

/// Reads the forms of a list from position `idx` on, after the forms `acc` already
/// read: the list, the position after it, and whether a `)` closed it (rather than
/// the end of the tokens); or a parse error. A list opened by `(` that the tokens
/// never close is a parse error.
pub open spec fn parse_items(t: Seq<Seq<char>>, idx: int, acc: Seq<Value>) -> Result<(Value, int, bool), EvalError>
    decreases t.len() - idx,
{
    if idx < 0 || idx >= t.len() {
        Ok((Value::List(acc), idx, false))
    } else if t[idx] == seq!['('] {
        match parse_items(t, idx + 1, seq![]) {
            Err(e) => Err(e),
            Ok((inner, j, closed)) => if !closed {
                Err(EvalError::Parse)
            } else if idx < j <= t.len() {
                parse_items(t, j, acc.push(inner))
            } else {
                Err(EvalError::Parse)
            },
        }
    } else if t[idx] == seq![')'] {
        if acc.len() == 0 {
            Err(EvalError::Parse)
        } else {
            Ok((Value::List(acc), idx + 1, true))
        }
    } else {
        parse_items(t, idx + 1, acc.push(atom_of(t[idx])))
    }
}

/// The program that a token sequence denotes: all of it read as one outer list.
/// No tokens, an unclosed `(`, or a `)` without its `(` is a parse error.
pub open spec fn parse_of(t: Seq<Seq<char>>) -> Result<Value, EvalError> {
    if t.len() == 0 {
        Err(EvalError::Parse)
    } else {
        match parse_items(t, 0, seq![]) {
            Ok((v, _, closed)) => if closed {
                Err(EvalError::Parse)
            } else {
                Ok(v)
            },
            Err(e) => Err(e),
        }
    }
}

fn is_single(t: &String, c: char) -> (r: bool)
    ensures
        r == (t@ == seq![c]),
{
    let s = t.as_str();
    if s.unicode_len() != 1 {
        return false;
    }
    let r = s.get_char(0) == c;
    assert(r ==> s@ =~= seq![c]);
    r
}

/// Reads the forms of a list starting at `start`, up to its closing parenthesis or
/// the end of the tokens; returns the list, the position after it, and whether a
/// `)` closed it.
fn read_list(tokens: &[String], start: usize) -> (r: Result<(Exp, usize, bool), EvalError>)
    ensures
        match (r, parse_items(views_of(tokens@), start as int, seq![])) {
            (Ok((e, j, c)), Ok((v, k, d))) => e@ == v && j as int == k && c == d && start <= j,
            (Err(e), Err(f)) => e == f,
            _ => false,
        },
        match r {
            Ok((_, j, _)) => start < tokens@.len() ==> j <= tokens@.len(),
            Err(_) => true,
        },
    decreases tokens@.len() - start,
{
    let ghost t = views_of(tokens@);
    let mut exps: Vec<Exp> = Vec::new();
    assert(values_of(exps@) =~= seq![]);
    if start >= tokens.len() {
        return Ok((Exp::List(exps), start, false));
    }
    let mut idx = start;
    while idx < tokens.len()
        invariant
            start <= idx <= tokens@.len(),
            t == views_of(tokens@),
            parse_items(t, start as int, seq![]) == parse_items(t, idx as int, values_of(exps@)),
        decreases tokens@.len() - idx,
    {
        assert(t[idx as int] == tokens@[idx as int]@);
        if is_single(&tokens[idx], '(') {
            match read_list(tokens, idx + 1) {
                Err(e) => {
                    return Err(e);
                },
                Ok((e, j, closed)) => {
                    if !closed {
                        return Err(EvalError::Parse);
                    }
                    proof {
                        lemma_values_of_push(exps@, e);
                    }
                    exps.push(e);
                    idx = j;
                },
            }
        } else if is_single(&tokens[idx], ')') {
            if exps.len() < 1 {
                return Err(EvalError::Parse);
            }
            return Ok((Exp::List(exps), idx + 1, true));
        } else {
            let e = atom(tokens[idx].as_str());
            proof {
                lemma_values_of_push(exps@, e);
            }
            exps.push(e);
            idx = idx + 1;
        }
    }
    Ok((Exp::List(exps), idx, false))
}

/// Reads the forms of a list starting at `start`, up to its closing parenthesis or
/// the end of the tokens; returns the list and the position after it. A `(` inside
/// that the tokens never close is a parse error; from past the end, the list is empty.
pub fn to_ast(tokens: &[String], start: usize) -> (r: Result<(Exp, usize), EvalError>)
    ensures
        match (r, parse_items(views_of(tokens@), start as int, seq![])) {
            (Ok((e, j)), Ok((v, k, _))) => e@ == v && j as int == k,
            (Err(e), Err(f)) => e == f,
            _ => false,
        },
{
    match read_list(tokens, start) {
        Ok((e, j, _)) => Ok((e, j)),
        Err(x) => Err(x),
    }
}

/// Parses a whole token sequence as one outer list of forms.
pub fn parse_tokens(tokens: Vec<String>) -> (r: Result<Exp, EvalError>)
    ensures
        match (r, parse_of(views_of(tokens@))) {
            (Ok(e), Ok(v)) => e@ == v,
            (Err(e), Err(f)) => e == f,
            _ => false,
        },
{
    if tokens.len() == 0 {
        return Err(EvalError::Parse);
    }
    match read_list(tokens.as_slice(), 0) {
        Ok((e, _, closed)) => if closed {
            Err(EvalError::Parse)
        } else {
            Ok(e)
        },
        Err(e) => Err(e),
    }
}

} // verus!

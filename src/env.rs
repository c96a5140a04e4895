use vstd::prelude::*;
use vstd::string::*;
use crate::expression::{Builtin, Exp, Value};

verus! {

/// One scope as the logic sees it: its bindings in order.
pub type ScopeView = Seq<(Seq<char>, Value)>;

/// The chain of scopes, innermost last.
pub type EnvView = Seq<ScopeView>;

pub open spec fn scope_view(s: Seq<(String, Exp)>) -> ScopeView {
    s.map_values(|b: (String, Exp)| (b.0@, b.1@))
}

/// No name is bound twice in the scope.
pub open spec fn unique_names(s: ScopeView) -> bool {
    forall|i: int, j: int| 0 <= i < j < s.len() ==> #[trigger] s[i].0 != #[trigger] s[j].0
}

/// The value bound to `name` in one scope.
pub open spec fn scope_lookup(s: ScopeView, name: Seq<char>) -> Option<Value>
    decreases s.len(),
{
    if s.len() == 0 {
        None
    } else if s.last().0 == name {
        Some(s.last().1)
    } else {
        scope_lookup(s.drop_last(), name)
    }
}

/// The value bound to `name` in the innermost scope that binds it.
pub open spec fn lookup(env: EnvView, name: Seq<char>) -> Option<Value>
    decreases env.len(),
{
    if env.len() == 0 {
        None
    } else {
        match scope_lookup(env.last(), name) {
            Some(v) => Some(v),
            None => lookup(env.drop_last(), name),
        }
    }
}

/// The position of the binding of `name` in a scope.
pub open spec fn find_binding(s: ScopeView, name: Seq<char>) -> Option<int>
    decreases s.len(),
{
    if s.len() == 0 {
        None
    } else if s.last().0 == name {
        Some(s.len() - 1)
    } else {
        find_binding(s.drop_last(), name)
    }
}

/// A scope after binding `name` to `v`: an existing binding is overwritten in place,
/// a new one goes last.
pub open spec fn scope_define(s: ScopeView, name: Seq<char>, v: Value) -> ScopeView {
    match find_binding(s, name) {
        Some(i) => s.update(i, (name, v)),
        None => s.push((name, v)),
    }
}

/// The chain after binding `name` to `v` in its innermost scope.
pub open spec fn env_define(env: EnvView, name: Seq<char>, v: Value) -> EnvView {
    env.update(env.len() - 1, scope_define(env.last(), name, v))
}

pub open spec fn builtin_binding(name: Seq<char>, op: Builtin) -> (Seq<char>, Value) {
    (name, Value::Func(op))
}

/// The root scope: the arithmetic and comparison builtins.
pub open spec fn root_scope() -> ScopeView {
    seq![
        builtin_binding(seq!['+'], Builtin::Add),
        builtin_binding(seq!['-'], Builtin::Sub),
        builtin_binding(seq!['<'], Builtin::Lt),
        builtin_binding(seq!['>'], Builtin::Gt),
        builtin_binding(seq!['<', '='], Builtin::Le),
        builtin_binding(seq!['>', '='], Builtin::Ge),
    ]
}

proof fn lemma_find_binding_range(s: ScopeView, name: Seq<char>)
    ensures
        match find_binding(s, name) {
            Some(i) => 0 <= i < s.len() && s[i].0 == name,
            None => forall|j: int| 0 <= j < s.len() ==> s[j].0 != name,
        },
    decreases s.len(),
{
    if s.len() > 0 {
        lemma_find_binding_range(s.drop_last(), name);
        if find_binding(s, name) is None {
            assert forall|j: int| 0 <= j < s.len() implies s[j].0 != name by {
                if j < s.len() - 1 {
                    assert(s[j] == s.drop_last()[j]);
                }
            }
        }
    }
}

proof fn lemma_scope_define_unique(s: ScopeView, name: Seq<char>, v: Value)
    requires
        unique_names(s),
    ensures
        unique_names(scope_define(s, name, v)),
{
    lemma_find_binding_range(s, name);
    let t = scope_define(s, name, v);
    assert forall|i: int, j: int| 0 <= i < j < t.len() implies #[trigger] t[i].0 != #[trigger] t[j].0 by {
        match find_binding(s, name) {
            Some(k) => {
                assert(t[i].0 == s[i].0 && t[j].0 == s[j].0);
            },
            None => {
                if j < s.len() {
                    assert(t[i] == s[i] && t[j] == s[j]);
                } else {
                    assert(t[i] == s[i]);
                }
            },
        }
    }
}

proof fn lemma_scope_define(s: ScopeView, name: Seq<char>, v: Value, k: Seq<char>)
    ensures
        scope_lookup(scope_define(s, name, v), k) == if k == name {
            Some(v)
        } else {
            scope_lookup(s, k)
        },
    decreases s.len(),
{
    lemma_find_binding_range(s, name);
    match find_binding(s, name) {
        Some(i) => {
            let t = s.update(i, (name, v));
            if s.last().0 == name {
                assert(t.drop_last() =~= s.drop_last());
            } else {
                lemma_find_binding_range(s.drop_last(), name);
                assert(t.drop_last() =~= s.drop_last().update(i, (name, v)));
                assert(t.last() == s.last());
                lemma_scope_define(s.drop_last(), name, v, k);
            }
        },
        None => {
            assert(s.push((name, v)).drop_last() =~= s);
        },
    }
}

/// After `name` is bound to `v` in the innermost scope, looking `name` up gives `v`,
/// and every other name gives what it gave before.
pub proof fn lemma_define_then_lookup(env: EnvView, name: Seq<char>, v: Value, k: Seq<char>)
    requires
        env.len() >= 1,
    ensures
        lookup(env_define(env, name, v), k) == if k == name {
            Some(v)
        } else {
            lookup(env, k)
        },
{
    let e2 = env_define(env, name, v);
    assert(e2.drop_last() =~= env.drop_last());
    lemma_scope_define(env.last(), name, v, k);
}

/// A session's scopes: the root scope first, one more for each lambda application
/// under way.
pub struct Env {
    scopes: Vec<Vec<(String, Exp)>>,
}

impl View for Env {
    type V = EnvView;

    closed spec fn view(&self) -> EnvView {
        self.scopes@.map_values(|s: Vec<(String, Exp)>| scope_view(s@))
    }
}

impl Env {
    /// A well-formed chain holds at least the root scope, and binds each name at
    /// most once in any one scope.
    pub open spec fn wf(&self) -> bool {
        &&& self@.len() >= 1
        &&& forall|k: int| 0 <= k < self@.len() ==> unique_names(#[trigger] self@[k])
    }

    /// A fresh session: the root scope with the builtins.
    pub fn new() -> (r: Env)
        ensures
            r.wf(),
            r@ == seq![root_scope()],
    {
        let mut root: Vec<(String, Exp)> = Vec::new();
        root.push((String::from_str("+"), Exp::Func(Builtin::Add)));
        root.push((String::from_str("-"), Exp::Func(Builtin::Sub)));
        root.push((String::from_str("<"), Exp::Func(Builtin::Lt)));
        root.push((String::from_str(">"), Exp::Func(Builtin::Gt)));
        root.push((String::from_str("<="), Exp::Func(Builtin::Le)));
        root.push((String::from_str(">="), Exp::Func(Builtin::Ge)));
        let mut scopes: Vec<Vec<(String, Exp)>> = Vec::new();
        scopes.push(root);
        let r = Env { scopes };
        proof {
            reveal_strlit("+");
            reveal_strlit("-");
            reveal_strlit("<");
            reveal_strlit(">");
            reveal_strlit("<=");
            reveal_strlit(">=");
            assert("+"@ =~= seq!['+']);
            assert("-"@ =~= seq!['-']);
            assert("<"@ =~= seq!['<']);
            assert(">"@ =~= seq!['>']);
            assert("<="@ =~= seq!['<', '=']);
            assert(">="@ =~= seq!['>', '=']);
            assert(scope_view(r.scopes@[0]@) =~= root_scope());
            assert(r@ =~= seq![root_scope()]);
            let rs = root_scope();
            assert forall|i: int, j: int| 0 <= i < j < rs.len() implies #[trigger] rs[i].0 != #[trigger] rs[j].0 by {
                assert(rs[i].0.len() != rs[j].0.len() || rs[i].0[0] != rs[j].0[0]);
            }
        }
        r
    }

    /// Looks `symbol` up from the innermost scope outwards.
    pub fn get_var(&self, symbol: &str) -> (r: Option<Exp>)
        ensures
            match (r, lookup(self@, symbol@)) {
                (Some(e), Some(v)) => e@ == v,
                (None, None) => true,
                _ => false,
            },
    {
        let name = String::from_str(symbol);
        let mut k = self.scopes.len();
        assert(self@.take(k as int) =~= self@);
        while k > 0
            invariant
                name@ == symbol@,
                k <= self@.len(),
                self@.len() == self.scopes@.len(),
                lookup(self@, symbol@) == lookup(self@.take(k as int), symbol@),
            decreases k,
        {
            let scope = &self.scopes[k - 1];
            let ghost sv = scope_view(scope@);
            assert(self@[k - 1] == sv);
            let mut j = scope.len();
            assert(sv.take(j as int) =~= sv);
            while j > 0
                invariant
                    0 < k <= self@.len(),
                    self@.len() == self.scopes@.len(),
                    lookup(self@, symbol@) == lookup(self@.take(k as int), symbol@),
                    self@[k - 1] == sv,
                    name@ == symbol@,
                    j <= scope@.len(),
                    sv == scope_view(scope@),
                    scope_lookup(sv, symbol@) == scope_lookup(sv.take(j as int), symbol@),
                decreases j,
            {
                assert(sv.take(j as int).drop_last() =~= sv.take(j as int - 1));
                assert(sv.take(j as int).last() == (scope@[j - 1].0@, scope@[j - 1].1@));
                if scope[j - 1].0 == name {
                    assert(self@.take(k as int).last() == sv);
                    return Some(scope[j - 1].1.copy());
                }
                j = j - 1;
            }
            assert(self@.take(k as int).drop_last() =~= self@.take(k as int - 1));
            assert(self@.take(k as int).last() == sv);
            assert(sv.take(0) =~= seq![]);
            k = k - 1;
        }
        None
    }

    /// Opens a new innermost scope holding `scope`.
    pub(crate) fn push_scope(&mut self)
        requires
            old(self).wf(),
        ensures
            final(self).wf(),
            final(self)@ == old(self)@.push(seq![]),
    {
        let scope: Vec<(String, Exp)> = Vec::new();
        assert(scope_view(scope@) =~= ScopeView::empty());
        self.scopes.push(scope);
        assert(self@ =~= old(self)@.push(ScopeView::empty()));
        assert forall|k: int| 0 <= k < self@.len() implies unique_names(#[trigger] self@[k]) by {
            if k < self@.len() - 1 {
                assert(self@[k] == old(self)@[k]);
            }
        }
    }

    /// Discards the innermost scope.
    pub(crate) fn pop_scope(&mut self)
        requires
            old(self).wf(),
            old(self)@.len() > 1,
        ensures
            final(self).wf(),
            final(self)@ == old(self)@.drop_last(),
    {
        self.scopes.pop();
        assert(self@ =~= old(self)@.drop_last());
        assert forall|k: int| 0 <= k < self@.len() implies unique_names(#[trigger] self@[k]) by {
            assert(self@[k] == old(self)@[k]);
        }
    }

    /// Binds `name` to `value` in the innermost scope, never in an outer one.
    pub fn define(&mut self, name: String, value: Exp)
        requires
            old(self).wf(),
        ensures
            final(self).wf(),
            final(self)@ == env_define(old(self)@, name@, value@),
    {
        let ghost old_view = self@;
        let mut scope = self.scopes.pop().unwrap();
        let ghost sv = scope_view(scope@);
        proof {
            assert(old_view.last() == sv);
            assert(self@ =~= old_view.drop_last());
        }
        let mut j = scope.len();
        let mut found = false;
        assert(sv.take(j as int) =~= sv);
        while j > 0 && !found
            invariant
                j <= scope@.len(),
                sv == scope_view(scope@),
                found ==> j > 0 && find_binding(sv, name@) == Some(j as int - 1),
                !found ==> find_binding(sv, name@) == find_binding(sv.take(j as int), name@),
            decreases j + if found { 0int } else { 1int },
        {
            assert(sv.take(j as int).drop_last() =~= sv.take(j as int - 1));
            assert(sv.take(j as int).last() == (scope@[j - 1].0@, scope@[j - 1].1@));
            if scope[j - 1].0 == name {
                found = true;
            } else {
                j = j - 1;
            }
        }
        let ghost nv = value@;
        if found {
            scope.set(j - 1, (name, value));
            assert(scope_view(scope@) =~= sv.update(j - 1, (name@, nv)));
        } else {
            assert(sv.take(0) =~= seq![]);
            scope.push((name, value));
            assert(scope_view(scope@) =~= sv.push((name@, nv)));
        }
        self.scopes.push(scope);
        assert(self@ =~= env_define(old_view, name@, nv));
        proof {
            lemma_scope_define_unique(sv, name@, nv);
            assert forall|k: int| 0 <= k < self@.len() implies unique_names(#[trigger] self@[k]) by {
                if k < self@.len() - 1 {
                    assert(self@[k] == old_view[k]);
                }
            }
        }
    }
}

impl Default for Env {
    /// A fresh session, as `Env::new` makes it.
    fn default() -> (r: Env)
        ensures
            r.wf(),
            r@ == seq![root_scope()],
    {
        Env::new()
    }
}

} // verus!

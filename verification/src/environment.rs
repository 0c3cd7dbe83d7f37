use vstd::prelude::*;
use vstd::string::StringExecFns;
use crate::interpreter::RuntimeError;
use crate::object::{Object, ObjectV};

verus! {

/// The model of one scope: an ordered list of name-to-value bindings,
/// searched front to back, with at most one binding per name.
pub type ScopeV = Seq<(Seq<char>, ObjectV)>;

/// The model of an environment: a stack of scopes, the global scope first
/// and the innermost scope last.
pub type EnvV = Seq<ScopeV>;

/// The value bound to a name in one scope: the first binding with that name,
/// if any.
pub open spec fn scope_find(s: ScopeV, name: Seq<char>) -> Option<ObjectV>
    decreases s.len(),
{
    if s.len() == 0 {
        None
    } else if s[0].0 == name {
        Some(s[0].1)
    } else {
        scope_find(s.skip(1), name)
    }
}

/// One scope with a name bound to a value: the first binding with that name
/// is overwritten, or a new binding is appended.
pub open spec fn scope_set(s: ScopeV, name: Seq<char>, v: ObjectV) -> ScopeV
    decreases s.len(),
{
    if s.len() == 0 {
        seq![(name, v)]
    } else if s[0].0 == name {
        s.update(0, (name, v))
    } else {
        seq![s[0]] + scope_set(s.skip(1), name, v)
    }
}

/// A variable read: scopes are searched from the innermost outward and the
/// first binding found wins.
pub open spec fn env_get(env: EnvV, name: Seq<char>) -> Option<ObjectV>
    decreases env.len(),
{
    if env.len() == 0 {
        None
    } else {
        match scope_find(env.last(), name) {
            Some(v) => Some(v),
            None => env_get(env.drop_last(), name),
        }
    }
}

/// An assignment: the innermost scope that already binds the name is
/// overwritten there, and the previous value is reported; a name bound in no
/// scope leaves the environment unchanged and yields `None`.
pub open spec fn env_assign(env: EnvV, name: Seq<char>, v: ObjectV) -> Option<(EnvV, ObjectV)>
    decreases env.len(),
{
    if env.len() == 0 {
        None
    } else {
        match scope_find(env.last(), name) {
            Some(prev) => Some(
                (env.drop_last().push(scope_set(env.last(), name, v)), prev),
            ),
            None => match env_assign(env.drop_last(), name, v) {
                Some((e2, prev)) => Some((e2.push(env.last()), prev)),
                None => None,
            },
        }
    }
}

/// A declaration: the name is bound in the innermost scope only.
pub open spec fn env_define(env: EnvV, name: Seq<char>, v: ObjectV) -> EnvV
    recommends
        env.len() >= 1,
{
    env.drop_last().push(scope_set(env.last(), name, v))
}

proof fn lemma_scope_find_at(s: ScopeV, name: Seq<char>, j: int)
    requires
        0 <= j < s.len(),
        forall|k: int| 0 <= k < j ==> s[k].0 != name,
        s[j].0 == name,
    ensures
        scope_find(s, name) == Some(s[j].1),
    decreases j,
{
    if j == 0 {
    } else {
        assert(s.skip(1)[j - 1] == s[j]);
        assert(forall|k: int| 0 <= k < j - 1 ==> s.skip(1)[k] == s[k + 1]);
        lemma_scope_find_at(s.skip(1), name, j - 1);
    }
}

proof fn lemma_scope_find_none(s: ScopeV, name: Seq<char>)
    requires
        forall|k: int| 0 <= k < s.len() ==> s[k].0 != name,
    ensures
        scope_find(s, name) is None,
    decreases s.len(),
{
    if s.len() > 0 {
        assert(forall|k: int| 0 <= k < s.len() - 1 ==> s.skip(1)[k] == s[k + 1]);
        lemma_scope_find_none(s.skip(1), name);
    }
}

proof fn lemma_scope_set_at(s: ScopeV, name: Seq<char>, v: ObjectV, j: int)
    requires
        0 <= j < s.len(),
        forall|k: int| 0 <= k < j ==> s[k].0 != name,
        s[j].0 == name,
    ensures
        scope_set(s, name, v) =~= s.update(j, (name, v)),
    decreases j,
{
    if j == 0 {
    } else {
        assert(s.skip(1)[j - 1] == s[j]);
        assert(forall|k: int| 0 <= k < j - 1 ==> s.skip(1)[k] == s[k + 1]);
        lemma_scope_set_at(s.skip(1), name, v, j - 1);
        assert(scope_set(s, name, v) =~= seq![s[0]] + s.skip(1).update(j - 1, (name, v)));
    }
}

proof fn lemma_scope_set_none(s: ScopeV, name: Seq<char>, v: ObjectV)
    requires
        forall|k: int| 0 <= k < s.len() ==> s[k].0 != name,
    ensures
        scope_set(s, name, v) =~= s.push((name, v)),
    decreases s.len(),
{
    if s.len() > 0 {
        assert(forall|k: int| 0 <= k < s.len() - 1 ==> s.skip(1)[k] == s[k + 1]);
        lemma_scope_set_none(s.skip(1), name, v);
    }
}

proof fn lemma_env_get_skip_top(env: EnvV, name: Seq<char>, l: int)
    requires
        0 <= l <= env.len(),
        forall|m: int| l <= m < env.len() ==> scope_find(#[trigger] env[m], name) is None,
    ensures
        env_get(env, name) == env_get(env.take(l), name),
    decreases env.len() - l,
{
    if l < env.len() {
        assert(env.last() == env[env.len() - 1]);
        lemma_env_get_skip_top(env.drop_last(), name, l);
        assert(env.drop_last().take(l) =~= env.take(l));
    } else {
        assert(env.take(l) =~= env);
    }
}

proof fn lemma_env_assign_skip_top(env: EnvV, name: Seq<char>, v: ObjectV, l: int)
    requires
        0 <= l <= env.len(),
        forall|m: int| l <= m < env.len() ==> scope_find(#[trigger] env[m], name) is None,
    ensures
        env_assign(env, name, v) == match env_assign(env.take(l), name, v) {
            Some((e2, prev)) => Some::<(EnvV, ObjectV)>((e2 + env.skip(l), prev)),
            None => None::<(EnvV, ObjectV)>,
        },
    decreases env.len() - l,
{
    if l < env.len() {
        assert(env.last() == env[env.len() - 1]);
        lemma_env_assign_skip_top(env.drop_last(), name, v, l);
        assert(env.drop_last().take(l) =~= env.take(l));
        match env_assign(env.take(l), name, v) {
            Some((e2, prev)) => {
                assert(e2 + env.drop_last().skip(l) =~= (e2 + env.skip(l)).drop_last());
                assert((e2 + env.drop_last().skip(l)).push(env.last()) =~= e2 + env.skip(l));
            },
            None => {},
        }
    } else {
        assert(env.take(l) =~= env);
        match env_assign(env, name, v) {
            Some((e2, prev)) => {
                assert(env.skip(l) =~= Seq::<ScopeV>::empty());
                assert(e2 + env.skip(l) =~= e2);
            },
            None => {},
        }
    }
}

/// Law: declaring a name in a freshly pushed scope hides an outer binding of
/// the same name for reads, leaves reads of every other name untouched, and
/// dropping the scope afterwards restores every scope exactly as it was.
pub proof fn lemma_shadowing(env: EnvV, name: Seq<char>, v: ObjectV)
    requires
        env.len() >= 1,
    ensures
        ({
            let inner = env_define(env.push(Seq::empty()), name, v);
            &&& env_get(inner, name) == Some(v)
            &&& forall|other: Seq<char>|
                other != name ==> env_get(inner, other) == env_get(env, other)
            &&& inner.drop_last() =~= env
        }),
{
    let pushed = env.push(Seq::empty());
    let inner = env_define(pushed, name, v);
    let top: ScopeV = seq![(name, v)];
    assert(pushed.last() =~= Seq::<(Seq<char>, ObjectV)>::empty());
    assert(scope_set(pushed.last(), name, v) =~= top);
    assert(pushed.drop_last() =~= env);
    assert(inner =~= env.push(top));
    assert(top.len() == 1 && top[0] == (name, v));
    assert(scope_find(top, name) == Some(v));
    assert(inner.last() == top);
    assert(inner.drop_last() =~= env);
    assert forall|other: Seq<char>| other != name implies env_get(inner, other) == env_get(
        env,
        other,
    ) by {
        assert(top.skip(1) =~= Seq::<(Seq<char>, ObjectV)>::empty());
        assert(scope_find(top.skip(1), other) is None);
        assert(scope_find(top, other) is None);
        assert(env_get(inner, other) == env_get(inner.drop_last(), other));
    }
}

/// An assignment that succeeds overwrites a binding in place: the number of
/// scopes does not change.
pub proof fn lemma_env_assign_len(env: EnvV, name: Seq<char>, v: ObjectV)
    ensures
        env_assign(env, name, v) matches Some((e2, _)) ==> e2.len() == env.len(),
    decreases env.len(),
{
    if env.len() > 0 {
        if scope_find(env.last(), name) is None {
            lemma_env_assign_len(env.drop_last(), name, v);
        }
    }
}

/// Law: an assignment to a name that no scope binds fails and does not
/// create a binding in any scope.
pub proof fn lemma_assign_undefined(env: EnvV, name: Seq<char>, v: ObjectV)
    requires
        env_get(env, name) is None,
    ensures
        env_assign(env, name, v) is None,
    decreases env.len(),
{
    if env.len() > 0 {
        lemma_assign_undefined(env.drop_last(), name, v);
    }
}

/// One name bound to one value inside a scope.
#[derive(Debug)]
pub struct Binding {
    pub name: String,
    pub value: Object,
}

impl View for Binding {
    type V = (Seq<char>, ObjectV);

    open spec fn view(&self) -> (Seq<char>, ObjectV) {
        (self.name@, self.value@)
    }
}

/// The model of one executable scope.
pub open spec fn scope_view(s: Vec<Binding>) -> ScopeV {
    Seq::new(s@.len(), |j: int| s@[j]@)
}

/// A chain of mutable scopes implementing lexical binding: the global scope
/// at the bottom is never removed, declarations target the innermost scope,
/// reads and assignments search from the innermost scope outward.
#[derive(Debug)]
pub struct Environment {
    scopes: Vec<Vec<Binding>>,
}

impl View for Environment {
    type V = EnvV;

    closed spec fn view(&self) -> EnvV {
        Seq::new(self.scopes@.len(), |i: int| scope_view(self.scopes@[i]))
    }
}

impl Environment {
    /// There is always at least one scope: the global one.
    pub open spec fn wf(&self) -> bool {
        self@.len() >= 1
    }

    /// A fresh environment holding only the empty global scope.
    pub fn new() -> (env: Environment)
        ensures
            env.wf(),
            env@ == seq![Seq::<(Seq<char>, ObjectV)>::empty()],
    {
        let mut scopes: Vec<Vec<Binding>> = Vec::new();
        scopes.push(Vec::new());
        let env = Environment { scopes };
        proof {
            assert(env@ =~~= seq![Seq::<(Seq<char>, ObjectV)>::empty()]);
        }
        env
    }

    /// Pushes a new empty innermost scope. Never fails.
    pub fn add_new_local(&mut self) -> (r: Result<(), RuntimeError>)
        requires
            old(self).wf(),
        ensures
            final(self).wf(),
            final(self)@ == old(self)@.push(Seq::empty()),
            r is Ok,
    {
        self.scopes.push(Vec::new());
        proof {
            assert(final(self)@ =~~= old(self)@.push(Seq::empty()));
        }
        Ok(())
    }

    /// Removes the innermost scope; removing the global scope itself is a
    /// scope error and changes nothing.
    pub fn remove_local(&mut self) -> (r: Result<(), RuntimeError>)
        requires
            old(self).wf(),
        ensures
            final(self).wf(),
            old(self)@.len() == 1 ==> (r matches Err(e) && e@ == crate::interpreter::ErrV::ScopeError
                && final(self)@ == old(self)@),
            old(self)@.len() > 1 ==> r is Ok && final(self)@ == old(self)@.drop_last(),
    {
        if self.scopes.len() == 1 {
            return Err(
                RuntimeError::ScopeError(
                    Some(String::from_str("the global scope cannot be removed")),
                ),
            );
        }
        self.scopes.pop();
        proof {
            assert(final(self)@ =~~= old(self)@.drop_last());
        }
        Ok(())
    }

    /// Binds a name in the innermost scope, overwriting a binding of the
    /// same name there. Never fails.
    pub fn define(&mut self, name: &String, value: Object)
        requires
            old(self).wf(),
        ensures
            final(self).wf(),
            final(self)@ == env_define(old(self)@, name@, value@),
    {
        let ghost old_env = self@;
        let ghost old_scope = self@.last();
        let mut scope = match self.scopes.pop() {
            Some(s) => s,
            None => Vec::new(),  // cannot happen: there is always a scope
        };
        proof {
            assert(scope_view(scope) =~~= old_scope);
        }
        let n = scope.len();
        let mut j: usize = 0;
        loop
            invariant
                j <= n,
                n == scope@.len(),
                scope_view(scope) == old_scope,
                forall|k: int| 0 <= k < j ==> old_scope[k].0 != name@,
            ensures
                j <= n,
                n == scope@.len(),
                scope_view(scope) == old_scope,
                forall|k: int| 0 <= k < j ==> old_scope[k].0 != name@,
                j < n ==> old_scope[j as int].0 == name@,
            decreases n - j,
        {
            if j == n {
                break ;
            }
            if scope[j].name.eq(name) {
                proof {
                    assert(old_scope[j as int] == scope@[j as int]@);
                }
                break ;
            }
            proof {
                assert(old_scope[j as int] == scope@[j as int]@);
            }
            j = j + 1;
        }
        if j == n {
            proof {
                lemma_scope_set_none(old_scope, name@, value@);
            }
            scope.push(Binding { name: name.clone(), value });
            proof {
                assert(scope_view(scope) =~~= scope_set(old_scope, name@, value@));
            }
        } else {
            proof {
                lemma_scope_set_at(old_scope, name@, value@, j as int);
            }
            scope[j] = Binding { name: name.clone(), value };
            proof {
                assert(scope_view(scope) =~~= scope_set(old_scope, name@, value@));
            }
        }
        self.scopes.push(scope);
        proof {
            assert(final(self)@ =~~= env_define(old_env, name@, value@));
        }
    }

    /// Overwrites the innermost existing binding of the name and returns the
    /// value it replaced; a name bound nowhere is an undefined-variable
    /// error and the environment is unchanged.
    pub fn assign(&mut self, name: &String, value: Object) -> (r: Result<Object, RuntimeError>)
        requires
            old(self).wf(),
        ensures
            final(self).wf(),
            match r {
                Ok(prev) => env_assign(old(self)@, name@, value@) == Some(
                    (final(self)@, prev@),
                ),
                Err(e) => {
                    &&& env_assign(old(self)@, name@, value@) is None
                    &&& e@ == crate::interpreter::ErrV::UndefinedVariable(name@)
                    &&& final(self)@ == old(self)@
                },
            },
    {
        let ghost env = self@;
        let len = self.scopes.len();
        let mut l = len;
        loop
            invariant
                old(self).wf(),
                self == old(self),
                l <= len,
                len == self.scopes@.len(),
                env == self@,
                env.len() == len,
                forall|m: int| l <= m < len ==> scope_find(#[trigger] env[m], name@) is None,
            ensures
                self == old(self),
                env == self@,
                forall|m: int| 0 <= m < len ==> scope_find(#[trigger] env[m], name@) is None,
            decreases l,
        {
            if l == 0 {
                break ;
            }
            l = l - 1;
            // search scope l front to back for the name
            let n = self.scopes[l].len();
            let ghost sc = env[l as int];
            proof {
                assert(sc == scope_view(self.scopes@[l as int]));
                assert(sc.len() == n);
            }
            let mut j: usize = 0;
            loop
                invariant
                    self == old(self),
                    j <= n,
                    l < len,
                    len == self.scopes@.len(),
                    env == self@,
                    sc == env[l as int],
                    n == sc.len(),
                    n == self.scopes@[l as int]@.len(),
                    env.len() == len,
                    forall|m: int| l + 1 <= m < len ==> scope_find(#[trigger] env[m], name@) is None,
                    forall|k: int| 0 <= k < j ==> sc[k].0 != name@,
                ensures
                    self == old(self),
                    j <= n,
                    l < len,
                    len == self.scopes@.len(),
                    env == self@,
                    env.len() == len,
                    forall|m: int| l + 1 <= m < len ==> scope_find(#[trigger] env[m], name@) is None,
                    forall|k: int| 0 <= k < j ==> sc[k].0 != name@,
                    j < n ==> sc[j as int].0 == name@,
                decreases n - j,
            {
                if j == n {
                    break ;
                }
                if self.scopes[l][j].name.eq(name) {
                    proof {
                        assert(sc[j as int] == self.scopes@[l as int]@[j as int]@);
                    }
                    break ;
                }
                proof {
                    assert(sc[j as int] == self.scopes@[l as int]@[j as int]@);
                }
                j = j + 1;
            }
            if j < n {
                proof {
                    lemma_scope_find_at(sc, name@, j as int);
                    lemma_scope_set_at(sc, name@, value@, j as int);
                    lemma_env_assign_skip_top(env, name@, value@, l as int + 1);
                }
                let prev = self.scopes[l][j].value.clone();
                proof {
                    assert(prev@ == sc[j as int].1);
                }
                self.scopes[l][j] = Binding { name: name.clone(), value };
                proof {
                    assert(self@ =~~= env.update(l as int, scope_set(sc, name@, value@)));
                    let taken = env.take(l as int + 1);
                    assert(taken.last() == env[l as int]);
                    assert(taken.drop_last() =~= env.take(l as int));
                    assert(env_assign(taken, name@, value@) == Some(
                        (env.take(l as int).push(scope_set(sc, name@, value@)), sc[j as int].1),
                    ));
                    assert(env.take(l as int).push(scope_set(sc, name@, value@)) + env.skip(
                        l as int + 1,
                    ) =~= env.update(l as int, scope_set(sc, name@, value@)));
                }
                return Ok(prev);
            }
            proof {
                lemma_scope_find_none(sc, name@);
            }
        }
        proof {
            lemma_env_assign_skip_top(env, name@, value@, 0);
            assert(env.take(0) =~= Seq::<ScopeV>::empty());
        }
        Err(RuntimeError::UndefinedVariable(name.clone()))
    }

    /// Reads the innermost binding of the name, or nothing when no scope
    /// binds it.
    pub fn get(&self, name: &String) -> (r: Option<Object>)
        ensures
            match r {
                Some(o) => env_get(self@, name@) == Some(o@),
                None => env_get(self@, name@) is None,
            },
    {
        let ghost env = self@;
        let len = self.scopes.len();
        let mut l = len;
        loop
            invariant
                l <= len,
                len == self.scopes@.len(),
                env == self@,
                env.len() == len,
                forall|m: int| l <= m < len ==> scope_find(#[trigger] env[m], name@) is None,
            ensures
                forall|m: int| 0 <= m < len ==> scope_find(#[trigger] env[m], name@) is None,
            decreases l,
        {
            if l == 0 {
                break ;
            }
            l = l - 1;
            let n = self.scopes[l].len();
            let ghost sc = env[l as int];
            proof {
                assert(sc == scope_view(self.scopes@[l as int]));
                assert(sc.len() == n);
            }
            let mut j: usize = 0;
            loop
                invariant
                    j <= n,
                    l < len,
                    len == self.scopes@.len(),
                    env == self@,
                    sc == env[l as int],
                    n == sc.len(),
                    n == self.scopes@[l as int]@.len(),
                    env.len() == len,
                    forall|m: int| l + 1 <= m < len ==> scope_find(#[trigger] env[m], name@) is None,
                    forall|k: int| 0 <= k < j ==> sc[k].0 != name@,
                ensures
                    j == n,
                    forall|k: int| 0 <= k < j ==> sc[k].0 != name@,
                decreases n - j,
            {
                if j == n {
                    break ;
                }
                if self.scopes[l][j].name.eq(name) {
                    proof {
                        assert(sc[j as int] == self.scopes@[l as int]@[j as int]@);
                        lemma_scope_find_at(sc, name@, j as int);
                        lemma_env_get_skip_top(env, name@, l as int + 1);
                        let taken = env.take(l as int + 1);
                        assert(taken.last() == env[l as int]);
                        assert(taken.drop_last() =~= env.take(l as int));
                    }
                    return Some(self.scopes[l][j].value.clone());
                }
                proof {
                    assert(sc[j as int] == self.scopes@[l as int]@[j as int]@);
                }
                j = j + 1;
            }
            proof {
                lemma_scope_find_none(sc, name@);
            }
        }
        proof {
            lemma_env_get_skip_top(env, name@, 0);
            assert(env.take(0) =~= Seq::<ScopeV>::empty());
        }
        None
    }
}

} // verus!

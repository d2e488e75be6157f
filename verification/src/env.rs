//! Environments: chains of scopes that bind names to values, searched from the
//! innermost outwards.
use vstd::prelude::*;
use vstd::hash_map::StringHashMap;
use crate::error::EvalError;
use crate::value::Value;

verus! {

/// One scope: the names it binds, each with its value.
pub type Scope = Map<Seq<char>, Value>;

/// A chain of scopes, the innermost first and the root last.
pub type Scopes = Seq<Scope>;

/// The value that `name` stands for: its binding in the innermost scope that has one.
pub open spec fn lookup(scopes: Scopes, name: Seq<char>) -> Option<Value>
    decreases scopes.len(),
{
    if scopes.len() == 0 {
        None
    } else if scopes[0].contains_key(name) {
        Some(scopes[0][name])
    } else {
        lookup(scopes.drop_first(), name)
    }
}

/// The chain after a definition: `name` is bound to `value` in the innermost scope,
/// and nothing else changes.
pub open spec fn bind(scopes: Scopes, name: Seq<char>, value: Value) -> Scopes {
    if scopes.len() == 0 {
        scopes
    } else {
        scopes.update(0, scopes[0].insert(name, value))
    }
}

/// The chain after an assignment: the innermost scope that binds `name` binds it to
/// `value`. A chain that does not bind `name` stays as it is.
pub open spec fn assign(scopes: Scopes, name: Seq<char>, value: Value) -> Scopes
    decreases scopes.len(),
{
    if scopes.len() == 0 {
        scopes
    } else if scopes[0].contains_key(name) {
        scopes.update(0, scopes[0].insert(name, value))
    } else {
        seq![scopes[0]] + assign(scopes.drop_first(), name, value)
    }
}

/// A name stands for its value in the first scope that binds it.
pub proof fn lookup_finds_innermost(scopes: Scopes, name: Seq<char>, i: int)
    requires
        0 <= i < scopes.len(),
        scopes[i].contains_key(name),
        forall|j: int| 0 <= j < i ==> !(#[trigger] scopes[j]).contains_key(name),
    ensures
        lookup(scopes, name) == Some(scopes[i][name]),
    decreases i,
{
    if i > 0 {
        let rest = scopes.drop_first();
        assert(!scopes[0].contains_key(name));
        assert forall|j: int| 0 <= j < i - 1 implies !(#[trigger] rest[j]).contains_key(name) by {
            assert(rest[j] == scopes[j + 1]);
        }
        lookup_finds_innermost(rest, name, i - 1);
    }
}

/// A name is unbound exactly where no scope of the chain binds it.
pub proof fn lookup_fails_where_unbound(scopes: Scopes, name: Seq<char>)
    ensures
        lookup(scopes, name) is None <==> forall|i: int|
            0 <= i < scopes.len() ==> !(#[trigger] scopes[i]).contains_key(name),
    decreases scopes.len(),
{
    if scopes.len() > 0 {
        let rest = scopes.drop_first();
        lookup_fails_where_unbound(rest, name);
        if !scopes[0].contains_key(name) {
            if lookup(rest, name) is None {
                assert forall|i: int| 0 <= i < scopes.len() implies !(#[trigger] scopes[i]).contains_key(
                    name,
                ) by {
                    if i > 0 {
                        assert(rest[i - 1] == scopes[i]);
                    }
                }
            } else {
                let i = choose|i: int| 0 <= i < rest.len() && (#[trigger] rest[i]).contains_key(name);
                assert(scopes[i + 1] == rest[i]);
            }
        }
    }
}

/// After a definition the name stands for the new value, every other name stands for
/// what it stood for, and no scope but the innermost has changed.
pub proof fn bind_then_lookup(scopes: Scopes, name: Seq<char>, value: Value, other: Seq<char>)
    requires
        scopes.len() > 0,
    ensures
        lookup(bind(scopes, name, value), name) == Some(value),
        other != name ==> lookup(bind(scopes, name, value), other) == lookup(scopes, other),
        bind(scopes, name, value).len() == scopes.len(),
        forall|i: int| 1 <= i < scopes.len() ==> bind(scopes, name, value)[i] == scopes[i],
{
    assert(bind(scopes, name, value).drop_first() =~= scopes.drop_first());
}

/// An assignment to a bound name makes the name stand for the new value and leaves
/// every other name as it was. No scope gains or loses a name. An assignment to an
/// unbound name changes nothing.
pub proof fn assign_then_lookup(scopes: Scopes, name: Seq<char>, value: Value, other: Seq<char>)
    ensures
        lookup(scopes, name) is Some ==> lookup(assign(scopes, name, value), name) == Some(value),
        lookup(scopes, name) is None ==> assign(scopes, name, value) == scopes,
        other != name ==> lookup(assign(scopes, name, value), other) == lookup(scopes, other),
        assign(scopes, name, value).len() == scopes.len(),
        forall|i: int|
            0 <= i < scopes.len() ==> (#[trigger] assign(scopes, name, value)[i]).dom() == scopes[i].dom(),
    decreases scopes.len(),
{
    if scopes.len() > 0 {
        let rest = scopes.drop_first();
        let changed = assign(scopes, name, value);
        if scopes[0].contains_key(name) {
            assert(changed.drop_first() =~= rest);
            assert(changed[0].dom() =~= scopes[0].dom());
        } else {
            assign_then_lookup(rest, name, value, other);
            assert(changed.drop_first() =~= assign(rest, name, value));
            if lookup(scopes, name) is None {
                assert(changed =~= scopes);
            }
            assert forall|i: int| 0 <= i < scopes.len() implies (#[trigger] changed[i]).dom()
                == scopes[i].dom() by {
                if i > 0 {
                    assert(changed[i] == assign(rest, name, value)[i - 1]);
                    assert(scopes[i] == rest[i - 1]);
                }
            }
        }
    }
}

/// A scope with its enclosing scopes.
pub struct Env {
    dict: StringHashMap<Value>,
    outer: Option<Box<Env>>,
}

impl View for Env {
    type V = Scopes;

    closed spec fn view(&self) -> Scopes {
        self.scopes()
    }
}

impl Env {
    spec fn scopes(&self) -> Scopes
        decreases self,
    {
        match self.outer {
            Some(e) => seq![self.dict@] + e.scopes(),
            None => seq![self.dict@],
        }
    }

    /// An empty scope inside `outer`, or an empty root scope.
    pub fn new(outer: Option<Env>) -> (env: Env)
        ensures
            env@ == match outer {
                Some(e) => seq![Map::<Seq<char>, Value>::empty()] + e@,
                None => seq![Map::<Seq<char>, Value>::empty()],
            },
    {
        Env {
            dict: StringHashMap::new(),
            outer: match outer {
                Some(e) => Some(Box::new(e)),
                None => None,
            },
        }
    }

    proof fn unfold_chain(&self)
        ensures
            self@.len() >= 1,
            self@[0] == self.dict@,
            self@.drop_first() == match self.outer {
                Some(e) => e@,
                None => Seq::<Map<Seq<char>, Value>>::empty(),
            },
    {
        assert(self@.drop_first() =~= match self.outer {
            Some(e) => e.scopes(),
            None => Seq::<Map<Seq<char>, Value>>::empty(),
        });
    }

    /// Every chain has a scope.
    pub proof fn has_scope(&self)
        ensures
            self@.len() >= 1,
    {
    }

    /// Binds `var` to `value` in the innermost scope, over any binding it has there.
    pub fn set(&mut self, var: &str, value: Value)
        ensures
            final(self)@ == bind(old(self)@, var@, value),
    {
        self.dict.insert(var.to_owned(), value);
        assert(final(self)@ =~= bind(old(self)@, var@, value));
    }

    /// A copy of the value that `var` is bound to in the innermost scope binding it.
    pub fn find(&self, var: &str) -> (found: Result<Value, EvalError>)
        ensures
            found == match lookup(self@, var@) {
                Some(v) => Ok::<Value, EvalError>(v),
                None => Err(EvalError::UnboundVariable),
            },
        decreases self,
    {
        proof {
            self.unfold_chain();
        }
        match self.dict.get(var) {
            Some(v) => Ok(v.clone()),
            None => match &self.outer {
                Some(e) => e.find(var),
                None => Err(EvalError::UnboundVariable),
            },
        }
    }

    /// Rebinds `var` in the innermost scope that binds it. Where no scope does, nothing
    /// changes and the name is reported as unbound.
    pub fn find_and_set(&mut self, var: &str, value: Value) -> (done: Result<(), EvalError>)
        ensures
            lookup(old(self)@, var@) is Some ==> done is Ok && final(self)@ == assign(
                old(self)@,
                var@,
                value,
            ),
            lookup(old(self)@, var@) is None ==> done == Err::<(), EvalError>(
                EvalError::UnboundVariable,
            ) && final(self)@ == old(self)@,
        decreases *old(self),
    {
        proof {
            self.unfold_chain();
        }
        if self.dict.contains_key(var) {
            self.set(var, value);
            Ok(())
        } else {
            let ghost head = self.dict@;
            match &mut self.outer {
                Some(e) => {
                    let done = e.find_and_set(var, value);
                    proof {
                        final(self).unfold_chain();
                        assert(final(self)@ =~= seq![head] + final(e)@);
                    }
                    done
                },
                None => Err(EvalError::UnboundVariable),
            }
        }
    }
}

} // verus!

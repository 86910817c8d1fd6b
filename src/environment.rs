use vstd::prelude::*;
use crate::evaluate::{runtime_error, RuntimeError, Val, Value};
use crate::lexer::Token;
use crate::text::{concat, owned};

verus! {

/// A name bound to a value in one scope.
pub struct Binding {
    pub name: String,
    pub value: Value,
}

/// One scope: its enclosing scope, by index, and its bindings.
pub struct Scope {
    pub enclosing: Option<usize>,
    pub values: Vec<Binding>,
}

/// The scopes of a run, each named by its index. Scope 0 is the global scope; every other
/// scope encloses in one created before it, so that a chain of enclosing scopes always ends.
/// Scopes are never removed: a function keeps the scope it was declared in for as long as
/// the run lasts.
pub struct Environment {
    pub scopes: Vec<Scope>,
}

/// The value that the bindings give `name`: the last binding of that name.
pub open spec fn lookup_in(b: Seq<Binding>, name: Seq<char>) -> Option<Value>
    decreases b.len(),
{
    if b.len() == 0 {
        None
    } else if b.last().name@ == name {
        Some(b.last().value)
    } else {
        lookup_in(b.drop_last(), name)
    }
}

/// The bindings after `name` is set to `value`: its last binding changed in place, or a
/// new binding at the end when there is none.
pub open spec fn put(b: Seq<Binding>, name: String, value: Value) -> Seq<Binding>
    decreases b.len(),
{
    if lookup_in(b, name@) is None {
        b.push(Binding { name, value })
    } else if b.last().name@ == name@ {
        b.drop_last().push(Binding { name: b.last().name, value })
    } else {
        put(b.drop_last(), name, value).push(b.last())
    }
}

/// Setting `name` changes what the bindings give `name`, and nothing else.
pub proof fn lemma_put(b: Seq<Binding>, name: String, value: Value, other: Seq<char>)
    ensures
        lookup_in(put(b, name, value), other) == if other == name@ {
            Some(value)
        } else {
            lookup_in(b, other)
        },
    decreases b.len(),
{
    if lookup_in(b, name@) is None {
        assert(put(b, name, value).drop_last() =~= b);
    } else if b.last().name@ == name@ {
        assert(put(b, name, value).drop_last() =~= b.drop_last());
    } else {
        lemma_put(b.drop_last(), name, value, other);
        assert(put(b, name, value).drop_last() =~= put(b.drop_last(), name, value));
    }
}

proof fn lemma_found(b: Seq<Binding>, name: Seq<char>, j: int)
    requires
        0 <= j < b.len(),
        b[j].name@ == name,
    ensures
        lookup_in(b, name) is Some,
    decreases b.len(),
{
    if j < b.len() - 1 && b.last().name@ != name {
        lemma_found(b.drop_last(), name, j);
    }
}

proof fn lemma_put_found(b: Seq<Binding>, name: String, value: Value, j: int)
    requires
        0 <= j < b.len(),
        b[j].name@ == name@,
        forall|k: int| j < k < b.len() ==> (#[trigger] b[k]).name@ != name@,
    ensures
        put(b, name, value) == b.update(j, Binding { name: b[j].name, value }),
    decreases b.len(),
{
    lemma_found(b, name@, j);
    if j == b.len() - 1 {
        assert(put(b, name, value) =~= b.update(j, Binding { name: b[j].name, value }));
    } else {
        assert(b[b.len() - 1].name@ != name@);
        lemma_put_found(b.drop_last(), name, value, j);
        assert(put(b, name, value) =~= b.update(j, Binding { name: b[j].name, value }));
    }
}

proof fn lemma_absent(b: Seq<Binding>, name: Seq<char>)
    requires
        forall|k: int| 0 <= k < b.len() ==> (#[trigger] b[k]).name@ != name,
    ensures
        lookup_in(b, name) is None,
    decreases b.len(),
{
    if b.len() > 0 {
        assert(b[b.len() - 1].name@ != name);
        lemma_absent(b.drop_last(), name);
    }
}

proof fn lemma_put_absent(b: Seq<Binding>, name: String, value: Value)
    requires
        forall|k: int| 0 <= k < b.len() ==> (#[trigger] b[k]).name@ != name@,
    ensures
        put(b, name, value) == b.push(Binding { name, value }),
    decreases b.len(),
{
    lemma_absent(b, name@);
}

/// The message of a read or a write of a name that no scope defines.
pub open spec fn undefined_message(name: Seq<char>) -> Seq<char> {
    "Undefined variable '"@ + name + "'."@
}

impl Environment {
    /// Every scope but the global one encloses in a scope created before it.
    pub open spec fn wf(self) -> bool {
        &&& self.scopes@.len() > 0
        &&& forall|i: int|
            0 <= i < self.scopes@.len() ==> match (#[trigger] self.scopes@[i]).enclosing {
                Some(p) => p < i,
                None => true,
            }
    }

    /// The scope, among `at` and those that enclose it, nearest to `at` that defines `name`.
    pub open spec fn defining(self, at: nat, name: Seq<char>) -> Option<nat>
        decreases at,
    {
        if at >= self.scopes@.len() {
            None
        } else if lookup_in(self.scopes@[at as int].values@, name) is Some {
            Some(at)
        } else {
            match self.scopes@[at as int].enclosing {
                Some(p) => if p < at {
                    self.defining(p as nat, name)
                } else {
                    None
                },
                None => None,
            }
        }
    }

    /// The value that `name` has when read in scope `at`: its binding in the nearest scope
    /// that defines it.
    pub open spec fn resolve(self, at: nat, name: Seq<char>) -> Option<Value> {
        match self.defining(at, name) {
            Some(s) => lookup_in(self.scopes@[s as int].values@, name),
            None => None,
        }
    }

    /// `self` is `old` with `name` set to `value` in scope `s`.
    pub open spec fn put_at(self, old: Environment, s: nat, name: String, value: Value) -> bool {
        &&& s < old.scopes@.len()
        &&& self.scopes@.len() == old.scopes@.len()
        &&& forall|i: int|
            0 <= i < self.scopes@.len() && i != s ==> #[trigger] self.scopes@[i] == old.scopes@[i]
        &&& self.scopes@[s as int].enclosing == old.scopes@[s as int].enclosing
        &&& self.scopes@[s as int].values@ == put(old.scopes@[s as int].values@, name, value)
    }

    /// `self` is `old` with scopes added at the end.
    pub open spec fn extends(self, old: Environment) -> bool {
        &&& self.scopes@.len() >= old.scopes@.len()
        &&& forall|i: int| 0 <= i < old.scopes@.len() ==> #[trigger] self.scopes@[i] == old.scopes@[i]
    }

    /// An environment holding only the empty global scope.
    pub fn new() -> (r: Self)
        ensures
            r.wf(),
            r.scopes@.len() == 1,
            r.scopes@[0].enclosing is None,
            r.scopes@[0].values@.len() == 0,
    {
        let mut scopes: Vec<Scope> = Vec::new();
        scopes.push(Scope { enclosing: None, values: Vec::new() });
        Environment { scopes }
    }

    /// Adds an empty scope enclosed by `enclosing` and returns its index.
    pub fn from_enclosing(&mut self, enclosing: usize) -> (r: usize)
        requires
            old(self).wf(),
            enclosing < old(self).scopes@.len(),
        ensures
            final(self).wf(),
            final(self).extends(*old(self)),
            r == old(self).scopes@.len(),
            final(self).scopes@.len() == old(self).scopes@.len() + 1,
            final(self).scopes@[r as int].enclosing == Some(enclosing),
            final(self).scopes@[r as int].values@.len() == 0,
    {
        let r = self.scopes.len();
        self.scopes.push(Scope { enclosing: Some(enclosing), values: Vec::new() });
        assert forall|i: int| 0 <= i < self.scopes@.len() implies match (#[trigger] self.scopes@[i]).enclosing {
            Some(p) => p < i,
            None => true,
        } by {
            if i < r {
                assert(self.scopes@[i] == old(self).scopes@[i]);
            }
        }
        r
    }

    /// The index of the last binding of `name` in scope `at`.
    fn find_local(&self, at: usize, name: &String) -> (r: Option<usize>)
        requires
            at < self.scopes@.len(),
        ensures
            r is None <==> lookup_in(self.scopes@[at as int].values@, name@) is None,
            r is None ==> forall|k: int|
                0 <= k < self.scopes@[at as int].values@.len() ==> (#[trigger] self.scopes@[at as int].values@[k]).name@
                    != name@,
            r is Some ==> forall|k: int|
                r->0 < k < self.scopes@[at as int].values@.len() ==> (#[trigger] self.scopes@[at as int].values@[k]).name@
                    != name@,
            r is Some ==> r->0 < self.scopes@[at as int].values@.len() && self.scopes@[at as int].values@[r->0 as int].name@ == name@
                && lookup_in(self.scopes@[at as int].values@, name@) == Some(
                self.scopes@[at as int].values@[r->0 as int].value,
            ),
    {
        let values = &self.scopes[at].values;
        let mut k = values.len();
        assert(values@.take(k as int) =~= values@);
        while k > 0
            invariant
                values == &self.scopes@[at as int].values,
                k <= values@.len(),
                lookup_in(values@, name@) == lookup_in(values@.take(k as int), name@),
                forall|i: int| k <= i < values@.len() ==> (#[trigger] values@[i]).name@ != name@,
            decreases k,
        {
            assert(values@.take(k as int).drop_last() =~= values@.take(k - 1));
            if values[k - 1].name == *name {
                return Some(k - 1);
            }
            k = k - 1;
        }
        None
    }

    /// Sets `name` to `value` in scope `at`: a new binding, or the existing one of that
    /// scope changed; outer scopes with the same name are shadowed, not touched.
    pub fn define(&mut self, at: usize, name: String, value: Value)
        requires
            old(self).wf(),
            at < old(self).scopes@.len(),
        ensures
            final(self).wf(),
            final(self).put_at(*old(self), at as nat, name, value),
    {
        let ghost old_values = self.scopes@[at as int].values@;
        match self.find_local(at, &name) {
            Some(j) => {
                proof {
                    lemma_put_found(old_values, name, value, j as int);
                }
                let binding = &mut self.scopes[at].values[j];
                binding.value = value;
            },
            None => {
                proof {
                    lemma_put_absent(old_values, name, value);
                }
                self.scopes[at].values.push(Binding { name, value });
            },
        }
        assert(self.scopes@[at as int].values@ =~= put(old_values, name, value));
        assert forall|i: int| 0 <= i < self.scopes@.len() implies match (#[trigger] self.scopes@[i]).enclosing {
            Some(p) => p < i,
            None => true,
        } by {
            assert(self.scopes@[i].enclosing == old(self).scopes@[i].enclosing);
        }
    }
}

impl Environment {
    /// The value of `name` read in scope `at`, or an `Undefined variable` error when no scope
    /// of the chain defines it.
    pub fn get(&self, at: usize, name: &Token) -> (r: Result<Value, RuntimeError>)
        requires
            self.wf(),
            at < self.scopes@.len(),
        ensures
            match self.resolve(at as nat, name.lexeme@) {
                Some(v) => r == Ok::<Value, RuntimeError>(v),
                None => r matches Err(RuntimeError::Error { message, line, token }) && message@
                    == undefined_message(name.lexeme@) && line == name.line && token == *name,
            },
    {
        let mut s = at;
        loop
            invariant
                self.wf(),
                s < self.scopes@.len(),
                self.defining(at as nat, name.lexeme@) == self.defining(s as nat, name.lexeme@),
            decreases s,
        {
            match self.find_local(s, &name.lexeme) {
                Some(j) => {
                    return Ok(self.scopes[s].values[j].value.copy());
                },
                None => match self.scopes[s].enclosing {
                    Some(p) => {
                        s = p;
                    },
                    None => {
                        return Err(undefined(name));
                    },
                },
            }
        }
    }

    /// Writes `value` into the binding of `name` in the nearest scope of the chain from `at`
    /// that defines it; an `Undefined variable` error, with nothing changed, when none does.
    pub fn assign(&mut self, at: usize, name: &Token, value: Value) -> (r: Result<(), RuntimeError>)
        requires
            old(self).wf(),
            at < old(self).scopes@.len(),
        ensures
            final(self).wf(),
            match old(self).defining(at as nat, name.lexeme@) {
                Some(s) => r is Ok && final(self).put_at(*old(self), s, name.lexeme, value),
                None => *final(self) == *old(self) && (r matches Err(
                    RuntimeError::Error { message, line, token },
                ) && message@ == undefined_message(name.lexeme@) && line == name.line && token
                    == *name),
            },
    {
        let mut s = at;
        loop
            invariant
                self == old(self),
                self.wf(),
                s < self.scopes@.len(),
                self.defining(at as nat, name.lexeme@) == self.defining(s as nat, name.lexeme@),
            decreases s,
        {
            match self.find_local(s, &name.lexeme) {
                Some(j) => {
                    let ghost old_values = self.scopes@[s as int].values@;
                    proof {
                        lemma_put_found(old_values, name.lexeme, value, j as int);
                    }
                    self.scopes[s].values[j].value = value;
                    assert(self.scopes@[s as int].values@ =~= put(old_values, name.lexeme, value));
                    assert forall|i: int| 0 <= i < self.scopes@.len() implies match (#[trigger] self.scopes@[i]).enclosing {
                        Some(p) => p < i,
                        None => true,
                    } by {
                        assert(self.scopes@[i].enclosing == old(self).scopes@[i].enclosing);
                    }
                    return Ok(());
                },
                None => match self.scopes[s].enclosing {
                    Some(p) => {
                        s = p;
                    },
                    None => {
                        return Err(undefined(name));
                    },
                },
            }
        }
    }
}

/// The error for a name that no scope defines.
fn undefined(name: &Token) -> (r: RuntimeError)
    ensures
        r matches RuntimeError::Error { message, line, token } && message@ == undefined_message(
            name.lexeme@,
        ) && line == name.line && token == *name,
{
    let head = concat("Undefined variable '", name.lexeme.as_str());
    let message = concat(head.as_str(), "'.");
    runtime_error(name, message)
}

/// Whether each scope defines a name is the same in `a` and `b`.
pub open spec fn same_definers(a: Environment, b: Environment) -> bool {
    &&& a.scopes@.len() == b.scopes@.len()
    &&& forall|i: int, x: Seq<char>|
        0 <= i < a.scopes@.len() ==> (lookup_in(a.scopes@[i].values@, x) is Some <==> #[trigger] lookup_in(b.scopes@[i].values@, x) is Some) && a.scopes@[i].enclosing == b.scopes@[i].enclosing
}

proof fn lemma_same_definers(a: Environment, b: Environment, at: nat, x: Seq<char>)
    requires
        same_definers(a, b),
    ensures
        a.defining(at, x) == b.defining(at, x),
    decreases at,
{
    if at < a.scopes@.len() {
        assert(lookup_in(a.scopes@[at as int].values@, x) is Some <==> lookup_in(
            b.scopes@[at as int].values@,
            x,
        ) is Some);
        match a.scopes@[at as int].enclosing {
            Some(p) => {
                if p < at {
                    lemma_same_definers(a, b, p as nat, x);
                }
            },
            None => {},
        }
    }
}

/// An assignment is seen by every later read that reaches the same binding, and by no
/// other read: when `after` is `before` with `name` set to `value` in scope `s`, a scope
/// that already defined `name`, a read of `x` from any scope `at` gives `value` exactly when
/// `x` is `name` and the nearest scope from `at` that defines it is `s`; every other read
/// gives what it gave before.
pub proof fn lemma_assignment_scoping(
    before: Environment,
    after: Environment,
    s: nat,
    name: String,
    value: Value,
    at: nat,
    x: Seq<char>,
)
    requires
        before.wf(),
        after.put_at(before, s, name, value),
        lookup_in(before.scopes@[s as int].values@, name@) is Some,
    ensures
        after.wf(),
        after.defining(at, x) == before.defining(at, x),
        after.resolve(at, x) == if x == name@ && before.defining(at, x) == Some(s) {
            Some(value)
        } else {
            before.resolve(at, x)
        },
{
    assert forall|i: int, y: Seq<char>| 0 <= i < before.scopes@.len() implies (lookup_in(
        before.scopes@[i].values@,
        y,
    ) is Some <==> #[trigger] lookup_in(after.scopes@[i].values@, y) is Some)
        && before.scopes@[i].enclosing == after.scopes@[i].enclosing by {
        if i == s {
            lemma_put(before.scopes@[s as int].values@, name, value, y);
        } else {
            assert(after.scopes@[i] == before.scopes@[i]);
        }
    }
    lemma_same_definers(before, after, at, x);
    assert forall|i: int| 0 <= i < after.scopes@.len() implies match (#[trigger] after.scopes@[i]).enclosing {
        Some(p) => p < i,
        None => true,
    } by {
        assert(after.scopes@[i].enclosing == before.scopes@[i].enclosing);
    }
    match before.defining(at, x) {
        Some(d) => {
            lemma_defining_defines(before, at, x);
            lemma_put(before.scopes@[s as int].values@, name, value, x);
            if d != s {
                assert(after.scopes@[d as int] == before.scopes@[d as int]);
            }
        },
        None => {},
    }
}

pub proof fn lemma_defining_defines(e: Environment, at: nat, x: Seq<char>)
    ensures
        e.defining(at, x) matches Some(d) ==> d < e.scopes@.len() && lookup_in(
            e.scopes@[d as int].values@,
            x,
        ) is Some,
    decreases at,
{
    if at < e.scopes@.len() && lookup_in(e.scopes@[at as int].values@, x) is None {
        match e.scopes@[at as int].enclosing {
            Some(p) => {
                if p < at {
                    lemma_defining_defines(e, p as nat, x);
                }
            },
            None => {},
        }
    }
}

/// A definition binds the name in its own scope, whatever outer scopes hold: after `name` is
/// set to `value` in scope `s`, a read of `name` from `s` gives `value`, and a read of any
/// other name from any scope gives what it gave before.
pub proof fn lemma_definition_scoping(
    before: Environment,
    after: Environment,
    s: nat,
    name: String,
    value: Value,
    at: nat,
    x: Seq<char>,
)
    requires
        before.wf(),
        after.put_at(before, s, name, value),
    ensures
        after.wf(),
        after.resolve(s, name@) == Some(value),
        x != name@ ==> after.resolve(at, x) == before.resolve(at, x),
{
    assert forall|i: int| 0 <= i < after.scopes@.len() implies match (#[trigger] after.scopes@[i]).enclosing {
        Some(p) => p < i,
        None => true,
    } by {
        assert(after.scopes@[i].enclosing == before.scopes@[i].enclosing);
    }
    lemma_put(before.scopes@[s as int].values@, name, value, name@);
    if x != name@ {
        assert forall|i: int, y: Seq<char>| 0 <= i < before.scopes@.len() && y == x implies (lookup_in(
            before.scopes@[i].values@,
            y,
        ) is Some <==> #[trigger] lookup_in(after.scopes@[i].values@, y) is Some)
            && before.scopes@[i].enclosing == after.scopes@[i].enclosing by {
            if i == s {
                lemma_put(before.scopes@[s as int].values@, name, value, y);
            } else {
                assert(after.scopes@[i] == before.scopes@[i]);
            }
        }
        lemma_same_definers_for(before, after, at, x);
        match before.defining(at, x) {
            Some(d) => {
                lemma_defining_defines(before, at, x);
                lemma_put(before.scopes@[s as int].values@, name, value, x);
                if d != s {
                    assert(after.scopes@[d as int] == before.scopes@[d as int]);
                }
            },
            None => {},
        }
    }
}

proof fn lemma_same_definers_for(a: Environment, b: Environment, at: nat, x: Seq<char>)
    requires
        a.scopes@.len() == b.scopes@.len(),
        forall|i: int, y: Seq<char>|
            0 <= i < a.scopes@.len() && y == x ==> (lookup_in(a.scopes@[i].values@, y) is Some
                <==> #[trigger] lookup_in(b.scopes@[i].values@, y) is Some)
                && a.scopes@[i].enclosing == b.scopes@[i].enclosing,
    ensures
        a.defining(at, x) == b.defining(at, x),
    decreases at,
{
    if at < a.scopes@.len() {
        assert(lookup_in(a.scopes@[at as int].values@, x) is Some <==> lookup_in(
            b.scopes@[at as int].values@,
            x,
        ) is Some);
        match a.scopes@[at as int].enclosing {
            Some(p) => {
                if p < at {
                    lemma_same_definers_for(a, b, p as nat, x);
                }
            },
            None => {},
        }
    }
}

/// Adding scopes changes no read from the scopes that were there.
pub proof fn lemma_extension_keeps_reads(before: Environment, after: Environment, at: nat, x: Seq<char>)
    requires
        before.wf(),
        after.extends(before),
        at < before.scopes@.len(),
    ensures
        after.defining(at, x) == before.defining(at, x),
        after.resolve(at, x) == before.resolve(at, x),
    decreases at,
{
    assert(after.scopes@[at as int] == before.scopes@[at as int]);
    match before.scopes@[at as int].enclosing {
        Some(p) => {
            if p < at {
                lemma_extension_keeps_reads(before, after, p as nat, x);
            }
        },
        None => {},
    }
    lemma_defining_defines(before, at, x);
    match before.defining(at, x) {
        Some(d) => {
            assert(after.scopes@[d as int] == before.scopes@[d as int]);
        },
        None => {},
    }
}

/// Closures capture by reference. A call runs its body in a new scope `c`, enclosed by the
/// scope `s` where the function was declared and holding only the parameters. A read there of
/// a name that is not a parameter gives what a read in `s` gives in the environment as it is
/// at the time of the call, not as it was when the function was declared.
pub proof fn lemma_closure_reads_current(
    at_call: Environment,
    in_body: Environment,
    s: nat,
    x: Seq<char>,
)
    requires
        at_call.wf(),
        s < at_call.scopes@.len(),
        in_body.extends(at_call),
        in_body.scopes@.len() == at_call.scopes@.len() + 1,
        in_body.scopes@[at_call.scopes@.len() as int].enclosing matches Some(p) && p == s,
        lookup_in(in_body.scopes@[at_call.scopes@.len() as int].values@, x) is None,
    ensures
        in_body.resolve(at_call.scopes@.len(), x) == at_call.resolve(s, x),
{
    lemma_extension_keeps_reads(at_call, in_body, s, x);
    let c = at_call.scopes@.len();
    assert(in_body.defining(c, x) == in_body.defining(s, x));
}

/// A binding as the machine model sees it.
pub struct SBinding {
    pub name: Seq<char>,
    pub value: Val,
}

/// A scope as the machine model sees it.
pub struct SScope {
    pub enclosing: Option<usize>,
    pub values: Seq<SBinding>,
}

impl Binding {
    pub open spec fn model(self) -> SBinding {
        SBinding { name: self.name@, value: self.value.val() }
    }
}

/// The model of a list of bindings.
pub open spec fn bindings_model(b: Seq<Binding>) -> Seq<SBinding> {
    b.map_values(|x: Binding| x.model())
}

impl Scope {
    pub open spec fn model(self) -> SScope {
        SScope { enclosing: self.enclosing, values: bindings_model(self.values@) }
    }
}

impl Environment {
    /// The scopes as the machine model sees them.
    pub open spec fn model(self) -> Seq<SScope> {
        self.scopes@.map_values(|s: Scope| s.model())
    }
}

pub open spec fn lookup_m(b: Seq<SBinding>, name: Seq<char>) -> Option<Val>
    decreases b.len(),
{
    if b.len() == 0 {
        None
    } else if b.last().name == name {
        Some(b.last().value)
    } else {
        lookup_m(b.drop_last(), name)
    }
}

/// `put` on the model.
pub open spec fn put_m(b: Seq<SBinding>, name: Seq<char>, value: Val) -> Seq<SBinding>
    decreases b.len(),
{
    if lookup_m(b, name) is None {
        b.push(SBinding { name, value })
    } else if b.last().name == name {
        b.drop_last().push(SBinding { name: b.last().name, value })
    } else {
        put_m(b.drop_last(), name, value).push(b.last())
    }
}

/// `defining` on the model.
pub open spec fn defining_m(envs: Seq<SScope>, at: nat, name: Seq<char>) -> Option<nat>
    decreases at,
{
    if at >= envs.len() {
        None
    } else if lookup_m(envs[at as int].values, name) is Some {
        Some(at)
    } else {
        match envs[at as int].enclosing {
            Some(p) => if p < at {
                defining_m(envs, p as nat, name)
            } else {
                None
            },
            None => None,
        }
    }
}

/// `resolve` on the model.
pub open spec fn resolve_m(envs: Seq<SScope>, at: nat, name: Seq<char>) -> Option<Val> {
    match defining_m(envs, at, name) {
        Some(s) => lookup_m(envs[s as int].values, name),
        None => None,
    }
}

/// The model with `name` set to `value` in scope `s`.
pub open spec fn set_m(envs: Seq<SScope>, s: nat, name: Seq<char>, value: Val) -> Seq<SScope> {
    envs.update(
        s as int,
        SScope { enclosing: envs[s as int].enclosing, values: put_m(envs[s as int].values, name, value) },
    )
}

pub open spec fn val_of(o: Option<Value>) -> Option<Val> {
    match o {
        Some(v) => Some(v.val()),
        None => None,
    }
}

pub proof fn lemma_lookup_model(b: Seq<Binding>, x: Seq<char>)
    ensures
        lookup_m(bindings_model(b), x) == val_of(lookup_in(b, x)),
    decreases b.len(),
{
    if b.len() > 0 {
        assert(bindings_model(b).drop_last() =~= bindings_model(b.drop_last()));
        lemma_lookup_model(b.drop_last(), x);
    }
}

pub proof fn lemma_put_model(b: Seq<Binding>, name: String, value: Value)
    ensures
        bindings_model(put(b, name, value)) == put_m(bindings_model(b), name@, value.val()),
    decreases b.len(),
{
    lemma_lookup_model(b, name@);
    if b.len() > 0 {
        assert(bindings_model(b).drop_last() =~= bindings_model(b.drop_last()));
        lemma_lookup_model(b.drop_last(), name@);
        lemma_put_model(b.drop_last(), name, value);
    }
    if lookup_in(b, name@) is None {
        assert(bindings_model(put(b, name, value)) =~= put_m(bindings_model(b), name@, value.val()));
    } else if b.last().name@ == name@ {
        assert(bindings_model(put(b, name, value)) =~= put_m(bindings_model(b), name@, value.val()));
    } else {
        assert(bindings_model(put(b, name, value)) =~= put_m(bindings_model(b), name@, value.val()));
    }
}

pub proof fn lemma_defining_model(e: Environment, at: nat, x: Seq<char>)
    ensures
        defining_m(e.model(), at, x) == e.defining(at, x),
        resolve_m(e.model(), at, x) == val_of(e.resolve(at, x)),
    decreases at,
{
    if at < e.scopes@.len() {
        lemma_lookup_model(e.scopes@[at as int].values@, x);
        match e.scopes@[at as int].enclosing {
            Some(p) => {
                if p < at {
                    lemma_defining_model(e, p as nat, x);
                }
            },
            None => {},
        }
    }
    match e.defining(at, x) {
        Some(d) => {
            lemma_defining_defines(e, at, x);
            lemma_lookup_model(e.scopes@[d as int].values@, x);
        },
        None => {},
    }
}

pub proof fn lemma_put_at_model(after: Environment, before: Environment, s: nat, name: String, value: Value)
    requires
        after.put_at(before, s, name, value),
    ensures
        after.model() == set_m(before.model(), s, name@, value.val()),
{
    lemma_put_model(before.scopes@[s as int].values@, name, value);
    assert(after.model() =~= set_m(before.model(), s, name@, value.val()));
}

} // verus!

//! The named-variable environment.
//!
//! A scope is an ordered mapping from variable name to value; scopes form a
//! stack owned by the interpreter.  A new scope starts as a copy of the
//! bindings visible in the scope below it, so the top of the stack always
//! holds everything visible and a lookup never has to walk the stack.
//! Shadowing in an inner scope therefore never touches the outer scope's
//! copy, and popping the inner scope leaves the outer one exactly as it
//! was.

use vstd::prelude::*;

use crate::error::Error;
use crate::host::{host_ok, HostReq, HostResp};
use crate::value::{display_rel, spec_str_result, Value, ValueRep};

verus! {

/// The mathematical model of a scope: its bindings in order.
pub type ScopeRep = Seq<(Seq<char>, ValueRep)>;

/// The first binding of `name` at or after position `i`.
pub open spec fn scope_find_from(s: ScopeRep, name: Seq<char>, i: int) -> Option<ValueRep>
    decreases s.len() - i,
{
    if i < 0 || i >= s.len() {
        None
    } else if s[i].0 == name {
        Some(s[i].1)
    } else {
        scope_find_from(s, name, i + 1)
    }
}

/// The value bound to `name`, if any.
pub open spec fn scope_find(s: ScopeRep, name: Seq<char>) -> Option<ValueRep> {
    scope_find_from(s, name, 0)
}

/// The position of the first binding of `name` at or after `i`, if any.
pub open spec fn scope_index_from(s: ScopeRep, name: Seq<char>, i: int) -> Option<int>
    decreases s.len() - i,
{
    if i < 0 || i >= s.len() {
        None
    } else if s[i].0 == name {
        Some(i)
    } else {
        scope_index_from(s, name, i + 1)
    }
}

/// Binding `name` to `v`: replaces the first binding of `name` in place,
/// or appends a new one.
pub open spec fn scope_set(s: ScopeRep, name: Seq<char>, v: ValueRep) -> ScopeRep {
    match scope_index_from(s, name, 0) {
        Some(i) => s.update(i, (name, v)),
        None => s.push((name, v)),
    }
}

/// Applying a list of bindings in order, each one as [`scope_set`].
pub open spec fn scope_apply(base: ScopeRep, adds: Seq<(Seq<char>, ValueRep)>) -> ScopeRep
    decreases adds.len(),
{
    if adds.len() == 0 {
        base
    } else {
        scope_apply(scope_set(base, adds[0].0, adds[0].1), adds.drop_first())
    }
}

/// The model of a list of (name, value) pairs.
pub open spec fn pairs_rep(v: Seq<(String, Value)>) -> Seq<(Seq<char>, ValueRep)> {
    Seq::new(v.len(), |i: int| (v[i].0@, v[i].1@))
}

/// An ordered mapping from variable name to value.  Names are unique
/// within a scope: [`Scope::set_binding`] replaces in place.
#[derive(Debug)]
pub struct Scope {
    pub variables: Vec<(String, Value)>,
}

impl View for Scope {
    type V = ScopeRep;

    open spec fn view(&self) -> ScopeRep {
        pairs_rep(self.variables@)
    }
}

impl Scope {
    /// A scope with no bindings.
    pub fn new() -> (out: Self)
        ensures
            out@ == Seq::<(Seq<char>, ValueRep)>::empty(),
    {
        let s = Scope { variables: Vec::new() };
        proof {
            assert(s@ =~= Seq::<(Seq<char>, ValueRep)>::empty());
        }
        s
    }

    /// A copy of this scope, binding for binding, in order.
    pub fn duplicate(&self) -> (out: Self)
        ensures
            out@ == self@,
    {
        let mut variables: Vec<(String, Value)> = Vec::new();
        let mut i: usize = 0;
        while i < self.variables.len()
            invariant
                i <= self.variables@.len(),
                variables@.len() == i as int,
                forall|j: int|
                    0 <= j < i ==> (#[trigger] variables@[j]).0@ == self.variables@[j].0@
                        && variables@[j].1@ == self.variables@[j].1@,
            decreases self.variables@.len() - i,
        {
            let name = self.variables[i].0.clone();
            let value = self.variables[i].1.clone();
            variables.push((name, value));
            i = i + 1;
        }
        let out = Scope { variables };
        proof {
            assert(out@ =~= self@);
        }
        out
    }

    /// Reads the value bound to `name`, cloned out of the scope.
    pub fn lookup(&self, name: &String) -> (out: Option<Value>)
        ensures
            match out {
                Some(v) => scope_find(self@, name@) == Some(v@),
                None => scope_find(self@, name@) is None,
            },
    {
        let n = self.variables.len();
        let mut i: usize = 0;
        while i < n
            invariant
                i <= n,
                n == self.variables@.len(),
                scope_find(self@, name@) == scope_find_from(self@, name@, i as int),
            decreases n - i,
        {
            if self.variables[i].0 == *name {
                return Some(self.variables[i].1.clone());
            }
            i = i + 1;
        }
        None
    }

    /// Binds `name` to `value`: replaces the first binding of that name in
    /// place, or appends a new one.
    pub fn set_binding(&mut self, name: String, value: Value)
        ensures
            final(self)@ == scope_set(old(self)@, name@, value@),
    {
        let n = self.variables.len();
        let mut i: usize = 0;
        while i < n
            invariant
                i <= n,
                n == self.variables@.len(),
                self.variables@ == old(self).variables@,
                scope_index_from(self@, name@, 0) == scope_index_from(self@, name@, i as int),
            decreases n - i,
        {
            if self.variables[i].0 == name {
                self.variables[i] = (name, value);
                proof {
                    assert(self@ =~= old(self)@.update(i as int, (name@, value@)));
                }
                return ;
            }
            i = i + 1;
        }
        self.variables.push((name, value));
        proof {
            assert(self@ =~= old(self)@.push((name@, value@)));
        }
    }
}

/// `pad` spaces.
pub open spec fn spec_spaces(pad: nat) -> Seq<char> {
    Seq::new(pad, |i: int| ' ')
}

/// The text of the first `k` bindings, one line each: the padding, the
/// name, a colon and space, the rendered value, and a newline.
pub open spec fn scope_text(
    pad: nat,
    entries: ScopeRep,
    outs: Seq<Result<Seq<char>, Error>>,
    k: nat,
) -> Seq<char>
    decreases k,
{
    if k == 0 {
        Seq::<char>::empty()
    } else {
        scope_text(pad, entries, outs, (k - 1) as nat) + spec_spaces(pad) + entries[k - 1].0
            + seq![':', ' '] + outs[k - 1]->Ok_0 + seq!['\n']
    }
}

/// One admissible rendering per binding of a prefix of the scope, the
/// prefix proper only when it ends in a failure.
pub open spec fn scope_outs_ok<F: Fn(HostReq) -> HostResp>(
    host: F,
    entries: ScopeRep,
    outs: Seq<Result<Seq<char>, Error>>,
) -> bool {
    &&& outs.len() <= entries.len()
    &&& (forall|j: int| 0 <= j < outs.len() ==> display_rel(host, entries[j].1, #[trigger] outs[j]))
    &&& (forall|j: int| 0 <= j < outs.len() - 1 ==> (#[trigger] outs[j]) is Ok)
    &&& (outs.len() < entries.len() ==> outs.len() > 0 && outs.last() is Err)
}

/// What rendering a scope may produce: each binding's value rendered in
/// order, the first failure deciding the outcome.
pub open spec fn scope_display_rel<F: Fn(HostReq) -> HostResp>(
    host: F,
    pad: nat,
    entries: ScopeRep,
    res: Result<Seq<char>, Error>,
) -> bool {
    exists|outs: Seq<Result<Seq<char>, Error>>|
        #[trigger] scope_outs_ok(host, entries, outs) && res == (if outs.len() > 0
            && outs.last() is Err {
            Err::<Seq<char>, Error>(outs.last()->Err_0)
        } else {
            Ok::<Seq<char>, Error>(scope_text(pad, entries, outs, outs.len()))
        })
}

impl Scope {
    /// Renders every binding of this scope, one `name: value` line each,
    /// indented by `pad` spaces.
    pub fn try_display<F: Fn(HostReq) -> HostResp>(&self, pad: usize, host: &F) -> (out: Result<
        String,
        Error,
    >)
        requires
            host_ok(*host),
        ensures
            scope_display_rel(*host, pad as nat, self@, spec_str_result(out)),
    {
        let mut pad_text = String::new();
        let mut p: usize = 0;
        while p < pad
            invariant
                p <= pad,
                pad_text@ == spec_spaces(p as nat),
            decreases pad - p,
        {
            pad_text.append(" ");
            proof {
                reveal_strlit(" ");
                assert(pad_text@ =~= spec_spaces((p + 1) as nat));
            }
            p = p + 1;
        }
        let n = self.variables.len();
        let mut text = String::new();
        let ghost mut outs: Seq<Result<Seq<char>, Error>> = Seq::empty();
        let mut i: usize = 0;
        while i < n
            invariant
                host_ok(*host),
                n == self.variables@.len(),
                i <= n,
                pad_text@ == spec_spaces(pad as nat),
                outs.len() == i,
                forall|j: int|
                    0 <= j < i ==> display_rel(*host, self@[j].1, #[trigger] outs[j]),
                forall|j: int| 0 <= j < i ==> (#[trigger] outs[j]) is Ok,
                text@ == scope_text(pad as nat, self@, outs, i as nat),
            decreases n - i,
        {
            let value_text = match self.variables[i].1.try_display(host) {
                Ok(t) => t,
                Err(e) => {
                    let ghost prev = outs;
                    proof {
                        outs = outs.push(Err(e));
                        assert forall|j: int|
                            0 <= j < outs.len() implies display_rel(
                            *host,
                            self@[j].1,
                            #[trigger] outs[j],
                        ) by {
                            if j < i {
                                assert(outs[j] == prev[j]);
                            } else {
                                assert(outs[j] == Err::<Seq<char>, Error>(e));
                                assert(self@[j].1 == self.variables@[j].1@);
                            }
                        }
                        assert(outs.last() is Err);
                        assert(scope_outs_ok(*host, self@, outs));
                        assert(spec_str_result(Err::<String, Error>(e)) == Err::<
                            Seq<char>,
                            Error,
                        >(outs.last()->Err_0));
                    }
                    return Err(e);
                },
            };
            text.append(pad_text.as_str());
            text.append(self.variables[i].0.as_str());
            text.append(": ");
            text.append(value_text.as_str());
            text.append("\n");
            let ghost prev = outs;
            proof {
                reveal_strlit(": ");
                reveal_strlit("\n");
                outs = outs.push(Ok(value_text@));
                assert(self@[i as int].1 == self.variables@[i as int].1@);
                assert(self@[i as int].0 == self.variables@[i as int].0@);
                assert forall|j: int|
                    0 <= j < outs.len() implies display_rel(
                    *host,
                    self@[j].1,
                    #[trigger] outs[j],
                ) by {
                    if j < i {
                        assert(outs[j] == prev[j]);
                    } else {
                        assert(outs[j] == Ok::<Seq<char>, Error>(value_text@));
                    }
                }
                assert(scope_text(pad as nat, self@, outs, (i + 1) as nat) == scope_text(
                    pad as nat,
                    self@,
                    outs,
                    i as nat,
                ) + spec_spaces(pad as nat) + self@[i as int].0 + seq![':', ' ']
                    + value_text@ + seq!['\n']);
                assert(scope_text(pad as nat, self@, outs, i as nat) == scope_text(
                    pad as nat,
                    self@,
                    prev,
                    i as nat,
                )) by {
                    lemma_scope_text_frame(pad as nat, self@, prev, outs, i as nat);
                }
                assert(text@ =~= scope_text(pad as nat, self@, outs, (i + 1) as nat));
            }
            i = i + 1;
        }
        proof {
            assert(outs.len() == n);
            if outs.len() > 0 {
                assert(outs.last() is Ok);
            }
            assert(scope_outs_ok(*host, self@, outs));
            assert(scope_text(pad as nat, self@, outs, outs.len()) == text@);
            assert(spec_str_result(Ok::<String, Error>(text)) == Ok::<Seq<char>, Error>(
                scope_text(pad as nat, self@, outs, outs.len()),
            ));
        }
        Ok(text)
    }
}

/// The rendered prefix depends only on the results it covers.
proof fn lemma_scope_text_frame(
    pad: nat,
    entries: ScopeRep,
    a: Seq<Result<Seq<char>, Error>>,
    b: Seq<Result<Seq<char>, Error>>,
    k: nat,
)
    requires
        k <= a.len(),
        k <= b.len(),
        forall|j: int| 0 <= j < k ==> a[j] == b[j],
    ensures
        scope_text(pad, entries, a, k) == scope_text(pad, entries, b, k),
    decreases k,
{
    if k > 0 {
        lemma_scope_text_frame(pad, entries, a, b, (k - 1) as nat);
    }
}

} // verus!

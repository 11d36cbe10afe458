//! Variable scopes and the procedure table.
//!
//! Both are association lists with pairwise-distinct keys, viewed as maps
//! keyed by the name's character sequence.  A [`Scope`] maps variable names
//! to values; a [`ProcTable`] maps procedure names to their parameter lists
//! and bodies.
use crate::commands::{cmds_view, CmdView, Command};
use crate::text::str_eq;
use crate::value::Value;
use vstd::prelude::*;

verus! {

/// A user-defined procedure: its formal parameter names and its body.
#[derive(Debug)]
pub struct Procedure {
    pub args: Vec<String>,
    pub commands: Vec<Command>,
}

/// The ghost mirror of [`Procedure`].
pub struct ProcView {
    pub params: Seq<Seq<char>>,
    pub body: Seq<CmdView>,
}

impl View for Procedure {
    type V = ProcView;

    open spec fn view(&self) -> ProcView {
        ProcView { params: self.args.deep_view(), body: cmds_view(self.commands) }
    }
}

/// A mapping from variable name to value: the global scope, or one
/// procedure frame.
#[derive(Debug)]
pub struct Scope {
    entries: Vec<(String, Value)>,
}

/// The map an entry list denotes; a later entry would win, though the
/// uniqueness invariant keeps keys distinct.
pub open spec fn map_of(s: Seq<(String, Value)>) -> Map<Seq<char>, Value>
    decreases s.len(),
{
    if s.len() == 0 {
        Map::empty()
    } else {
        map_of(s.drop_last()).insert(s.last().0@, s.last().1)
    }
}

/// Pairwise-distinct keys.
pub open spec fn unique_keys(s: Seq<(String, Value)>) -> bool {
    forall|i: int, j: int| 0 <= i < j < s.len() ==> (#[trigger] s[i]).0@ != (#[trigger] s[j]).0@
}

proof fn lemma_map_of_absent(s: Seq<(String, Value)>, k: Seq<char>)
    requires
        forall|i: int| 0 <= i < s.len() ==> (#[trigger] s[i]).0@ != k,
    ensures
        !map_of(s).contains_key(k),
    decreases s.len(),
{
    if s.len() > 0 {
        assert(s.last() == s[s.len() - 1]);
        lemma_map_of_absent(s.drop_last(), k);
    }
}

proof fn lemma_map_of_found(s: Seq<(String, Value)>, k: Seq<char>, i: int)
    requires
        unique_keys(s),
        0 <= i < s.len(),
        s[i].0@ == k,
    ensures
        map_of(s).contains_key(k),
        map_of(s)[k] == s[i].1,
    decreases s.len(),
{
    if i == s.len() - 1 {
        assert(s.last() == s[s.len() - 1]);
    } else {
        lemma_map_of_found(s.drop_last(), k, i);
        assert(s.last() == s[s.len() - 1]);
    }
}

proof fn lemma_map_of_update(s: Seq<(String, Value)>, k: Seq<char>, i: int, e: (String, Value))
    requires
        unique_keys(s),
        0 <= i < s.len(),
        s[i].0@ == k,
        e.0@ == k,
    ensures
        map_of(s.update(i, e)) =~= map_of(s).insert(k, e.1),
        unique_keys(s.update(i, e)),
    decreases s.len(),
{
    let s2 = s.update(i, e);
    assert(s.last() == s[s.len() - 1]);
    assert(s2.last() == s2[s.len() - 1]);
    if i == s.len() - 1 {
        assert(s2.drop_last() =~= s.drop_last());
    } else {
        lemma_map_of_update(s.drop_last(), k, i, e);
        assert(s2.drop_last() =~= s.drop_last().update(i, e));
        assert(s.last().0@ != k);
    }
}

proof fn lemma_map_of_push(s: Seq<(String, Value)>, k: Seq<char>, e: (String, Value))
    requires
        unique_keys(s),
        forall|i: int| 0 <= i < s.len() ==> (#[trigger] s[i]).0@ != k,
        e.0@ == k,
    ensures
        map_of(s.push(e)) =~= map_of(s).insert(k, e.1),
        unique_keys(s.push(e)),
{
    assert(s.push(e).drop_last() =~= s);
    assert(s.push(e).last() == e);
}

impl View for Scope {
    type V = Map<Seq<char>, Value>;

    closed spec fn view(&self) -> Map<Seq<char>, Value> {
        map_of(self.entries@)
    }
}

impl Scope {
    pub closed spec fn wf(&self) -> bool {
        unique_keys(self.entries@)
    }

    /// An empty scope.
    pub fn new() -> (r: Scope)
        ensures
            r@ == Map::<Seq<char>, Value>::empty(),
            r.wf(),
    {
        Scope { entries: Vec::new() }
    }

    /// The value bound to `name`, if any.
    pub fn get(&self, name: &str) -> (r: Option<Value>)
        requires
            self.wf(),
        ensures
            match r {
                Some(v) => self@.contains_key(name@) && self@[name@] == v,
                None => !self@.contains_key(name@),
            },
    {
        let n = self.entries.len();
        let mut i: usize = 0;
        while i < n
            invariant
                i <= n,
                n == self.entries.len(),
                self.wf(),
                forall|k: int| 0 <= k < i ==> (#[trigger] self.entries@[k]).0@ != name@,
            decreases n - i,
    {
            let e = &self.entries[i];
            if str_eq(e.0.as_str(), name) {
                proof {
                    lemma_map_of_found(self.entries@, name@, i as int);
                }
                return Some(e.1);
            }
            i = i + 1;
        }
        proof {
            lemma_map_of_absent(self.entries@, name@);
        }
        None
    }

    /// Binds `name` to `v`, creating or overwriting the binding.
    pub fn set(&mut self, name: &str, v: Value)
        requires
            old(self).wf(),
        ensures
            final(self).wf(),
            final(self)@ == old(self)@.insert(name@, v),
    {
        let n = self.entries.len();
        let mut i: usize = 0;
        while i < n
            invariant
                i <= n,
                n == self.entries.len(),
                self.wf(),
                self.entries@ == old(self).entries@,
                forall|k: int| 0 <= k < i ==> (#[trigger] self.entries@[k]).0@ != name@,
            decreases n - i,
        {
            if str_eq(self.entries[i].0.as_str(), name) {
                let entry = (name.to_owned(), v);
                proof {
                    lemma_map_of_update(self.entries@, name@, i as int, entry);
                }
                self.entries[i] = entry;
                return;
            }
            i = i + 1;
        }
        let entry = (name.to_owned(), v);
        proof {
            lemma_map_of_push(self.entries@, name@, entry);
        }
        self.entries.push(entry);
    }
}

/// The map a procedure entry list denotes.
pub open spec fn proc_map_of(s: Seq<(String, Procedure)>) -> Map<Seq<char>, ProcView>
    decreases s.len(),
{
    if s.len() == 0 {
        Map::empty()
    } else {
        proc_map_of(s.drop_last()).insert(s.last().0@, s.last().1@)
    }
}

pub open spec fn unique_proc_keys(s: Seq<(String, Procedure)>) -> bool {
    forall|i: int, j: int| 0 <= i < j < s.len() ==> (#[trigger] s[i]).0@ != (#[trigger] s[j]).0@
}

proof fn lemma_proc_map_absent(s: Seq<(String, Procedure)>, k: Seq<char>)
    requires
        forall|i: int| 0 <= i < s.len() ==> (#[trigger] s[i]).0@ != k,
    ensures
        !proc_map_of(s).contains_key(k),
    decreases s.len(),
{
    if s.len() > 0 {
        assert(s.last() == s[s.len() - 1]);
        lemma_proc_map_absent(s.drop_last(), k);
    }
}

proof fn lemma_proc_map_found(s: Seq<(String, Procedure)>, k: Seq<char>, i: int)
    requires
        unique_proc_keys(s),
        0 <= i < s.len(),
        s[i].0@ == k,
    ensures
        proc_map_of(s).contains_key(k),
        proc_map_of(s)[k] == s[i].1@,
    decreases s.len(),
{
    if i == s.len() - 1 {
        assert(s.last() == s[s.len() - 1]);
    } else {
        lemma_proc_map_found(s.drop_last(), k, i);
        assert(s.last() == s[s.len() - 1]);
    }
}

proof fn lemma_proc_map_update(
    s: Seq<(String, Procedure)>,
    k: Seq<char>,
    i: int,
    e: (String, Procedure),
)
    requires
        unique_proc_keys(s),
        0 <= i < s.len(),
        s[i].0@ == k,
        e.0@ == k,
    ensures
        proc_map_of(s.update(i, e)) =~= proc_map_of(s).insert(k, e.1@),
        unique_proc_keys(s.update(i, e)),
    decreases s.len(),
{
    let s2 = s.update(i, e);
    assert(s.last() == s[s.len() - 1]);
    assert(s2.last() == s2[s.len() - 1]);
    if i == s.len() - 1 {
        assert(s2.drop_last() =~= s.drop_last());
    } else {
        lemma_proc_map_update(s.drop_last(), k, i, e);
        assert(s2.drop_last() =~= s.drop_last().update(i, e));
        assert(s.last().0@ != k);
    }
}

proof fn lemma_proc_map_push(s: Seq<(String, Procedure)>, k: Seq<char>, e: (String, Procedure))
    requires
        unique_proc_keys(s),
        forall|i: int| 0 <= i < s.len() ==> (#[trigger] s[i]).0@ != k,
        e.0@ == k,
    ensures
        proc_map_of(s.push(e)) =~= proc_map_of(s).insert(k, e.1@),
        unique_proc_keys(s.push(e)),
{
    assert(s.push(e).drop_last() =~= s);
    assert(s.push(e).last() == e);
}

/// The table of user-defined procedures, registered at parse time.
#[derive(Debug)]
pub struct ProcTable {
    entries: Vec<(String, Procedure)>,
}

impl View for ProcTable {
    type V = Map<Seq<char>, ProcView>;

    closed spec fn view(&self) -> Map<Seq<char>, ProcView> {
        proc_map_of(self.entries@)
    }
}

impl ProcTable {
    pub closed spec fn wf(&self) -> bool {
        unique_proc_keys(self.entries@)
    }

    /// An empty table.
    pub fn new() -> (r: ProcTable)
        ensures
            r@ == Map::<Seq<char>, ProcView>::empty(),
            r.wf(),
    {
        ProcTable { entries: Vec::new() }
    }

    /// The procedure registered under `name`, if any.
    pub fn get(&self, name: &str) -> (r: Option<&Procedure>)
        requires
            self.wf(),
        ensures
            match r {
                Some(p) => self@.contains_key(name@) && self@[name@] == p@,
                None => !self@.contains_key(name@),
            },
    {
        let n = self.entries.len();
        let mut i: usize = 0;
        while i < n
            invariant
                i <= n,
                n == self.entries.len(),
                self.wf(),
                forall|k: int| 0 <= k < i ==> (#[trigger] self.entries@[k]).0@ != name@,
            decreases n - i,
        {
            let e = &self.entries[i];
            if str_eq(e.0.as_str(), name) {
                proof {
                    lemma_proc_map_found(self.entries@, name@, i as int);
                }
                return Some(&e.1);
            }
            i = i + 1;
        }
        proof {
            lemma_proc_map_absent(self.entries@, name@);
        }
        None
    }

    /// Registers `proc` under `name`, overwriting any prior registration.
    pub fn insert(&mut self, name: &str, proc: Procedure)
        requires
            old(self).wf(),
        ensures
            final(self).wf(),
            final(self)@ == old(self)@.insert(name@, proc@),
    {
        let n = self.entries.len();
        let mut i: usize = 0;
        while i < n
            invariant
                i <= n,
                n == self.entries.len(),
                self.wf(),
                self.entries@ == old(self).entries@,
                forall|k: int| 0 <= k < i ==> (#[trigger] self.entries@[k]).0@ != name@,
            decreases n - i,
        {
            if str_eq(self.entries[i].0.as_str(), name) {
                let entry = (name.to_owned(), proc);
                proof {
                    lemma_proc_map_update(self.entries@, name@, i as int, entry);
                }
                self.entries[i] = entry;
                return;
            }
            i = i + 1;
        }
        let entry = (name.to_owned(), proc);
        proof {
            lemma_proc_map_push(self.entries@, name@, entry);
        }
        self.entries.push(entry);
    }
}

} // verus!

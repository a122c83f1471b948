//! The run-time environment: one flat map from names to values, holding
//! variables and functions alike.
//!
//! Scoping works by remembering the names bound when a scope is entered
//! ([`Environment::names`]) and dropping every name bound since when it is
//! left ([`Environment::remove_new`]); assignments to names of outer scopes
//! survive.
use vstd::prelude::*;
use crate::interpreter::value::{val_eq, Value};

verus! {

/// Names bound to values, each name at most once.
pub struct Environment {
    vars: Vec<(String, Value)>,
}

/// Whether `name` is one of `names`.
pub open spec fn in_names(names: Seq<String>, name: Seq<char>) -> bool {
    exists|i: int| 0 <= i < names.len() && (#[trigger] names[i])@ == name
}

impl Environment {
    /// No name is bound twice.
    pub closed spec fn wf(&self) -> bool {
        forall|i: int, j: int| 0 <= i < j < self.vars@.len() ==> self.vars@[i].0@ != self.vars@[j].0@
    }

    /// The bindings, as a map from names to values.
    pub closed spec fn vars(&self) -> Map<Seq<char>, Value> {
        Map::new(
            |k: Seq<char>| exists|i: int| 0 <= i < self.vars@.len() && (#[trigger] self.vars@[i]).0@ == k,
            |k: Seq<char>| self.vars@[choose|i: int| 0 <= i < self.vars@.len() && (#[trigger] self.vars@[i]).0@ == k].1,
        )
    }

    proof fn lemma_lookup(&self, i: int)
        requires
            self.wf(),
            0 <= i < self.vars@.len(),
        ensures
            self.vars().contains_key(self.vars@[i].0@),
            self.vars()[self.vars@[i].0@] == self.vars@[i].1,
    {
        let k = self.vars@[i].0@;
        assert(self.vars().dom().contains(k));
        let j = choose|j: int| 0 <= j < self.vars@.len() && (#[trigger] self.vars@[j]).0@ == k;
        assert(j == i);
    }

    /// An empty environment.
    pub fn new() -> (r: Self)
        ensures
            r.wf(),
            r.vars() == Map::<Seq<char>, Value>::empty(),
    {
        let r = Environment { vars: Vec::new() };
        assert(r.vars() =~= Map::<Seq<char>, Value>::empty());
        r
    }

    fn position(&self, name: &str) -> (r: Option<usize>)
        requires
            self.wf(),
        ensures
            r matches Some(i) ==> i < self.vars@.len() && self.vars@[i as int].0@ == name@,
            r is None ==> !self.vars().contains_key(name@),
    {
        let key = String::from_str(name);
        let mut i: usize = 0;
        while i < self.vars.len()
            invariant
                i <= self.vars.len(),
                key@ == name@,
                forall|k: int| 0 <= k < i ==> self.vars@[k].0@ != name@,
            decreases self.vars.len() - i,
        {
            if self.vars[i].0.eq(&key) {
                return Some(i);
            }
            i = i + 1;
        }
        None
    }

    /// The value bound to `name`, if any.
    pub fn get(&self, name: &str) -> (r: Option<&Value>)
        requires
            self.wf(),
        ensures
            r is Some <==> self.vars().contains_key(name@),
            r matches Some(v) ==> *v == self.vars()[name@],
    {
        match self.position(name) {
            Some(i) => {
                proof { self.lemma_lookup(i as int); }
                Some(&self.vars[i].1)
            },
            None => None,
        }
    }

    /// Binds `name` to `value`, replacing a binding of the same name.
    pub fn declare(&mut self, name: String, value: Value)
        requires
            old(self).wf(),
        ensures
            final(self).wf(),
            final(self).vars() == old(self).vars().insert(name@, value),
    {
        let ghost v0 = self.vars@;
        match self.position(name.as_str()) {
            Some(i) => {
                self.vars.set(i, (name, value));
                proof {
                    assert forall|a: int, b: int| 0 <= a < b < self.vars@.len() implies self.vars@[a].0@ != self.vars@[b].0@ by {
                        assert(v0[a].0@ != v0[b].0@);
                    }
                    assert forall|k: Seq<char>| #[trigger] self.vars().contains_key(k) <==> old(self).vars().insert(name@, value).contains_key(k) by {
                        if self.vars().contains_key(k) {
                            let j = choose|j: int| 0 <= j < self.vars@.len() && (#[trigger] self.vars@[j]).0@ == k;
                            if j != i { assert(v0[j].0@ == k); }
                        }
                        if old(self).vars().contains_key(k) && k != name@ {
                            let j = choose|j: int| 0 <= j < v0.len() && (#[trigger] v0[j]).0@ == k;
                            assert(self.vars@[j].0@ == k);
                        }
                        if k == name@ {
                            assert(self.vars@[i as int].0@ == k);
                        }
                    }
                    assert forall|k: Seq<char>| #[trigger] self.vars().contains_key(k) implies self.vars()[k] == old(self).vars().insert(name@, value)[k] by {
                        let j = choose|j: int| 0 <= j < self.vars@.len() && (#[trigger] self.vars@[j]).0@ == k;
                        self.lemma_lookup(j);
                        if j != i {
                            assert(v0[j].0@ == k);
                            old(self).lemma_lookup(j);
                        }
                    }
                    assert(self.vars() =~= old(self).vars().insert(name@, value));
                }
            },
            None => {
                self.vars.push((name, value));
                proof {
                    let n = self.vars@.len();
                    assert forall|a: int, b: int| 0 <= a < b < n implies self.vars@[a].0@ != self.vars@[b].0@ by {
                        if b == n - 1 {
                            assert(v0[a] == self.vars@[a]);
                            assert(old(self).vars().contains_key(v0[a].0@));
                        } else {
                            assert(v0[a].0@ != v0[b].0@);
                        }
                    }
                    assert forall|k: Seq<char>| #[trigger] self.vars().contains_key(k) <==> old(self).vars().insert(name@, value).contains_key(k) by {
                        if self.vars().contains_key(k) {
                            let j = choose|j: int| 0 <= j < self.vars@.len() && (#[trigger] self.vars@[j]).0@ == k;
                            if j != n - 1 { assert(v0[j].0@ == k); }
                        }
                        if old(self).vars().contains_key(k) {
                            let j = choose|j: int| 0 <= j < v0.len() && (#[trigger] v0[j]).0@ == k;
                            assert(self.vars@[j].0@ == k);
                        }
                        if k == name@ {
                            assert(self.vars@[n - 1].0@ == k);
                        }
                    }
                    assert forall|k: Seq<char>| #[trigger] self.vars().contains_key(k) implies self.vars()[k] == old(self).vars().insert(name@, value)[k] by {
                        let j = choose|j: int| 0 <= j < self.vars@.len() && (#[trigger] self.vars@[j]).0@ == k;
                        self.lemma_lookup(j);
                        if j != n - 1 {
                            assert(v0[j].0@ == k);
                            old(self).lemma_lookup(j);
                        }
                    }
                    assert(self.vars() =~= old(self).vars().insert(name@, value));
                }
            },
        }
    }

    /// Rebinds an already bound `name` to `value`; returns whether `name`
    /// was bound (when it was not, nothing changes).
    pub fn set(&mut self, name: &str, value: Value) -> (r: bool)
        requires
            old(self).wf(),
        ensures
            final(self).wf(),
            r == old(self).vars().contains_key(name@),
            r ==> final(self).vars() == old(self).vars().insert(name@, value),
            !r ==> final(self).vars() == old(self).vars(),
    {
        match self.position(name) {
            Some(i) => {
                proof { self.lemma_lookup(i as int); }
                let key = String::from_str(name);
                self.declare(key, value);
                true
            },
            None => false,
        }
    }

    /// Takes the value bound to `name` out of the environment, leaving
    /// `void` in its place; `None` (and no change) where `name` is not bound.
    pub fn take(&mut self, name: &str) -> (r: Option<Value>)
        requires
            old(self).wf(),
        ensures
            final(self).wf(),
            r is Some <==> old(self).vars().contains_key(name@),
            r matches Some(v) ==> v == old(self).vars()[name@] && final(self).vars() == old(self).vars().insert(name@, Value::Void),
            r is None ==> final(self).vars() == old(self).vars(),
    {
        match self.position(name) {
            Some(i) => {
                proof { self.lemma_lookup(i as int); }
                let key = self.vars[i].0.clone();
                let (_, v) = self.vars.remove(i);
                self.vars.insert(i, (key, Value::Void));
                proof {
                    let v0 = old(self).vars@;
                    assert(self.vars@ =~= v0.update(i as int, (key, Value::Void)));
                    assert forall|a: int, b: int| 0 <= a < b < self.vars@.len() implies self.vars@[a].0@ != self.vars@[b].0@ by {
                        assert(v0[a].0@ != v0[b].0@);
                    }
                    let want = old(self).vars().insert(name@, Value::Void);
                    assert forall|k: Seq<char>| #[trigger] self.vars().contains_key(k) <==> want.contains_key(k) by {
                        if self.vars().contains_key(k) {
                            let j = choose|j: int| 0 <= j < self.vars@.len() && (#[trigger] self.vars@[j]).0@ == k;
                            if j != i { assert(v0[j].0@ == k); }
                        }
                        if old(self).vars().contains_key(k) && k != name@ {
                            let j = choose|j: int| 0 <= j < v0.len() && (#[trigger] v0[j]).0@ == k;
                            assert(self.vars@[j].0@ == k);
                        }
                        if k == name@ {
                            assert(self.vars@[i as int].0@ == k);
                        }
                    }
                    assert forall|k: Seq<char>| #[trigger] self.vars().contains_key(k) implies self.vars()[k] == want[k] by {
                        let j = choose|j: int| 0 <= j < self.vars@.len() && (#[trigger] self.vars@[j]).0@ == k;
                        self.lemma_lookup(j);
                        if j != i {
                            assert(v0[j].0@ == k);
                            old(self).lemma_lookup(j);
                        }
                    }
                    assert(self.vars() =~= want);
                }
                Some(v)
            },
            None => None,
        }
    }

    /// The names bound now, each once.
    pub fn names(&self) -> (r: Vec<String>)
        requires
            self.wf(),
        ensures
            forall|k: Seq<char>| self.vars().contains_key(k) <==> in_names(r@, k),
    {
        let mut out: Vec<String> = Vec::new();
        let mut i: usize = 0;
        while i < self.vars.len()
            invariant
                i <= self.vars.len(),
                out.len() == i,
                forall|k: int| 0 <= k < i ==> (#[trigger] out@[k])@ == self.vars@[k].0@,
            decreases self.vars.len() - i,
        {
            out.push(self.vars[i].0.clone());
            i = i + 1;
        }
        proof {
            assert forall|k: Seq<char>| self.vars().contains_key(k) <==> in_names(out@, k) by {
                if self.vars().contains_key(k) {
                    let j = choose|j: int| 0 <= j < self.vars@.len() && (#[trigger] self.vars@[j]).0@ == k;
                    assert(out@[j]@ == k);
                }
                if in_names(out@, k) {
                    let j = choose|j: int| 0 <= j < out@.len() && (#[trigger] out@[j])@ == k;
                    assert(self.vars@[j].0@ == k);
                }
            }
        }
        out
    }

    /// Drops every binding whose name is not in `outer`.
    pub fn remove_new(&mut self, outer: &Vec<String>)
        requires
            old(self).wf(),
        ensures
            final(self).wf(),
            final(self).vars() == old(self).vars().restrict(Set::new(|k: Seq<char>| in_names(outer@, k))),
    {
        let ghost v0 = self.vars@;
        let ghost mut idx: Seq<int> = Seq::empty();
        let ghost mut j: int = 0;
        let mut i: usize = 0;
        while i < self.vars.len()
            invariant
                old(self).wf(),
                v0 == old(self).vars@,
                i <= self.vars.len(),
                0 <= j <= v0.len(),
                idx.len() == i,
                self.vars@.subrange(i as int, self.vars@.len() as int) == v0.subrange(j, v0.len() as int),
                forall|a: int| 0 <= a < i ==> 0 <= #[trigger] idx[a] < j && self.vars@[a] == v0[idx[a]]
                    && in_names(outer@, v0[idx[a]].0@),
                forall|a: int, c: int| 0 <= a < c < i ==> idx[a] < idx[c],
                forall|b: int| 0 <= b < j && in_names(outer@, (#[trigger] v0[b]).0@) ==> exists|a: int| 0 <= a < i && idx[a] == b,
            decreases self.vars.len() - i,
        {
            let mut keep = false;
            let mut m: usize = 0;
            while m < outer.len()
                invariant
                    m <= outer.len(),
                    i < self.vars@.len(),
                    keep ==> in_names(outer@, self.vars@[i as int].0@),
                    !keep ==> forall|c: int| 0 <= c < m ==> outer@[c]@ != self.vars@[i as int].0@,
                decreases outer.len() - m,
            {
                if outer[m].eq(&self.vars[i].0) {
                    keep = true;
                }
                m = m + 1;
            }
            assert(self.vars@[i as int] == self.vars@.subrange(i as int, self.vars@.len() as int)[0]);
            if keep {
                proof {
                    assert(self.vars@.subrange(i + 1, self.vars@.len() as int) =~= self.vars@.subrange(i as int, self.vars@.len() as int).drop_first());
                    assert(v0.subrange(j + 1, v0.len() as int) =~= v0.subrange(j, v0.len() as int).drop_first());
                    let ghost old_idx = idx;
                    let ghost oj = j;
                    idx = idx.push(j);
                    j = j + 1;
                    assert forall|b: int| 0 <= b < j && in_names(outer@, (#[trigger] v0[b]).0@) implies exists|a: int| 0 <= a < i + 1 && idx[a] == b by {
                        if b == oj {
                            assert(idx[i as int] == b);
                        } else {
                            let a = choose|a: int| 0 <= a < i && old_idx[a] == b;
                            assert(idx[a] == b);
                        }
                    }
                }
                i = i + 1;
            } else {
                let ghost before = self.vars@;
                let _dropped = self.vars.remove(i);
                proof {
                    assert(self.vars@.subrange(i as int, self.vars@.len() as int) =~= before.subrange(i + 1, before.len() as int));
                    assert(before.subrange(i + 1, before.len() as int) =~= before.subrange(i as int, before.len() as int).drop_first());
                    assert(v0.subrange(j + 1, v0.len() as int) =~= v0.subrange(j, v0.len() as int).drop_first());
                    assert forall|a: int| 0 <= a < i implies self.vars@[a] == before[a] by {}
                    assert(!in_names(outer@, v0[j].0@));
                    j = j + 1;
                }
            }
        }
        proof {
            assert(self.vars@.subrange(i as int, self.vars@.len() as int).len() == 0);
            let s = Set::new(|k: Seq<char>| in_names(outer@, k));
            let want = old(self).vars().restrict(s);
            assert forall|a: int, c: int| 0 <= a < c < self.vars@.len() implies self.vars@[a].0@ != self.vars@[c].0@ by {
                assert(idx[a] < idx[c]);
            }
            assert forall|k: Seq<char>| #[trigger] self.vars().contains_key(k) <==> want.contains_key(k) by {
                if self.vars().contains_key(k) {
                    let a = choose|a: int| 0 <= a < self.vars@.len() && (#[trigger] self.vars@[a]).0@ == k;
                    old(self).lemma_lookup(idx[a]);
                }
                if want.contains_key(k) {
                    let b = choose|b: int| 0 <= b < v0.len() && (#[trigger] v0[b]).0@ == k;
                    assert(in_names(outer@, v0[b].0@));
                    let a = choose|a: int| 0 <= a < i && idx[a] == b;
                    assert(self.vars@[a].0@ == k);
                }
            }
            assert forall|k: Seq<char>| #[trigger] self.vars().contains_key(k) implies self.vars()[k] == want[k] by {
                let a = choose|a: int| 0 <= a < self.vars@.len() && (#[trigger] self.vars@[a]).0@ == k;
                self.lemma_lookup(a);
                old(self).lemma_lookup(idx[a]);
            }
            assert(self.vars() =~= want);
        }
    }

    /// A copy of the environment: the same names, bound to copies of the
    /// same values.
    pub fn duplicate(&self) -> (r: Self)
        requires
            self.wf(),
        ensures
            r.wf(),
            r.vars().dom() == self.vars().dom(),
            forall|k: Seq<char>| #[trigger] r.vars().contains_key(k) ==> val_eq(r.vars()[k], self.vars()[k]),
    {
        let mut out: Vec<(String, Value)> = Vec::new();
        let mut i: usize = 0;
        while i < self.vars.len()
            invariant
                i <= self.vars.len(),
                self.wf(),
                out.len() == i,
                forall|k: int| 0 <= k < i ==> (#[trigger] out@[k]).0@ == self.vars@[k].0@ && val_eq(out@[k].1, self.vars@[k].1),
            decreases self.vars.len() - i,
        {
            out.push((self.vars[i].0.clone(), self.vars[i].1.duplicate()));
            i = i + 1;
        }
        let r = Environment { vars: out };
        proof {
            assert forall|a: int, b: int| 0 <= a < b < r.vars@.len() implies r.vars@[a].0@ != r.vars@[b].0@ by {
                assert(self.vars@[a].0@ != self.vars@[b].0@);
            }
            assert forall|k: Seq<char>| r.vars().contains_key(k) <==> self.vars().contains_key(k) by {
                if r.vars().contains_key(k) {
                    let a = choose|a: int| 0 <= a < r.vars@.len() && (#[trigger] r.vars@[a]).0@ == k;
                    assert(self.vars@[a].0@ == k);
                }
                if self.vars().contains_key(k) {
                    let a = choose|a: int| 0 <= a < self.vars@.len() && (#[trigger] self.vars@[a]).0@ == k;
                    assert(r.vars@[a].0@ == k);
                }
            }
            assert(r.vars().dom() =~= self.vars().dom());
            assert forall|k: Seq<char>| #[trigger] r.vars().contains_key(k) implies val_eq(r.vars()[k], self.vars()[k]) by {
                let a = choose|a: int| 0 <= a < r.vars@.len() && (#[trigger] r.vars@[a]).0@ == k;
                r.lemma_lookup(a);
                self.lemma_lookup(a);
            }
        }
        r
    }
}

} // verus!

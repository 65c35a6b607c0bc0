//! Cookies by name.

use crate::text::same_text;
use vstd::prelude::*;

verus! {

/// A map from cookie names to cookie values. No name occurs twice; a name keeps
/// the place where it was first set.
#[derive(Debug)]
pub struct CookieMap {
    entries: Vec<(String, String)>,
}

/// The entry at `i` has the name `name`.
spec fn named(entries: Seq<(String, String)>, i: int, name: Seq<char>) -> bool {
    0 <= i < entries.len() && entries[i].0@ == name
}

impl View for CookieMap {
    type V = Map<Seq<char>, Seq<char>>;

    closed spec fn view(&self) -> Map<Seq<char>, Seq<char>> {
        Map::new(
            |name: Seq<char>| exists|i: int| named(self.entries@, i, name),
            |name: Seq<char>|
                self.entries@[choose|i: int| named(self.entries@, i, name)].1@,
        )
    }
}

impl Clone for CookieMap {
    fn clone(&self) -> (r: CookieMap)
        ensures
            r@ == self@,
            r.listed() == self.listed(),
    {
        proof {
            use_type_invariant(self);
        }
        let mut entries: Vec<(String, String)> = Vec::new();
        let mut i: usize = 0;
        while i < self.entries.len()
            invariant
                i <= self.entries@.len(),
                entries@ =~= self.entries@.take(i as int),
            decreases self.entries@.len() - i,
        {
            entries.push((self.entries[i].0.clone(), self.entries[i].1.clone()));
            i = i + 1;
        }
        assert(entries@ =~= self.entries@);
        CookieMap { entries }
    }
}

impl PartialEq for CookieMap {
    fn eq(&self, other: &CookieMap) -> (r: bool) {
        self.same(other)
    }
}

impl vstd::std_specs::cmp::PartialEqSpecImpl for CookieMap {
    open spec fn obeys_eq_spec() -> bool {
        true
    }

    open spec fn eq_spec(&self, other: &CookieMap) -> bool {
        self@ == other@
    }
}

impl CookieMap {
    /// No name occurs twice.
    #[verifier::type_invariant]
    pub closed spec fn wf(self) -> bool {
        forall|i: int, j: int|
            0 <= i < j < self.entries@.len() ==> (#[trigger] self.entries@[i]).0@
                != (#[trigger] self.entries@[j]).0@
    }

    /// The names and values, in the order in which the names were first set.
    pub closed spec fn listed(self) -> Seq<(Seq<char>, Seq<char>)> {
        Seq::new(self.entries@.len(), |i: int| (self.entries@[i].0@, self.entries@[i].1@))
    }

    proof fn lemma_at(self, i: int)
        requires
            self.wf(),
            0 <= i < self.entries@.len(),
        ensures
            self@.contains_key(self.entries@[i].0@),
            self@[self.entries@[i].0@] == self.entries@[i].1@,
    {
        let name = self.entries@[i].0@;
        assert(named(self.entries@, i, name));
        let k = choose|k: int| named(self.entries@, k, name);
        if k < i {
            assert(self.entries@[k].0@ != self.entries@[i].0@);
        } else if i < k {
            assert(self.entries@[i].0@ != self.entries@[k].0@);
        }
    }

    /// A map that holds nothing.
    pub fn new() -> (r: CookieMap)
        ensures
            r@ == Map::<Seq<char>, Seq<char>>::empty(),
            r.listed().len() == 0,
    {
        let r = CookieMap { entries: Vec::new() };
        assert(r@ =~= Map::<Seq<char>, Seq<char>>::empty());
        r
    }

    /// How many names are set.
    pub fn len(&self) -> (r: usize)
        ensures
            r == self.listed().len(),
    {
        self.entries.len()
    }

    /// The name and the value at place `i`.
    pub fn entry(&self, i: usize) -> (r: (&str, &str))
        requires
            i < self.listed().len(),
        ensures
            (r.0@, r.1@) == self.listed()[i as int],
    {
        (self.entries[i].0.as_str(), self.entries[i].1.as_str())
    }

    fn place(&self, name: &str) -> (r: Option<usize>)
        ensures
            match r {
                Some(i) => named(self.entries@, i as int, name@),
                None => !self@.contains_key(name@),
            },
    {
        proof {
            use_type_invariant(self);
        }
        let mut i: usize = 0;
        while i < self.entries.len()
            invariant
                i <= self.entries@.len(),
                forall|j: int| 0 <= j < i ==> (#[trigger] self.entries@[j]).0@ != name@,
            decreases self.entries@.len() - i,
        {
            if same_text(self.entries[i].0.as_str(), name) {
                return Some(i);
            }
            i = i + 1;
        }
        None
    }

    /// The value that `name` is set to.
    pub fn get(&self, name: &str) -> (r: Option<&str>)
        ensures
            match r {
                Some(value) => self@.contains_key(name@) && value@ == self@[name@],
                None => !self@.contains_key(name@),
            },
    {
        match self.place(name) {
            Some(i) => {
                proof {
                    use_type_invariant(self);
                    self.lemma_at(i as int);
                }
                Some(self.entries[i].1.as_str())
            },
            None => None,
        }
    }

    /// Sets `name` to `value`, in place of what it was set to before.
    pub fn insert(&mut self, name: String, value: String)
        ensures
            final(self)@ == old(self)@.insert(name@, value@),
            !old(self)@.contains_key(name@) ==> final(self).listed() == old(self).listed().push(
                (name@, value@),
            ),
            old(self)@.contains_key(name@) ==> final(self).listed().len() == old(
                self,
            ).listed().len() && forall|i: int|
                0 <= i < old(self).listed().len() ==> #[trigger] final(self).listed()[i] == (if old(
                    self,
                ).listed()[i].0 == name@ {
                    (name@, value@)
                } else {
                    old(self).listed()[i]
                }),
    {
        proof {
            use_type_invariant(&*self);
        }
        let ghost before = *self;
        match self.place(name.as_str()) {
            Some(i) => {
                let entry = (name, value);
                let mut entries: Vec<(String, String)> = Vec::new();
                std::mem::swap(&mut entries, &mut self.entries);
                entries.set(i, entry);
                self.entries = entries;
                proof {
                    let after = *self;
                    assert forall|n: Seq<char>| after@.contains_key(n) <==> #[trigger] before@.insert(
                        name@,
                        value@,
                    ).contains_key(n) by {
                        if exists|k: int| named(after.entries@, k, n) {
                            let k = choose|k: int| named(after.entries@, k, n);
                            assert(named(before.entries@, k, n));
                        }
                        if exists|k: int| named(before.entries@, k, n) {
                            let k = choose|k: int| named(before.entries@, k, n);
                            assert(named(after.entries@, k, n));
                        }
                        if n == name@ {
                            assert(named(after.entries@, i as int, n));
                        }
                    }
                    assert forall|n: Seq<char>| after@.contains_key(n) implies after@[n]
                        == #[trigger] before@.insert(name@, value@)[n] by {
                        let k = choose|k: int| named(after.entries@, k, n);
                        after.lemma_at(k);
                        if k != i {
                            before.lemma_at(k);
                            if k < i {
                                assert(before.entries@[k].0@ != before.entries@[i as int].0@);
                            } else {
                                assert(before.entries@[i as int].0@ != before.entries@[k].0@);
                            }
                        }
                    }
                    assert(after@ =~= before@.insert(name@, value@));
                    before.lemma_at(i as int);
                    assert forall|k: int| 0 <= k < before.listed().len() implies
                        #[trigger] after.listed()[k] == (if before.listed()[k].0 == name@ {
                        (name@, value@)
                    } else {
                        before.listed()[k]
                    }) by {
                        if k < i {
                            assert(before.entries@[k].0@ != before.entries@[i as int].0@);
                        } else if k > i {
                            assert(before.entries@[i as int].0@ != before.entries@[k].0@);
                        }
                    }
                }
            },
            None => {
                let entry = (name, value);
                let mut entries: Vec<(String, String)> = Vec::new();
                std::mem::swap(&mut entries, &mut self.entries);
                entries.push(entry);
                let ghost last = before.entries@.len() as int;
                proof {
                    assert forall|j: int| 0 <= j < last implies (#[trigger] before.entries@[j]).0@
                        != name@ by {
                        before.lemma_at(j);
                    }
                    assert forall|i: int, j: int| 0 <= i < j < entries@.len() implies (
                    #[trigger] entries@[i]).0@ != (#[trigger] entries@[j]).0@ by {
                        assert(entries@[i] == before.entries@[i]);
                        if j < last {
                            assert(entries@[j] == before.entries@[j]);
                        }
                    }
                }
                self.entries = entries;
                proof {
                    let after = *self;
                    assert forall|n: Seq<char>| after@.contains_key(n) <==> #[trigger] before@.insert(
                        name@,
                        value@,
                    ).contains_key(n) by {
                        if exists|k: int| named(after.entries@, k, n) {
                            let k = choose|k: int| named(after.entries@, k, n);
                            if k < last {
                                assert(named(before.entries@, k, n));
                            }
                        }
                        if exists|k: int| named(before.entries@, k, n) {
                            let k = choose|k: int| named(before.entries@, k, n);
                            assert(named(after.entries@, k, n));
                        }
                        if n == name@ {
                            assert(named(after.entries@, last, n));
                        }
                    }
                    assert forall|n: Seq<char>| after@.contains_key(n) implies after@[n]
                        == #[trigger] before@.insert(name@, value@)[n] by {
                        let k = choose|k: int| named(after.entries@, k, n);
                        after.lemma_at(k);
                        if k < last {
                            before.lemma_at(k);
                        }
                    }
                    assert(after@ =~= before@.insert(name@, value@));
                    assert(after.listed() =~= before.listed().push((name@, value@)));
                }
            },
        }
    }

    fn within(&self, other: &CookieMap) -> (r: bool)
        ensures
            r == (forall|n: Seq<char>| #[trigger]
                self@.contains_key(n) ==> other@.contains_key(n) && other@[n] == self@[n]),
    {
        proof {
            use_type_invariant(self);
            use_type_invariant(other);
        }
        let mut i: usize = 0;
        while i < self.entries.len()
            invariant
                self.wf(),
                other.wf(),
                i <= self.entries@.len(),
                forall|j: int|
                    0 <= j < i ==> other@.contains_key((#[trigger] self.entries@[j]).0@)
                        && other@[self.entries@[j].0@] == self.entries@[j].1@,
            decreases self.entries@.len() - i,
        {
            proof {
                self.lemma_at(i as int);
            }
            let same: bool = match other.get(self.entries[i].0.as_str()) {
                Some(value) => same_text(value, self.entries[i].1.as_str()),
                None => false,
            };
            if !same {
                assert(self@.contains_key(self.entries@[i as int].0@));
                return false;
            }
            i = i + 1;
        }
        proof {
            assert forall|n: Seq<char>| #[trigger] self@.contains_key(n) implies other@.contains_key(n)
                && other@[n] == self@[n] by {
                let k = choose|k: int| named(self.entries@, k, n);
                self.lemma_at(k);
            }
        }
        true
    }

    /// True where both set the same names to the same values.
    pub fn same(&self, other: &CookieMap) -> (r: bool)
        ensures
            r == (self@ == other@),
    {
        let r: bool = self.within(other) && other.within(self);
        if r {
            assert(self@ =~= other@);
        }
        r
    }

    /// What is listed is what is set: each place's name is set to its value, each
    /// name that is set has a place, and no two places share a name.
    pub proof fn law_listed(self)
        requires
            self.wf(),
        ensures
            forall|i: int|
                0 <= i < self.listed().len() ==> self@.contains_key(
                    (#[trigger] self.listed()[i]).0,
                ) && self@[self.listed()[i].0] == self.listed()[i].1,
            forall|n: Seq<char>| #[trigger]
                self@.contains_key(n) ==> exists|i: int|
                    0 <= i < self.listed().len() && (#[trigger] self.listed()[i]).0 == n,
            forall|i: int, j: int|
                0 <= i < j < self.listed().len() ==> (#[trigger] self.listed()[i]).0 != (
                #[trigger] self.listed()[j]).0,
    {
        assert forall|i: int| 0 <= i < self.listed().len() implies self@.contains_key(
            (#[trigger] self.listed()[i]).0,
        ) && self@[self.listed()[i].0] == self.listed()[i].1 by {
            self.lemma_at(i);
        }
        assert forall|n: Seq<char>| #[trigger] self@.contains_key(n) implies exists|i: int|
            0 <= i < self.listed().len() && (#[trigger] self.listed()[i]).0 == n by {
            let k = choose|k: int| named(self.entries@, k, n);
            assert(self.listed()[k].0 == n);
        }
    }
}

/// Two maps are equal exactly where they set the same names to the same values.
pub proof fn law_equal_maps(a: CookieMap, b: CookieMap)
    ensures
        vstd::std_specs::cmp::PartialEqSpec::eq_spec(&a, &b) <==> (forall|n: Seq<char>|
            (#[trigger] a@.contains_key(n) <==> b@.contains_key(n)) && (a@.contains_key(n)
                ==> a@[n] == b@[n])),
{
    if forall|n: Seq<char>|
        (#[trigger] a@.contains_key(n) <==> b@.contains_key(n)) && (a@.contains_key(n) ==> a@[n]
            == b@[n]) {
        assert forall|n: Seq<char>| a@.dom().contains(n) <==> b@.dom().contains(n) by {
            assert(a@.contains_key(n) <==> b@.contains_key(n));
        }
        assert forall|n: Seq<char>| a@.dom().contains(n) implies a@[n] == b@[n] by {
            assert(a@.contains_key(n));
        }
        assert(a@ =~= b@);
    }
}

} // verus!

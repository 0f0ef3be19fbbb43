//! Tables keyed by name.
//!
//! A table answers for a name with what was last set for it. Kept as a list
//! of pairs, each name at most once, so what it holds is the same whichever
//! order it was filled in.

use vstd::prelude::*;
use crate::text::{chars_of, same};

verus! {

/// What the first pair named `k` holds, if any pair is.
pub open spec fn lookup<V>(pairs: Seq<(String, V)>, k: Seq<char>) -> Option<V>
    decreases pairs.len(),
{
    if pairs.len() == 0 {
        None
    } else if pairs[0].0@ == k {
        Some(pairs[0].1)
    } else {
        lookup(pairs.drop_first(), k)
    }
}

proof fn lemma_lookup_at<V>(pairs: Seq<(String, V)>, k: Seq<char>, i: int)
    requires
        0 <= i <= pairs.len(),
        forall|j: int| 0 <= j < i ==> (#[trigger] pairs[j]).0@ != k,
    ensures
        lookup(pairs, k) == lookup(pairs.skip(i), k),
    decreases i,
{
    if i > 0 {
        assert(pairs[0].0@ != k);
        assert forall|j: int| 0 <= j < i - 1 implies (#[trigger] pairs.drop_first()[j]).0@ != k by {
            assert(pairs.drop_first()[j] == pairs[j + 1]);
        }
        lemma_lookup_at(pairs.drop_first(), k, i - 1);
        assert(pairs.drop_first().skip(i - 1) =~= pairs.skip(i));
    } else {
        assert(pairs.skip(0) =~= pairs);
    }
}

proof fn lemma_lookup_none<V>(pairs: Seq<(String, V)>, k: Seq<char>)
    requires
        forall|j: int| 0 <= j < pairs.len() ==> (#[trigger] pairs[j]).0@ != k,
    ensures
        lookup(pairs, k) is None,
{
    lemma_lookup_at(pairs, k, pairs.len() as int);
    assert(pairs.skip(pairs.len() as int).len() == 0);
}

proof fn lemma_lookup_update<V>(pairs: Seq<(String, V)>, i: int, v: V, k: Seq<char>)
    requires
        0 <= i < pairs.len(),
        forall|j: int| 0 <= j < i ==> (#[trigger] pairs[j]).0@ != pairs[i].0@,
    ensures
        lookup(pairs.update(i, (pairs[i].0, v)), k) == if k == pairs[i].0@ {
            Some(v)
        } else {
            lookup(pairs, k)
        },
    decreases i,
{
    let updated = pairs.update(i, (pairs[i].0, v));
    if i == 0 {
        assert(updated.drop_first() =~= pairs.drop_first());
    } else {
        assert(pairs[0].0@ != pairs[i].0@);
        assert forall|j: int| 0 <= j < i - 1 implies (#[trigger] pairs.drop_first()[j]).0@
            != pairs.drop_first()[i - 1].0@ by {
            assert(pairs.drop_first()[j] == pairs[j + 1]);
        }
        lemma_lookup_update(pairs.drop_first(), i - 1, v, k);
        assert(updated.drop_first() =~= pairs.drop_first().update(
            i - 1,
            (pairs.drop_first()[i - 1].0, v),
        ));
    }
}

proof fn lemma_lookup_push<V>(pairs: Seq<(String, V)>, name: String, v: V, k: Seq<char>)
    requires
        forall|j: int| 0 <= j < pairs.len() ==> (#[trigger] pairs[j]).0@ != name@,
    ensures
        lookup(pairs.push((name, v)), k) == if k == name@ {
            Some(v)
        } else {
            lookup(pairs, k)
        },
    decreases pairs.len(),
{
    if pairs.len() == 0 {
        assert(pairs.push((name, v))[0] == (name, v));
        assert(pairs.push((name, v)).drop_first().len() == 0);
        assert(lookup(pairs.push((name, v)).drop_first(), k) is None);
    } else {
        assert(pairs.push((name, v))[0] == pairs[0]);
        assert forall|j: int| 0 <= j < pairs.drop_first().len() implies (
        #[trigger] pairs.drop_first()[j]).0@ != name@ by {
            assert(pairs.drop_first()[j] == pairs[j + 1]);
        }
        lemma_lookup_push(pairs.drop_first(), name, v, k);
        assert(pairs.push((name, v)).drop_first() =~= pairs.drop_first().push((name, v)));
    }
}

/// A table from names to what is set for them.
#[derive(Debug)]
pub struct Table<V> {
    pairs: Vec<(String, V)>,
}

impl<V> Table<V> {
    /// What the table holds for `k`, if anything.
    pub closed spec fn entry(&self, k: Seq<char>) -> Option<V> {
        lookup(self.pairs@, k)
    }

    /// Whether the table holds nothing for any name.
    pub closed spec fn holds_nothing(&self) -> bool {
        self.pairs@.len() == 0
    }

    /// A table holding nothing.
    pub fn new() -> (r: Self)
        ensures
            forall|k: Seq<char>| #[trigger] r.entry(k) is None,
            r.holds_nothing(),
    {
        Table { pairs: Vec::new() }
    }

    fn position(&self, k: &str) -> (r: Option<usize>)
        ensures
            r matches Some(i) ==> i < self.pairs@.len() && self.pairs@[i as int].0@ == k@
                && forall|j: int| 0 <= j < i ==> (#[trigger] self.pairs@[j]).0@ != k@,
            r is None ==> forall|j: int| 0 <= j < self.pairs@.len() ==> (
            #[trigger] self.pairs@[j]).0@ != k@,
    {
        let key = chars_of(k);
        let mut i: usize = 0;
        while i < self.pairs.len()
            invariant
                i <= self.pairs@.len(),
                key@ == k@,
                forall|j: int| 0 <= j < i ==> (#[trigger] self.pairs@[j]).0@ != k@,
            decreases self.pairs@.len() - i,
        {
            let name = chars_of(self.pairs[i].0.as_str());
            if same(&name, &key) {
                return Some(i);
            }
            i = i + 1;
        }
        None
    }

    /// What the table holds for `k`, if anything.
    pub fn get(&self, k: &str) -> (r: Option<&V>)
        ensures
            match r {
                Some(v) => self.entry(k@) == Some(*v),
                None => self.entry(k@) is None,
            },
    {
        match self.position(k) {
            Some(i) => {
                proof {
                    lemma_lookup_at(self.pairs@, k@, i as int);
                }
                Some(&self.pairs[i].1)
            },
            None => {
                proof {
                    lemma_lookup_none(self.pairs@, k@);
                }
                None
            },
        }
    }

    /// Whether the table holds nothing for any name.
    pub fn is_empty(&self) -> (r: bool)
        ensures
            r == self.holds_nothing(),
            r ==> forall|k: Seq<char>| #[trigger] self.entry(k) is None,
    {
        self.pairs.len() == 0
    }

    /// Set what the table holds for `k`, leaving every other name as it was.
    pub fn insert(&mut self, k: String, v: V)
        ensures
            final(self).entry(k@) == Some(v),
            forall|other: Seq<char>| other != k@ ==> #[trigger] final(self).entry(other) == old(
                self,
            ).entry(other),
            !final(self).holds_nothing(),
    {
        match self.position(k.as_str()) {
            Some(i) => {
                proof {
                    assert forall|other: Seq<char>| #![all_triggers]
                        lookup(self.pairs@.update(i as int, (self.pairs@[i as int].0, v)), other)
                            == if other == self.pairs@[i as int].0@ {
                            Some(v)
                        } else {
                            lookup(self.pairs@, other)
                        } by {
                        lemma_lookup_update(self.pairs@, i as int, v, other);
                    }
                }
                let ghost before = self.pairs@;
                let (name, _) = self.pairs.remove(i);
                self.pairs.insert(i, (name, v));
                assert(self.pairs@ =~= before.update(i as int, (before[i as int].0, v)));
            },
            None => {
                proof {
                    assert forall|other: Seq<char>| #![all_triggers]
                        lookup(self.pairs@.push((k, v)), other) == if other == k@ {
                            Some(v)
                        } else {
                            lookup(self.pairs@, other)
                        } by {
                        lemma_lookup_push(self.pairs@, k, v, other);
                    }
                }
                self.pairs.push((k, v));
            },
        }
    }
}

} // verus!

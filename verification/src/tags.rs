//! The tags of a map element.

use crate::text::same_text;
use vstd::prelude::*;

verus! {

/// Keys with their values, each key once.
#[derive(Debug)]
pub struct Tags {
    entries: Vec<(String, String)>,
}

/// Whether `key` stands at `i`.
spec fn key_at(entries: Seq<(String, String)>, i: int, key: Seq<char>) -> bool {
    0 <= i < entries.len() && entries[i].0@ == key
}

impl View for Tags {
    type V = Map<Seq<char>, Seq<char>>;

    closed spec fn view(&self) -> Map<Seq<char>, Seq<char>> {
        Map::new(
            |key: Seq<char>| exists|i: int| key_at(self.entries@, i, key),
            |key: Seq<char>| self.entries@[choose|i: int| key_at(self.entries@, i, key)].1@,
        )
    }
}

impl Tags {
    /// No key stands twice.
    pub closed spec fn wf(self) -> bool {
        forall|i: int, j: int|
            0 <= i < self.entries@.len() && 0 <= j < self.entries@.len() && #[trigger]
            self.entries@[i].0@ == #[trigger] self.entries@[j].0@ ==> i == j
    }

    proof fn lemma_at(self, i: int)
        requires
            self.wf(),
            0 <= i < self.entries@.len(),
        ensures
            self@.contains_key(self.entries@[i].0@),
            self@[self.entries@[i].0@] == self.entries@[i].1@,
    {
        let key = self.entries@[i].0@;
        assert(key_at(self.entries@, i, key));
        let k = choose|k: int| key_at(self.entries@, k, key);
        assert(self.entries@[i].0@ == self.entries@[k].0@);
    }

    /// No tags.
    pub fn new() -> (r: Tags)
        ensures
            r.wf(),
            r@ == Map::<Seq<char>, Seq<char>>::empty(),
    {
        let r = Tags { entries: Vec::new() };
        proof {
            assert(r@ =~= Map::<Seq<char>, Seq<char>>::empty());
        }
        r
    }

    /// Sets the value of a key, in place of the one it had.
    pub fn insert(&mut self, key: String, value: String)
        requires
            old(self).wf(),
        ensures
            final(self).wf(),
            final(self)@ == old(self)@.insert(key@, value@),
    {
        let ghost before = *self;
        let ghost k = key@;
        let mut i: usize = 0;
        while i < self.entries.len()
            invariant
                i <= self.entries.len(),
                *self == before,
                before.wf(),
                k == key@,
                before == *old(self),
                forall|j: int| 0 <= j < i ==> (#[trigger] self.entries@[j]).0@ != k,
            decreases self.entries.len() - i,
        {
            if same_text(self.entries[i].0.as_str(), key.as_str()) {
                let ghost v = value@;
                self.entries.set(i, (key, value));
                proof {
                    assert(self.entries@[i as int].0@ == k);
                    Tags::lemma_replaced(before, *self, i as int, v);
                }
                return;
            }
            i += 1;
        }
        self.entries.push((key, value));
        proof {
            assert(self.entries@.drop_last() =~= before.entries@);
            Tags::lemma_pushed(before, *self);
        }
    }

    proof fn lemma_replaced(before: Tags, after: Tags, i: int, v: Seq<char>)
        requires
            before.wf(),
            0 <= i < before.entries@.len(),
            after.entries@.len() == before.entries@.len(),
            after.entries@[i].0@ == before.entries@[i].0@,
            after.entries@[i].1@ == v,
            forall|j: int|
                0 <= j < before.entries@.len() && j != i ==> #[trigger] after.entries@[j]
                    == before.entries@[j],
        ensures
            after.wf(),
            after@ == before@.insert(before.entries@[i].0@, v),
    {
        assert(after.wf()) by {
            assert forall|a: int, b: int|
                0 <= a < after.entries@.len() && 0 <= b < after.entries@.len() && #[trigger]
                after.entries@[a].0@ == #[trigger] after.entries@[b].0@ implies a == b by {
                assert(before.entries@[a].0@ == before.entries@[b].0@);
            }
        }
        let key = before.entries@[i].0@;
        let expected = before@.insert(key, v);
        assert forall|x: Seq<char>| #[trigger] after@.contains_key(x) == expected.contains_key(x) by {
            if after@.contains_key(x) {
                let j = choose|j: int| key_at(after.entries@, j, x);
                assert(key_at(before.entries@, j, x));
            }
            if expected.contains_key(x) {
                if x == key {
                    assert(key_at(after.entries@, i, x));
                } else {
                    let j = choose|j: int| key_at(before.entries@, j, x);
                    assert(key_at(after.entries@, j, x));
                }
            }
        }
        assert forall|x: Seq<char>| #[trigger] after@.contains_key(x) implies after@[x]
            == expected[x] by {
            let j = choose|j: int| key_at(after.entries@, j, x);
            after.lemma_at(j);
            before.lemma_at(j);
        }
        assert(after@ =~= expected);
    }

    proof fn lemma_pushed(before: Tags, after: Tags)
        requires
            before.wf(),
            after.entries@.len() == before.entries@.len() + 1,
            after.entries@.drop_last() == before.entries@,
            forall|j: int|
                0 <= j < before.entries@.len() ==> (#[trigger] before.entries@[j]).0@
                    != after.entries@.last().0@,
        ensures
            after.wf(),
            after@ == before@.insert(after.entries@.last().0@, after.entries@.last().1@),
    {
        let n = before.entries@.len() as int;
        let key = after.entries@.last().0@;
        let v = after.entries@.last().1@;
        assert forall|j: int| 0 <= j < n implies #[trigger] after.entries@[j]
            == before.entries@[j] by {
            assert(after.entries@.drop_last()[j] == after.entries@[j]);
        }
        assert(after.wf()) by {
            assert forall|a: int, b: int|
                0 <= a < after.entries@.len() && 0 <= b < after.entries@.len() && #[trigger]
                after.entries@[a].0@ == #[trigger] after.entries@[b].0@ implies a == b by {
                if a < n && b < n {
                    assert(before.entries@[a].0@ == before.entries@[b].0@);
                } else if a < n {
                    assert(before.entries@[a].0@ != key);
                } else if b < n {
                    assert(before.entries@[b].0@ != key);
                }
            }
        }
        let expected = before@.insert(key, v);
        assert forall|x: Seq<char>| #[trigger] after@.contains_key(x) == expected.contains_key(x) by {
            if after@.contains_key(x) {
                let j = choose|j: int| key_at(after.entries@, j, x);
                if j < n {
                    assert(key_at(before.entries@, j, x));
                }
            }
            if expected.contains_key(x) {
                if x == key {
                    assert(key_at(after.entries@, n, x));
                } else {
                    let j = choose|j: int| key_at(before.entries@, j, x);
                    assert(key_at(after.entries@, j, x));
                }
            }
        }
        assert forall|x: Seq<char>| #[trigger] after@.contains_key(x) implies after@[x]
            == expected[x] by {
            let j = choose|j: int| key_at(after.entries@, j, x);
            after.lemma_at(j);
            if j < n {
                before.lemma_at(j);
                assert(before.entries@[j].0@ != key);
            }
        }
        assert(after@ =~= expected);
    }

    /// The tags one by one, each as its key and its value.
    pub fn entries(&self) -> (r: &Vec<(String, String)>)
        requires
            self.wf(),
        ensures
            forall|i: int, j: int|
                0 <= i < r@.len() && 0 <= j < r@.len() && #[trigger] r@[i].0@ == #[trigger]
                r@[j].0@ ==> i == j,
            forall|i: int|
                0 <= i < r@.len() ==> self@.contains_key((#[trigger] r@[i]).0@)
                    && self@[r@[i].0@] == r@[i].1@,
            forall|key: Seq<char>| #[trigger]
                self@.contains_key(key) ==> exists|i: int|
                    0 <= i < r@.len() && (#[trigger] r@[i]).0@ == key,
    {
        proof {
            assert forall|i: int| 0 <= i < self.entries@.len() implies self@.contains_key(
                (#[trigger] self.entries@[i]).0@,
            ) && self@[self.entries@[i].0@] == self.entries@[i].1@ by {
                self.lemma_at(i);
            }
            assert forall|key: Seq<char>| #[trigger] self@.contains_key(key) implies exists|i: int|
                0 <= i < self.entries@.len() && (#[trigger] self.entries@[i]).0@ == key by {
                let i = choose|i: int| key_at(self.entries@, i, key);
                assert(self.entries@[i].0@ == key);
            }
        }
        &self.entries
    }
}

} // verus!

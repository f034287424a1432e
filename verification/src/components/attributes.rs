//! Attributes component: named numeric stats on an entity (health,
//! ammo, damage), kept as a small key/value store.

use crate::text::str_eq;
use vstd::prelude::*;
use vstd::string::StringExecFns;

verus! {

/// Named stats. Each value holds an IEEE-754 bit pattern; the store
/// never interprets them. Keys are unique.
#[derive(Debug, Clone, PartialEq)]
pub struct AttributesComponent {
    values: Vec<(String, u32)>,
}

impl View for AttributesComponent {
    type V = Seq<(String, u32)>;

    closed spec fn view(&self) -> Seq<(String, u32)> {
        self.values@
    }
}

/// Whether some entry of `s` carries `key`.
pub open spec fn has_key(s: Seq<(String, u32)>, key: Seq<char>) -> bool {
    exists|i: int| 0 <= i < s.len() && s[i].0@ == key
}

impl AttributesComponent {
    /// Keys are pairwise distinct, so each lookup has one answer.
    pub open spec fn wf(&self) -> bool {
        forall|i: int, j: int|
            0 <= i < j < self@.len() ==> self@[i].0@ != self@[j].0@
    }

    pub fn new() -> (r: Self)
        ensures
            r@ == Seq::<(String, u32)>::empty(),
            r.wf(),
    {
        AttributesComponent { values: Vec::new() }
    }

    /// Wraps an existing entry list. The list plays the role of a map,
    /// so its keys must already be unique.
    pub fn from_values(values: Vec<(String, u32)>) -> (r: Self)
        requires
            forall|i: int, j: int| 0 <= i < j < values@.len() ==> values@[i].0@ != values@[j].0@,
        ensures
            r@ == values@,
            r.wf(),
    {
        AttributesComponent { values }
    }

    /// Sets `key` to `value`, replacing the existing entry if one exists.
    pub fn set(&mut self, key: &str, value: u32)
        requires
            old(self).wf(),
        ensures
            final(self).wf(),
            has_key(final(self)@, key@),
            ({
                let s_old = old(self)@;
                let s_new = final(self)@;
                if has_key(s_old, key@) {
                    exists|i: int|
                        0 <= i < s_old.len() && s_old[i].0@ == key@ && s_new == s_old.update(
                            i,
                            (s_old[i].0, value),
                        )
                } else {
                    s_new.len() == s_old.len() + 1 && s_new.subrange(0, s_old.len() as int)
                        == s_old && s_new.last().0@ == key@ && s_new.last().1 == value
                }
            }),
    {
        let n = self.values.len();
        let mut i: usize = 0;
        while i < n
            invariant
                n == self@.len(),
                i <= n,
                self@ == old(self)@,
                old(self).wf(),
                forall|j: int| 0 <= j < i ==> self@[j].0@ != key@,
            decreases n - i,
        {
            if str_eq(self.values[i].0.as_str(), key) {
                let entry_key = self.values[i].0.clone();
                self.values[i] = (entry_key, value);
                proof {
                    assert(self@ =~= old(self)@.update(i as int, (old(self)@[i as int].0, value)));
                    assert forall|a: int, b: int|
                        0 <= a < b < self@.len() implies self@[a].0@ != self@[b].0@ by {
                        assert(self@[a].0@ == old(self)@[a].0@);
                        assert(self@[b].0@ == old(self)@[b].0@);
                    }
                }
                return ;
            }
            i += 1;
        }
        self.values.push((key.to_owned(), value));
        proof {
            assert(self@.subrange(0, old(self)@.len() as int) =~= old(self)@);
            assert(!has_key(old(self)@, key@));
            assert(self@[old(self)@.len() as int].0@ == key@);
            assert(has_key(self@, key@));
            assert forall|a: int, b: int|
                0 <= a < b < self@.len() implies self@[a].0@ != self@[b].0@ by {
                if b < self@.len() - 1 {
                    assert(self@[a] == old(self)@[a]);
                    assert(self@[b] == old(self)@[b]);
                } else {
                    assert(self@[a] == old(self)@[a]);
                    assert(self@[b].0@ == key@);
                }
            }
        }
    }

    /// Removes `key`'s entry, returning its value if one existed.
    pub fn remove(&mut self, key: &str) -> (r: Option<u32>)
        requires
            old(self).wf(),
        ensures
            final(self).wf(),
            !has_key(final(self)@, key@),
            match r {
                Some(v) => exists|i: int|
                    0 <= i < old(self)@.len() && old(self)@[i].0@ == key@ && old(self)@[i].1 == v
                        && final(self)@ == old(self)@.remove(i),
                None => !has_key(old(self)@, key@) && final(self)@ == old(self)@,
            },
            forall|k: Seq<char>|
                k != key@ ==> has_key(final(self)@, k) == has_key(old(self)@, k),
    {
        let n = self.values.len();
        let mut i: usize = 0;
        while i < n
            invariant
                n == self@.len(),
                i <= n,
                self@ == old(self)@,
                old(self).wf(),
                forall|j: int| 0 <= j < i ==> self@[j].0@ != key@,
            decreases n - i,
        {
            if str_eq(self.values[i].0.as_str(), key) {
                let value = self.values[i].1;
                self.values.remove(i);
                proof {
                    let s_old = old(self)@;
                    let idx = i as int;
                    assert forall|a: int, b: int|
                        0 <= a < b < self@.len() implies self@[a].0@ != self@[b].0@ by {
                        lemma_remove_pointwise(s_old, idx, a);
                        lemma_remove_pointwise(s_old, idx, b);
                    }
                    assert forall|j: int| 0 <= j < self@.len() implies self@[j].0@ != key@ by {
                        lemma_remove_pointwise(s_old, idx, j);
                    }
                    assert forall|k: Seq<char>| k != key@ implies has_key(self@, k) == has_key(
                        s_old,
                        k,
                    ) by {
                        if has_key(self@, k) {
                            let j = choose|j: int| 0 <= j < self@.len() && self@[j].0@ == k;
                            lemma_remove_pointwise(s_old, idx, j);
                        }
                        if has_key(s_old, k) {
                            let j = choose|j: int| 0 <= j < s_old.len() && s_old[j].0@ == k;
                            if j < idx {
                                assert(self@[j] == s_old[j]);
                            } else {
                                assert(self@[j - 1] == s_old[j]);
                            }
                        }
                    }
                }
                return Some(value);
            }
            i += 1;
        }
        None
    }

    /// The value stored under `key`, if any.
    pub fn get(&self, key: &str) -> (r: Option<u32>)
        requires
            self.wf(),
        ensures
            match r {
                Some(v) => exists|i: int|
                    0 <= i < self@.len() && self@[i].0@ == key@ && self@[i].1 == v,
                None => !has_key(self@, key@),
            },
    {
        let n = self.values.len();
        let mut i: usize = 0;
        while i < n
            invariant
                n == self@.len(),
                i <= n,
                forall|j: int| 0 <= j < i ==> self@[j].0@ != key@,
            decreases n - i,
        {
            if str_eq(self.values[i].0.as_str(), key) {
                return Some(self.values[i].1);
            }
            i += 1;
        }
        None
    }

    /// Whether an entry for `key` exists.
    pub fn contains(&self, key: &str) -> (r: bool)
        ensures
            r == has_key(self@, key@),
    {
        let n = self.values.len();
        let mut i: usize = 0;
        while i < n
            invariant
                n == self@.len(),
                i <= n,
                forall|j: int| 0 <= j < i ==> self@[j].0@ != key@,
            decreases n - i,
        {
            if str_eq(self.values[i].0.as_str(), key) {
                return true;
            }
            i += 1;
        }
        false
    }

    /// The whole entry list.
    pub fn values(&self) -> (r: &Vec<(String, u32)>)
        ensures
            r@ == self@,
    {
        &self.values
    }
}

impl Default for AttributesComponent {
    fn default() -> (r: Self)
        ensures
            r@ == Seq::<(String, u32)>::empty(),
            r.wf(),
    {
        AttributesComponent::new()
    }
}

/// Where each element of `s.remove(at)` comes from in `s`.
proof fn lemma_remove_pointwise(s: Seq<(String, u32)>, at: int, j: int)
    requires
        0 <= at < s.len(),
        0 <= j < s.len() - 1,
    ensures
        s.remove(at)[j] == if j < at {
            s[j]
        } else {
            s[j + 1]
        },
{
}

} // verus!

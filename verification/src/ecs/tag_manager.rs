//! Tag index: many-to-many membership between tag strings and entities.
//!
//! A tag exists exactly while it has members: removing the last member
//! deletes the tag's bucket, so no empty buckets accumulate. Buckets are
//! unordered; callers may rely on membership only.

use crate::text::str_eq;
use std::collections::HashSet;
use vstd::prelude::*;
use vstd::string::StringExecFns;

verus! {

broadcast use vstd::std_specs::hash::group_hash_axioms;

pub struct TagManager {
    /// One bucket per live tag, each holding the tagged entities.
    pub tag_to_entities: Vec<(String, HashSet<u32>)>,
}

impl TagManager {
    /// Tags are pairwise distinct, and no bucket is empty.
    pub open spec fn wf(self) -> bool {
        &&& forall|i: int, j: int|
            0 <= i < j < self.tag_to_entities@.len() ==> (#[trigger] self.tag_to_entities@[i]).0@
                != (#[trigger] self.tag_to_entities@[j]).0@
        &&& forall|i: int|
            0 <= i < self.tag_to_entities@.len() ==> !(#[trigger] self.tag_to_entities@[i]).1@
                .is_empty()
    }

    /// Whether any entity carries `tag`.
    pub open spec fn has_tag(self, tag: Seq<char>) -> bool {
        exists|i: int|
            0 <= i < self.tag_to_entities@.len() && (#[trigger] self.tag_to_entities@[i]).0@ == tag
    }

    /// The index of `tag`'s bucket (meaningful when `has_tag` holds).
    pub open spec fn tag_index(self, tag: Seq<char>) -> int {
        choose|i: int|
            0 <= i < self.tag_to_entities@.len() && (#[trigger] self.tag_to_entities@[i]).0@ == tag
    }

    /// The entities carrying `tag` (meaningful when `has_tag` holds).
    pub open spec fn entities_of(self, tag: Seq<char>) -> Set<u32> {
        self.tag_to_entities@[self.tag_index(tag)].1@
    }

    /// With distinct tags, any index holding `tag` is the chosen one.
    proof fn lemma_tag_index(self, tag: Seq<char>, i: int)
        requires
            self.wf(),
            0 <= i < self.tag_to_entities@.len(),
            self.tag_to_entities@[i].0@ == tag,
        ensures
            self.has_tag(tag),
            self.tag_index(tag) == i,
            self.entities_of(tag) == self.tag_to_entities@[i].1@,
    {
        assert(self.has_tag(tag));
        let j = self.tag_index(tag);
        if i < j {
            assert(self.tag_to_entities@[i].0@ != self.tag_to_entities@[j].0@);
        } else if j < i {
            assert(self.tag_to_entities@[j].0@ != self.tag_to_entities@[i].0@);
        }
    }

    pub fn new() -> (r: Self)
        ensures
            r.wf(),
            forall|tag: Seq<char>| !r.has_tag(tag),
    {
        TagManager { tag_to_entities: Vec::new() }
    }

    /// Tags `entity` with `tag`, creating the tag's bucket if it does
    /// not exist yet.
    pub fn add_tag(&mut self, entity: u32, tag: &str)
        requires
            old(self).wf(),
        ensures
            final(self).wf(),
            final(self).has_tag(tag@),
            final(self).entities_of(tag@) == if old(self).has_tag(tag@) {
                old(self).entities_of(tag@).insert(entity)
            } else {
                Set::<u32>::empty().insert(entity)
            },
            forall|t: Seq<char>|
                t != tag@ ==> final(self).has_tag(t) == old(self).has_tag(t),
            forall|t: Seq<char>|
                t != tag@ && old(self).has_tag(t) ==> final(self).entities_of(t) == old(
                    self,
                ).entities_of(t),
    {
        let ghost s_old = self.tag_to_entities@;
        let n = self.tag_to_entities.len();
        let mut i: usize = 0;
        while i < n
            invariant
                n == self.tag_to_entities@.len(),
                i <= n,
                *self == *old(self),
                old(self).wf(),
                forall|j: int| 0 <= j < i ==> (#[trigger] self.tag_to_entities@[j]).0@ != tag@,
            decreases n - i,
        {
            if str_eq(self.tag_to_entities[i].0.as_str(), tag) {
                let ghost s_old = self.tag_to_entities@;
                let (key, mut bucket) = self.tag_to_entities.remove(i);
                bucket.insert(entity);
                self.tag_to_entities.insert(i, (key, bucket));
                proof {
                    let s_new = self.tag_to_entities@;
                    assert(s_new =~= s_old.update(i as int, (key, bucket)));
                    old(self).lemma_tag_index(tag@, i as int);
                    assert(!bucket@.is_empty()) by {
                        assert(bucket@.contains(entity));
                    }
                    assert(final(self).wf()) by {
                        assert forall|a: int, b: int|
                            0 <= a < b < s_new.len() implies s_new[a].0@ != s_new[b].0@ by {
                            assert(s_new[a].0@ == s_old[a].0@);
                            assert(s_new[b].0@ == s_old[b].0@);
                        }
                    }
                    final(self).lemma_tag_index(tag@, i as int);
                    assert forall|t: Seq<char>|
                        t != tag@ implies final(self).has_tag(t) == old(self).has_tag(t) by {
                        lemma_same_tags_pointwise(s_old, s_new, t);
                    }
                    assert forall|t: Seq<char>|
                        t != tag@ && old(self).has_tag(t) implies final(self).entities_of(t) == old(
                        self,
                    ).entities_of(t) by {
                        let j = old(self).tag_index(t);
                        old(self).lemma_tag_index(t, j);
                        assert(s_new[j].0@ == t && s_new[j].1 == s_old[j].1);
                        final(self).lemma_tag_index(t, j);
                    }
                }
                return ;
            }
            i += 1;
        }
        let mut bucket = HashSet::new();
        bucket.insert(entity);
        self.tag_to_entities.push((tag.to_owned(), bucket));
        proof {
            let s_new = self.tag_to_entities@;
            assert(!old(self).has_tag(tag@));
            assert(s_new.last().0@ == tag@);
            assert(final(self).wf()) by {
                assert forall|a: int, b: int|
                    0 <= a < b < s_new.len() implies s_new[a].0@ != s_new[b].0@ by {
                    if b < s_new.len() - 1 {
                        assert(s_new[a] == s_old[a] && s_new[b] == s_old[b]);
                    } else {
                        assert(s_new[a] == s_old[a]);
                    }
                }
                assert forall|a: int| 0 <= a < s_new.len() implies !s_new[a].1@.is_empty() by {
                    if a < s_new.len() - 1 {
                        assert(s_new[a] == s_old[a]);
                    } else {
                        assert(s_new[a].1@.contains(entity));
                    }
                }
            }
            final(self).lemma_tag_index(tag@, s_old.len() as int);
            assert(final(self).entities_of(tag@) =~= Set::<u32>::empty().insert(entity));
            assert forall|t: Seq<char>|
                t != tag@ implies final(self).has_tag(t) == old(self).has_tag(t) by {
                if final(self).has_tag(t) {
                    let j = final(self).tag_index(t);
                    final(self).lemma_tag_index(t, j);
                    assert(j < s_old.len());
                    assert(s_old[j].0@ == t);
                }
                if old(self).has_tag(t) {
                    let j = old(self).tag_index(t);
                    old(self).lemma_tag_index(t, j);
                    assert(s_new[j].0@ == t);
                }
            }
            assert forall|t: Seq<char>|
                t != tag@ && old(self).has_tag(t) implies final(self).entities_of(t) == old(
                self,
            ).entities_of(t) by {
                let j = old(self).tag_index(t);
                old(self).lemma_tag_index(t, j);
                assert(s_new[j] == s_old[j]);
                final(self).lemma_tag_index(t, j);
            }
        }
    }

    /// Removes `entity` from `tag`'s bucket. Removing the last member
    /// deletes the bucket; removing from an unknown tag is a no-op.
    pub fn remove_tag(&mut self, entity: u32, tag: &str)
        requires
            old(self).wf(),
        ensures
            final(self).wf(),
            old(self).has_tag(tag@) ==> {
                let remaining = old(self).entities_of(tag@).remove(entity);
                if remaining =~= Set::<u32>::empty() {
                    !final(self).has_tag(tag@)
                } else {
                    final(self).has_tag(tag@) && final(self).entities_of(tag@) == remaining
                }
            },
            !old(self).has_tag(tag@) ==> !final(self).has_tag(tag@),
            forall|t: Seq<char>|
                t != tag@ ==> final(self).has_tag(t) == old(self).has_tag(t),
            forall|t: Seq<char>|
                t != tag@ && old(self).has_tag(t) ==> final(self).entities_of(t) == old(
                    self,
                ).entities_of(t),
    {
        let ghost s_old = self.tag_to_entities@;
        let n = self.tag_to_entities.len();
        let mut i: usize = 0;
        while i < n
            invariant
                n == self.tag_to_entities@.len(),
                i <= n,
                *self == *old(self),
                old(self).wf(),
                forall|j: int| 0 <= j < i ==> (#[trigger] self.tag_to_entities@[j]).0@ != tag@,
            decreases n - i,
        {
            if str_eq(self.tag_to_entities[i].0.as_str(), tag) {
                let ghost s_old = self.tag_to_entities@;
                let (key, mut bucket) = self.tag_to_entities.remove(i);
                bucket.remove(&entity);
                proof {
                    old(self).lemma_tag_index(tag@, i as int);
                    assert(bucket@ == s_old[i as int].1@.remove(entity));
                }
                if !bucket.is_empty() {
                    self.tag_to_entities.insert(i, (key, bucket));
                    proof {
                        let s_new = self.tag_to_entities@;
                        assert(s_new =~= s_old.update(i as int, (key, bucket)));
                        assert(final(self).wf()) by {
                            assert forall|a: int, b: int|
                                0 <= a < b < s_new.len() implies s_new[a].0@ != s_new[b].0@ by {
                                assert(s_new[a].0@ == s_old[a].0@);
                                assert(s_new[b].0@ == s_old[b].0@);
                            }
                        }
                        final(self).lemma_tag_index(tag@, i as int);
                        assert forall|t: Seq<char>|
                            t != tag@ implies final(self).has_tag(t) == old(self).has_tag(t) by {
                            lemma_same_tags_pointwise(s_old, s_new, t);
                        }
                        assert forall|t: Seq<char>|
                            t != tag@ && old(self).has_tag(t) implies final(self).entities_of(t)
                            == old(self).entities_of(t) by {
                            let j = old(self).tag_index(t);
                            old(self).lemma_tag_index(t, j);
                            assert(s_new[j].0@ == t && s_new[j].1 == s_old[j].1);
                            final(self).lemma_tag_index(t, j);
                        }
                    }
                } else {
                    proof {
                        let s_new = self.tag_to_entities@;
                        assert(s_new =~= s_old.remove(i as int));
                        assert(final(self).wf()) by {
                            assert forall|a: int, b: int|
                                0 <= a < b < s_new.len() implies s_new[a].0@ != s_new[b].0@ by {
                                lemma_tuple_remove_pointwise(s_old, i as int, a);
                                lemma_tuple_remove_pointwise(s_old, i as int, b);
                            }
                            assert forall|a: int|
                                0 <= a < s_new.len() implies !s_new[a].1@.is_empty() by {
                                lemma_tuple_remove_pointwise(s_old, i as int, a);
                            }
                        }
                        assert(!final(self).has_tag(tag@)) by {
                            if final(self).has_tag(tag@) {
                                let j = final(self).tag_index(tag@);
                                lemma_tuple_remove_pointwise(s_old, i as int, j);
                                if j < i {
                                    assert(s_old[j].0@ == tag@);
                                } else {
                                    assert(s_old[j + 1].0@ == tag@);
                                    old(self).lemma_tag_index(tag@, j + 1);
                                }
                            }
                        }
                        assert forall|t: Seq<char>|
                            t != tag@ implies final(self).has_tag(t) == old(self).has_tag(t) by {
                            if final(self).has_tag(t) {
                                let j = final(self).tag_index(t);
                                final(self).lemma_tag_index(t, j);
                                lemma_tuple_remove_pointwise(s_old, i as int, j);
                                if j < i {
                                    old(self).lemma_tag_index(t, j);
                                } else {
                                    old(self).lemma_tag_index(t, j + 1);
                                }
                            }
                            if old(self).has_tag(t) {
                                let j = old(self).tag_index(t);
                                old(self).lemma_tag_index(t, j);
                                if j < i {
                                    lemma_tuple_remove_pointwise(s_old, i as int, j);
                                    final(self).lemma_tag_index(t, j);
                                } else {
                                    assert(j > i);
                                    lemma_tuple_remove_pointwise(s_old, i as int, j - 1);
                                    final(self).lemma_tag_index(t, j - 1);
                                }
                            }
                        }
                        assert forall|t: Seq<char>|
                            t != tag@ && old(self).has_tag(t) implies final(self).entities_of(t)
                            == old(self).entities_of(t) by {
                            let j = old(self).tag_index(t);
                            old(self).lemma_tag_index(t, j);
                            if j < i {
                                lemma_tuple_remove_pointwise(s_old, i as int, j);
                                final(self).lemma_tag_index(t, j);
                            } else {
                                assert(j > i);
                                lemma_tuple_remove_pointwise(s_old, i as int, j - 1);
                                final(self).lemma_tag_index(t, j - 1);
                            }
                        }
                    }
                }
                return ;
            }
            i += 1;
        }
    }

    /// The bucket of entities carrying `tag`, if the tag is live.
    pub fn get_entities_with_tag(&self, tag: &str) -> (r: Option<&HashSet<u32>>)
        requires
            self.wf(),
        ensures
            match r {
                Some(bucket) => self.has_tag(tag@) && bucket@ == self.entities_of(tag@)
                    && !bucket@.is_empty(),
                None => !self.has_tag(tag@),
            },
    {
        let n = self.tag_to_entities.len();
        let mut i: usize = 0;
        while i < n
            invariant
                n == self.tag_to_entities@.len(),
                i <= n,
                self.wf(),
                forall|j: int| 0 <= j < i ==> (#[trigger] self.tag_to_entities@[j]).0@ != tag@,
            decreases n - i,
        {
            if str_eq(self.tag_to_entities[i].0.as_str(), tag) {
                proof {
                    self.lemma_tag_index(tag@, i as int);
                }
                return Some(&self.tag_to_entities[i].1);
            }
            i += 1;
        }
        None
    }

    /// Every tag that `entity` carries, by scanning all buckets.
    pub fn tags_for_entity(&self, entity: u32) -> (r: Vec<String>)
        requires
            self.wf(),
        ensures
            forall|j: int|
                0 <= j < r@.len() ==> self.has_tag((#[trigger] r@[j])@) && self.entities_of(
                    r@[j]@,
                ).contains(entity),
            forall|i: int|
                0 <= i < self.tag_to_entities@.len() && (#[trigger] self.tag_to_entities@[i]).1@
                    .contains(entity) ==> exists|j: int|
                    0 <= j < r@.len() && (#[trigger] r@[j])@ == self.tag_to_entities@[i].0@,
            forall|j1: int, j2: int|
                0 <= j1 < j2 < r@.len() ==> (#[trigger] r@[j1])@ != (#[trigger] r@[j2])@,
    {
        let mut out: Vec<String> = Vec::new();
        let n = self.tag_to_entities.len();
        let mut i: usize = 0;
        while i < n
            invariant
                n == self.tag_to_entities@.len(),
                i <= n,
                self.wf(),
                forall|j: int|
                    0 <= j < out@.len() ==> self.has_tag((#[trigger] out@[j])@) && self.entities_of(
                        out@[j]@,
                    ).contains(entity),
                forall|k: int|
                    0 <= k < i && (#[trigger] self.tag_to_entities@[k]).1@.contains(entity)
                        ==> exists|j: int|
                        0 <= j < out@.len() && (#[trigger] out@[j])@ == self.tag_to_entities@[k].0@,
                forall|j: int|
                    0 <= j < out@.len() ==> exists|idx: int|
                        0 <= idx < i && (#[trigger] out@[j])@ == self.tag_to_entities@[idx].0@,
                forall|j1: int, j2: int|
                    0 <= j1 < j2 < out@.len() ==> (#[trigger] out@[j1])@ != (#[trigger] out@[j2])@,
            decreases n - i,
        {
            if self.tag_to_entities[i].1.contains(&entity) {
                let ghost prev = out@;
                out.push(self.tag_to_entities[i].0.clone());
                proof {
                    self.lemma_tag_index(self.tag_to_entities@[i as int].0@, i as int);
                    assert(out@[prev.len() as int]@ == self.tag_to_entities@[i as int].0@);
                    assert forall|j: int|
                        0 <= j < out@.len() implies exists|idx: int|
                            0 <= idx < i + 1 && (#[trigger] out@[j])@
                                == self.tag_to_entities@[idx].0@ by {
                        if j < prev.len() {
                            assert(out@[j] == prev[j]);
                            let idx = choose|idx: int|
                                0 <= idx < i && (#[trigger] prev[j])@
                                    == self.tag_to_entities@[idx].0@;
                            assert(out@[j]@ == self.tag_to_entities@[idx].0@);
                        } else {
                            assert(out@[j]@ == self.tag_to_entities@[i as int].0@);
                        }
                    }
                    assert forall|j1: int, j2: int|
                        0 <= j1 < j2 < out@.len() implies (#[trigger] out@[j1])@ != (
                        #[trigger] out@[j2])@ by {
                        if j2 == prev.len() {
                            assert(out@[j1] == prev[j1]);
                            let idx = choose|idx: int|
                                0 <= idx < i && (#[trigger] prev[j1])@
                                    == self.tag_to_entities@[idx].0@;
                            assert(out@[j2]@ == self.tag_to_entities@[i as int].0@);
                            assert(self.tag_to_entities@[idx].0@
                                != self.tag_to_entities@[i as int].0@);
                        } else {
                            assert(out@[j1] == prev[j1] && out@[j2] == prev[j2]);
                        }
                    }
                    assert forall|k: int|
                        0 <= k < i + 1 && (#[trigger] self.tag_to_entities@[k]).1@.contains(entity)
                            implies exists|j: int|
                            0 <= j < out@.len() && (#[trigger] out@[j])@
                                == self.tag_to_entities@[k].0@ by {
                        if k < i {
                            let j = choose|j: int|
                                0 <= j < prev.len() && (#[trigger] prev[j])@
                                    == self.tag_to_entities@[k].0@;
                            assert(out@[j]@ == self.tag_to_entities@[k].0@);
                        }
                    }
                }
            }
            i += 1;
        }
        out
    }
}

/// Two entry lists with pointwise-equal tags name the same tags.
proof fn lemma_same_tags_pointwise(
    s_old: Seq<(String, HashSet<u32>)>,
    s_new: Seq<(String, HashSet<u32>)>,
    t: Seq<char>,
)
    requires
        s_old.len() == s_new.len(),
        forall|i: int| 0 <= i < s_old.len() ==> (#[trigger] s_old[i]).0@ == s_new[i].0@,
    ensures
        (exists|i: int| 0 <= i < s_old.len() && (#[trigger] s_old[i]).0@ == t) == (exists|i: int|
            0 <= i < s_new.len() && (#[trigger] s_new[i]).0@ == t),
{
    if exists|i: int| 0 <= i < s_old.len() && (#[trigger] s_old[i]).0@ == t {
        let i = choose|i: int| 0 <= i < s_old.len() && (#[trigger] s_old[i]).0@ == t;
        assert(s_new[i].0@ == t);
    }
    if exists|i: int| 0 <= i < s_new.len() && (#[trigger] s_new[i]).0@ == t {
        let i = choose|i: int| 0 <= i < s_new.len() && (#[trigger] s_new[i]).0@ == t;
        assert(s_old[i].0@ == t);
    }
}

/// Where each element of `s.remove(at)` comes from in `s`.
proof fn lemma_tuple_remove_pointwise(s: Seq<(String, HashSet<u32>)>, at: int, j: int)
    requires
        0 <= at < s.len(),
        0 <= j < s.len() - 1,
    ensures
        s.remove(at)[j] == if j < at {
            s[j]
        } else {
            s[j + 1]
        },
{
}

} // verus!

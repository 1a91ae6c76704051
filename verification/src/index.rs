//! The secondary indices: ordered sequences of event identifiers keyed by
//! a bucket key.
//!
//! Each index maps its bucket key to the identifiers of the matching
//! events in write order, append-only.  A bucket is created lazily on the
//! first event for its key, and carries the point in time to which its
//! liveness was last renewed.

use vstd::prelude::*;
use crate::bytes::{copy_bytes, string_eq};
use crate::kv::{as_map, distinct_keys, lemma_as_map_contains, lemma_as_map_index,
    lemma_as_map_push, lemma_as_map_update};

verus! {

/// An ordered sequence of event identifiers under one bucket key,
/// together with the horizon its liveness was renewed to.
pub struct Bucket {
    pub ids: Vec<Vec<u8>>,
    pub live_until: u64,
}

/// The identifier sequence held by a list of identifiers.
pub open spec fn ids_view(v: Vec<Vec<u8>>) -> Seq<Seq<u8>> {
    v@.map(|i: int, x: Vec<u8>| x@)
}

/// The identifier sequence of a bucket key, or empty when the bucket does
/// not exist yet.
pub open spec fn bucket_or<K>(m: Map<K, Seq<Seq<u8>>>, k: K) -> Seq<Seq<u8>> {
    if m.dom().contains(k) {
        m[k]
    } else {
        Seq::empty()
    }
}

/// Copies a list of identifiers.
fn copy_id_list(v: &Vec<Vec<u8>>) -> (r: Vec<Vec<u8>>)
    ensures
        ids_view(r) == ids_view(*v),
{
    let mut r: Vec<Vec<u8>> = Vec::new();
    let mut i: usize = 0;
    while i < v.len()
        invariant
            0 <= i <= v@.len(),
            r@.len() == i,
            forall|j: int| #![auto] 0 <= j < i ==> r@[j]@ == v@[j]@,
        decreases v@.len() - i,
    {
        r.push(copy_bytes(&v[i]));
        i += 1;
    }
    proof {
        assert forall|j: int| 0 <= j < r@.len()
            implies ids_view(r)[j] == ids_view(*v)[j] by {
            assert(r@[j]@ == v@[j]@);
        }
        assert(ids_view(r) =~= ids_view(*v));
    }
    r
}

/// An index keyed by an identity or entity string.
pub struct IdIndex {
    pub entries: Vec<(String, Bucket)>,
}

impl IdIndex {
    /// The buckets as key/identifier-sequence pairs.
    pub open spec fn pairs(self) -> Seq<(Seq<char>, Seq<Seq<u8>>)> {
        self.entries@.map(|i: int, e: (String, Bucket)| (e.0@, ids_view(e.1.ids)))
    }

    /// The liveness horizons as key/horizon pairs.
    pub open spec fn live_pairs(self) -> Seq<(Seq<char>, u64)> {
        self.entries@.map(|i: int, e: (String, Bucket)| (e.0@, e.1.live_until))
    }

    /// The index as a map from key to identifier sequence.
    pub open spec fn buckets(self) -> Map<Seq<char>, Seq<Seq<u8>>> {
        as_map(self.pairs())
    }

    /// The liveness horizon of each bucket.
    pub open spec fn live(self) -> Map<Seq<char>, u64> {
        as_map(self.live_pairs())
    }

    /// Each key holds at most one bucket.
    pub open spec fn wf(self) -> bool {
        distinct_keys(self.pairs())
    }

    /// An empty index.
    pub fn new() -> (r: Self)
        ensures
            r.wf(),
            r.buckets() == Map::<Seq<char>, Seq<Seq<u8>>>::empty(),
            r.live() == Map::<Seq<char>, u64>::empty(),
    {
        let r = IdIndex { entries: Vec::new() };
        proof {
            assert(r.pairs() =~= Seq::<(Seq<char>, Seq<Seq<u8>>)>::empty());
            assert(r.live_pairs() =~= Seq::<(Seq<char>, u64)>::empty());
        }
        r
    }

    /// Index of the bucket for a key, if any.
    fn find_index(&self, key: &String) -> (r: Option<usize>)
        ensures
            match r {
                Some(i) => i < self.entries@.len() && self.entries@[i as int].0@ == key@,
                None => forall|j: int| 0 <= j < self.entries@.len()
                    ==> self.entries@[j].0@ != key@,
            },
    {
        let mut i: usize = 0;
        while i < self.entries.len()
            invariant
                0 <= i <= self.entries@.len(),
                forall|j: int| 0 <= j < i ==> self.entries@[j].0@ != key@,
            decreases self.entries@.len() - i,
        {
            if string_eq(&self.entries[i].0, key) {
                return Some(i);
            }
            i += 1;
        }
        None
    }

    /// The bucket of a key; absent is not an error.
    pub fn get_bucket(&self, key: &String) -> (r: Option<&Bucket>)
        requires
            self.wf(),
        ensures
            match r {
                Some(b) => self.buckets().dom().contains(key@)
                    && ids_view(b.ids) == self.buckets()[key@],
                None => !self.buckets().dom().contains(key@),
            },
    {
        match self.find_index(key) {
            Some(i) => {
                proof {
                    assert(self.pairs()[i as int].0 == key@);
                    lemma_as_map_index(self.pairs(), i as int);
                }
                Some(&self.entries[i].1)
            }
            None => {
                proof {
                    assert forall|j: int| 0 <= j < self.pairs().len()
                        implies self.pairs()[j].0 != key@ by {
                        assert(self.entries@[j].0@ != key@);
                    }
                    lemma_as_map_contains(self.pairs(), key@);
                }
                None
            }
        }
    }

    /// Appends an identifier to the bucket of a key, creating the bucket
    /// on its first event, and renews the bucket's liveness.
    pub fn append(&mut self, key: String, id: Vec<u8>, live_until: u64)
        requires
            old(self).wf(),
        ensures
            final(self).wf(),
            final(self).buckets() == old(self).buckets().insert(
                key@,
                bucket_or(old(self).buckets(), key@).push(id@),
            ),
            final(self).live() == old(self).live().insert(key@, live_until),
    {
        let ghost k = key@;
        let ghost idv = id@;
        match self.find_index(&key) {
            Some(i) => {
                let mut new_ids = copy_id_list(&self.entries[i].1.ids);
                new_ids.push(id);
                proof {
                    assert(ids_view(new_ids) =~= ids_view(old(self).entries@[i as int].1.ids).push(idv));
                }
                self.entries[i] = (key, Bucket { ids: new_ids, live_until });
                proof {
                    let s = old(self).pairs();
                    let ls = old(self).live_pairs();
                    assert(s[i as int].0 == k);
                    lemma_as_map_index(s, i as int);
                    assert(bucket_or(old(self).buckets(), k) == s[i as int].1);
                    assert forall|j: int| 0 <= j < self.pairs().len()
                        implies self.pairs()[j] == s.update(i as int, (k, s[i as int].1.push(idv)))[j] by {
                        if j != i as int {
                            assert(self.entries@[j] == old(self).entries@[j]);
                        }
                    }
                    assert(self.pairs() =~= s.update(i as int, (k, s[i as int].1.push(idv))));
                    lemma_as_map_update(s, i as int, s[i as int].1.push(idv));
                    assert forall|j: int| 0 <= j < self.live_pairs().len()
                        implies self.live_pairs()[j] == ls.update(i as int, (k, live_until))[j] by {
                        if j != i as int {
                            assert(self.entries@[j] == old(self).entries@[j]);
                        }
                    }
                    assert(self.live_pairs() =~= ls.update(i as int, (k, live_until)));
                    assert(ls[i as int].0 == k);
                    assert forall|j: int| 0 <= j < ls.len() && j != i as int
                        implies ls[j].0 != ls[i as int].0 by {
                        assert(s[j].0 == old(self).entries@[j].0@);
                        assert(ls[j].0 == old(self).entries@[j].0@);
                        assert(s[j].0 != s[i as int].0);
                    }
                    lemma_as_map_update(ls, i as int, live_until);
                }
            }
            None => {
                let mut ids: Vec<Vec<u8>> = Vec::new();
                ids.push(id);
                proof {
                    assert(ids_view(ids) =~= Seq::<Seq<u8>>::empty().push(idv));
                }
                self.entries.push((key, Bucket { ids, live_until }));
                proof {
                    let s = old(self).pairs();
                    let ls = old(self).live_pairs();
                    assert forall|j: int| 0 <= j < s.len()
                        implies s[j].0 != k by {
                        assert(old(self).entries@[j].0@ != k);
                    }
                    lemma_as_map_contains(s, k);
                    assert(bucket_or(old(self).buckets(), k) =~= Seq::<Seq<u8>>::empty());
                    assert(self.pairs() =~= s.push((k, Seq::<Seq<u8>>::empty().push(idv))));
                    lemma_as_map_push(s, k, Seq::<Seq<u8>>::empty().push(idv));
                    assert(self.live_pairs() =~= ls.push((k, live_until)));
                    lemma_as_map_push(ls, k, live_until);
                }
            }
        }
    }
}

/// An index keyed by an event type together with a day bucket.
pub struct TypeDayIndex {
    pub entries: Vec<((String, u64), Bucket)>,
}

impl TypeDayIndex {
    /// The buckets as key/identifier-sequence pairs.
    pub open spec fn pairs(self) -> Seq<((Seq<char>, u64), Seq<Seq<u8>>)> {
        self.entries@.map(|i: int, e: ((String, u64), Bucket)| ((e.0.0@, e.0.1), ids_view(e.1.ids)))
    }

    /// The liveness horizons as key/horizon pairs.
    pub open spec fn live_pairs(self) -> Seq<((Seq<char>, u64), u64)> {
        self.entries@.map(|i: int, e: ((String, u64), Bucket)| ((e.0.0@, e.0.1), e.1.live_until))
    }

    /// The index as a map from key to identifier sequence.
    pub open spec fn buckets(self) -> Map<(Seq<char>, u64), Seq<Seq<u8>>> {
        as_map(self.pairs())
    }

    /// The liveness horizon of each bucket.
    pub open spec fn live(self) -> Map<(Seq<char>, u64), u64> {
        as_map(self.live_pairs())
    }

    /// Each key holds at most one bucket.
    pub open spec fn wf(self) -> bool {
        distinct_keys(self.pairs())
    }

    /// An empty index.
    pub fn new() -> (r: Self)
        ensures
            r.wf(),
            r.buckets() == Map::<(Seq<char>, u64), Seq<Seq<u8>>>::empty(),
            r.live() == Map::<(Seq<char>, u64), u64>::empty(),
    {
        let r = TypeDayIndex { entries: Vec::new() };
        proof {
            assert(r.pairs() =~= Seq::<((Seq<char>, u64), Seq<Seq<u8>>)>::empty());
            assert(r.live_pairs() =~= Seq::<((Seq<char>, u64), u64)>::empty());
        }
        r
    }

    /// Index of the bucket for a key, if any.
    fn find_index(&self, event_type: &String, day: u64) -> (r: Option<usize>)
        ensures
            match r {
                Some(i) => i < self.entries@.len()
                    && self.entries@[i as int].0.0@ == event_type@
                    && self.entries@[i as int].0.1 == day,
                None => forall|j: int| 0 <= j < self.entries@.len()
                    ==> !(self.entries@[j].0.0@ == event_type@ && self.entries@[j].0.1 == day),
            },
    {
        let mut i: usize = 0;
        while i < self.entries.len()
            invariant
                0 <= i <= self.entries@.len(),
                forall|j: int| 0 <= j < i
                    ==> !(self.entries@[j].0.0@ == event_type@ && self.entries@[j].0.1 == day),
            decreases self.entries@.len() - i,
        {
            if self.entries[i].0.1 == day && string_eq(&self.entries[i].0.0, event_type) {
                return Some(i);
            }
            i += 1;
        }
        None
    }

    /// The bucket of a key; absent is not an error.
    pub fn get_bucket(&self, event_type: &String, day: u64) -> (r: Option<&Bucket>)
        requires
            self.wf(),
        ensures
            match r {
                Some(b) => self.buckets().dom().contains((event_type@, day))
                    && ids_view(b.ids) == self.buckets()[(event_type@, day)],
                None => !self.buckets().dom().contains((event_type@, day)),
            },
    {
        match self.find_index(event_type, day) {
            Some(i) => {
                proof {
                    assert(self.pairs()[i as int].0 == (event_type@, day));
                    lemma_as_map_index(self.pairs(), i as int);
                }
                Some(&self.entries[i].1)
            }
            None => {
                proof {
                    assert forall|j: int| 0 <= j < self.pairs().len()
                        implies self.pairs()[j].0 != (event_type@, day) by {
                        assert(!(self.entries@[j].0.0@ == event_type@
                            && self.entries@[j].0.1 == day));
                    }
                    lemma_as_map_contains(self.pairs(), (event_type@, day));
                }
                None
            }
        }
    }

    /// Appends an identifier to the bucket of a key, creating the bucket
    /// on its first event, and renews the bucket's liveness.
    pub fn append(&mut self, event_type: String, day: u64, id: Vec<u8>, live_until: u64)
        requires
            old(self).wf(),
        ensures
            final(self).wf(),
            final(self).buckets() == old(self).buckets().insert(
                (event_type@, day),
                bucket_or(old(self).buckets(), (event_type@, day)).push(id@),
            ),
            final(self).live() == old(self).live().insert((event_type@, day), live_until),
    {
        let ghost k = (event_type@, day);
        let ghost idv = id@;
        match self.find_index(&event_type, day) {
            Some(i) => {
                let mut new_ids = copy_id_list(&self.entries[i].1.ids);
                new_ids.push(id);
                proof {
                    assert(ids_view(new_ids) =~= ids_view(old(self).entries@[i as int].1.ids).push(idv));
                }
                self.entries[i] = ((event_type, day), Bucket { ids: new_ids, live_until });
                proof {
                    let s = old(self).pairs();
                    let ls = old(self).live_pairs();
                    assert(s[i as int].0 == k);
                    lemma_as_map_index(s, i as int);
                    assert(bucket_or(old(self).buckets(), k) == s[i as int].1);
                    assert forall|j: int| 0 <= j < self.pairs().len()
                        implies self.pairs()[j] == s.update(i as int, (k, s[i as int].1.push(idv)))[j] by {
                        if j != i as int {
                            assert(self.entries@[j] == old(self).entries@[j]);
                        }
                    }
                    assert(self.pairs() =~= s.update(i as int, (k, s[i as int].1.push(idv))));
                    lemma_as_map_update(s, i as int, s[i as int].1.push(idv));
                    assert forall|j: int| 0 <= j < self.live_pairs().len()
                        implies self.live_pairs()[j] == ls.update(i as int, (k, live_until))[j] by {
                        if j != i as int {
                            assert(self.entries@[j] == old(self).entries@[j]);
                        }
                    }
                    assert(self.live_pairs() =~= ls.update(i as int, (k, live_until)));
                    assert(ls[i as int].0 == k);
                    assert forall|j: int| 0 <= j < ls.len() && j != i as int
                        implies ls[j].0 != ls[i as int].0 by {
                        assert(s[j].0 == (old(self).entries@[j].0.0@, old(self).entries@[j].0.1));
                        assert(ls[j].0 == (old(self).entries@[j].0.0@, old(self).entries@[j].0.1));
                        assert(s[j].0 != s[i as int].0);
                    }
                    lemma_as_map_update(ls, i as int, live_until);
                }
            }
            None => {
                let mut ids: Vec<Vec<u8>> = Vec::new();
                ids.push(id);
                proof {
                    assert(ids_view(ids) =~= Seq::<Seq<u8>>::empty().push(idv));
                }
                self.entries.push(((event_type, day), Bucket { ids, live_until }));
                proof {
                    let s = old(self).pairs();
                    let ls = old(self).live_pairs();
                    assert forall|j: int| 0 <= j < s.len()
                        implies s[j].0 != k by {
                        assert(!(old(self).entries@[j].0.0@ == k.0
                            && old(self).entries@[j].0.1 == k.1));
                    }
                    lemma_as_map_contains(s, k);
                    assert(bucket_or(old(self).buckets(), k) =~= Seq::<Seq<u8>>::empty());
                    assert(self.pairs() =~= s.push((k, Seq::<Seq<u8>>::empty().push(idv))));
                    lemma_as_map_push(s, k, Seq::<Seq<u8>>::empty().push(idv));
                    assert(self.live_pairs() =~= ls.push((k, live_until)));
                    lemma_as_map_push(ls, k, live_until);
                }
            }
        }
    }
}

} // verus!

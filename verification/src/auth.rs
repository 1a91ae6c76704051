//! The authorization registry: the allow-list of writer identities.
//!
//! The administrator identity is set exactly once at initialization and is
//! immutable thereafter; only the administrator may insert or flip entries
//! of the allow-list.  Callers arrive already authenticated: the host
//! boundary proves that a caller owns the identity it claims before any
//! operation here runs.

use vstd::prelude::*;
use crate::Error;
use crate::bytes::string_eq;
use crate::kv::{as_map, distinct_keys, lemma_as_map_contains, lemma_as_map_index,
    lemma_as_map_push, lemma_as_map_update};

verus! {

/// The administrator identity and the allow-list of emitters.
pub struct AuthRegistry {
    pub admin: Option<String>,
    pub emitters: Vec<(String, bool)>,
}

impl AuthRegistry {
    /// The allow-list entries as key/flag pairs.
    pub open spec fn pairs(self) -> Seq<(Seq<char>, bool)> {
        self.emitters@.map(|i: int, e: (String, bool)| (e.0@, e.1))
    }

    /// The allow-list as a map from identity to flag.
    pub open spec fn emitters_map(self) -> Map<Seq<char>, bool> {
        as_map(self.pairs())
    }

    /// The administrator identity, if one has been set.
    pub open spec fn admin_id(self) -> Option<Seq<char>> {
        match self.admin {
            Some(a) => Some(a@),
            None => None,
        }
    }

    /// Each identity holds at most one allow-list entry.
    pub open spec fn wf(self) -> bool {
        distinct_keys(self.pairs())
    }

    /// An identity is authorized when its entry is present with the flag
    /// set; unknown identities default to not authorized.
    pub open spec fn authorized(self, e: Seq<char>) -> bool {
        self.emitters_map().dom().contains(e) && self.emitters_map()[e]
    }

    /// Whether the caller is the administrator.
    pub open spec fn is_admin(self, caller: Seq<char>) -> bool {
        self.admin_id() == Some(caller)
    }

    /// An empty registry: no administrator, no allow-list entries.
    pub fn new() -> (r: Self)
        ensures
            r.wf(),
            r.admin_id() is None,
            r.emitters_map() == Map::<Seq<char>, bool>::empty(),
    {
        let r = AuthRegistry { admin: None, emitters: Vec::new() };
        proof {
            assert(r.pairs() =~= Seq::<(Seq<char>, bool)>::empty());
        }
        r
    }

    /// Sets the immutable administrator identity and an empty allow-list;
    /// refused when an administrator is already set.
    pub fn initialize(&mut self, admin: String) -> (r: Result<(), Error>)
        requires
            old(self).wf(),
        ensures
            final(self).wf(),
            old(self).admin_id() is Some ==> r == Err::<(), Error>(Error::AlreadyInitialized)
                && *final(self) == *old(self),
            old(self).admin_id() is None ==> r == Ok::<(), Error>(())
                && final(self).admin_id() == Some(admin@)
                && final(self).emitters_map() == Map::<Seq<char>, bool>::empty(),
    {
        if self.admin.is_some() {
            return Err(Error::AlreadyInitialized);
        }
        self.admin = Some(admin);
        self.emitters = Vec::new();
        proof {
            assert(self.pairs() =~= Seq::<(Seq<char>, bool)>::empty());
        }
        Ok(())
    }

    /// Index of the entry for a key, if any.
    fn find_index(entries: &Vec<(String, bool)>, key: &String) -> (r: Option<usize>)
        ensures
            match r {
                Some(i) => i < entries@.len() && entries@[i as int].0@ == key@,
                None => forall|j: int| 0 <= j < entries@.len() ==> entries@[j].0@ != key@,
            },
    {
        let mut i: usize = 0;
        while i < entries.len()
            invariant
                0 <= i <= entries@.len(),
                forall|j: int| 0 <= j < i ==> entries@[j].0@ != key@,
            decreases entries@.len() - i,
        {
            if string_eq(&entries[i].0, key) {
                return Some(i);
            }
            i += 1;
        }
        None
    }

    /// Inserts or overwrites the flag of an emitter.
    fn set_flag(&mut self, emitter: String, flag: bool)
        requires
            old(self).wf(),
        ensures
            final(self).wf(),
            final(self).admin_id() == old(self).admin_id(),
            final(self).emitters_map() == old(self).emitters_map().insert(emitter@, flag),
    {
        match Self::find_index(&self.emitters, &emitter) {
            Some(i) => {
                self.emitters[i] = (emitter, flag);
                proof {
                    let s = old(self).pairs();
                    assert(self.emitters@ =~= old(self).emitters@.update(i as int, (emitter, flag)));
                    assert forall|j: int| 0 <= j < self.pairs().len()
                        implies self.pairs()[j] == s.update(i as int, (emitter@, flag))[j] by {
                        if j == i as int {
                            assert(self.pairs()[j] == (emitter@, flag));
                        } else {
                            assert(self.emitters@[j] == old(self).emitters@[j]);
                        }
                    }
                    assert(self.pairs() =~= s.update(i as int, (emitter@, flag)));
                    assert(s[i as int].0 == emitter@);
                    lemma_as_map_update(s, i as int, flag);
                }
            }
            None => {
                self.emitters.push((emitter, flag));
                proof {
                    let s = old(self).pairs();
                    assert(self.pairs() =~= s.push((emitter@, flag)));
                    lemma_as_map_push(s, emitter@, flag);
                }
            }
        }
    }

    /// Sets or clears an emitter's authorization; only the administrator
    /// may do so, and the operation is idempotent.
    pub fn set_authorization(&mut self, caller: &String, emitter: String, flag: bool)
        -> (r: Result<(), Error>)
        requires
            old(self).wf(),
        ensures
            final(self).wf(),
            !old(self).is_admin(caller@) ==> r == Err::<(), Error>(Error::NotAuthorized)
                && *final(self) == *old(self),
            old(self).is_admin(caller@) ==> r == Ok::<(), Error>(())
                && final(self).admin_id() == old(self).admin_id()
                && final(self).emitters_map() == old(self).emitters_map().insert(emitter@, flag),
    {
        let admin_matches = match &self.admin {
            Some(a) => string_eq(a, caller),
            None => false,
        };
        if !admin_matches {
            return Err(Error::NotAuthorized);
        }
        self.set_flag(emitter, flag);
        Ok(())
    }

    /// Whether an emitter is currently on the allow-list with its flag set.
    pub fn is_authorized(&self, emitter: &String) -> (r: bool)
        requires
            self.wf(),
        ensures
            r == self.authorized(emitter@),
    {
        match Self::find_index(&self.emitters, emitter) {
            Some(i) => {
                let f = self.emitters[i].1;
                proof {
                    lemma_as_map_index(self.pairs(), i as int);
                }
                f
            }
            None => {
                proof {
                    lemma_as_map_contains(self.pairs(), emitter@);
                }
                false
            }
        }
    }
}

} // verus!

//! The event store: immutable audit records keyed by identifier.
//!
//! Once an event is stored under an identifier, no field of it is ever
//! mutated and the record is never deleted; a second write under the same
//! identifier is refused.  Every record carries the point in time to which
//! its liveness has been renewed.

use vstd::prelude::*;
use crate::bytes::{bytes_eq, copy_bytes};
use crate::kv::{as_map, distinct_keys, lemma_as_map_contains, lemma_as_map_index,
    lemma_as_map_push};

verus! {

/// An immutable audit record.
pub struct AuditEvent {
    /// The derived identifier the record is stored under.
    pub event_id: Vec<u8>,
    /// Seconds since the epoch, assigned by the host clock at write time.
    pub timestamp: u64,
    /// Short tag naming the kind of occurrence.
    pub event_type: String,
    /// The authenticated identity that wrote the record.
    pub emitting_contract: String,
    /// The principal subject of the event.
    pub primary_entity_id: String,
    /// An optional second subject.
    pub secondary_entity_id: Option<String>,
    /// Free-form payload, opaque to the store.
    pub event_data: String,
    /// The origin transaction reference supplied by the caller.
    pub tx_hash: Vec<u8>,
}

/// The mathematical value of an audit record.
pub struct AuditEventView {
    pub event_id: Seq<u8>,
    pub timestamp: u64,
    pub event_type: Seq<char>,
    pub emitting_contract: Seq<char>,
    pub primary_entity_id: Seq<char>,
    pub secondary_entity_id: Option<Seq<char>>,
    pub event_data: Seq<char>,
    pub tx_hash: Seq<u8>,
}

impl View for AuditEvent {
    type V = AuditEventView;

    open spec fn view(&self) -> AuditEventView {
        AuditEventView {
            event_id: self.event_id@,
            timestamp: self.timestamp,
            event_type: self.event_type@,
            emitting_contract: self.emitting_contract@,
            primary_entity_id: self.primary_entity_id@,
            secondary_entity_id: match self.secondary_entity_id {
                Some(s) => Some(s@),
                None => None,
            },
            event_data: self.event_data@,
            tx_hash: self.tx_hash@,
        }
    }
}

impl AuditEvent {
    /// A field-for-field copy of the record.
    pub fn duplicate(&self) -> (r: AuditEvent)
        ensures
            r@ == self@,
    {
        AuditEvent {
            event_id: copy_bytes(&self.event_id),
            timestamp: self.timestamp,
            event_type: self.event_type.clone(),
            emitting_contract: self.emitting_contract.clone(),
            primary_entity_id: self.primary_entity_id.clone(),
            secondary_entity_id: match &self.secondary_entity_id {
                Some(s) => Some(s.clone()),
                None => None,
            },
            event_data: self.event_data.clone(),
            tx_hash: copy_bytes(&self.tx_hash),
        }
    }
}

/// A stored record together with the horizon its liveness was renewed to.
pub struct StoredEvent {
    pub event: AuditEvent,
    pub live_until: u64,
}

/// The append-only store of audit records.
pub struct EventStore {
    pub entries: Vec<StoredEvent>,
}

impl EventStore {
    /// The stored records as identifier/record pairs.
    pub open spec fn pairs(self) -> Seq<(Seq<u8>, AuditEventView)> {
        self.entries@.map(|i: int, se: StoredEvent| (se.event.event_id@, se.event@))
    }

    /// The liveness horizons as identifier/horizon pairs.
    pub open spec fn live_pairs(self) -> Seq<(Seq<u8>, u64)> {
        self.entries@.map(|i: int, se: StoredEvent| (se.event.event_id@, se.live_until))
    }

    /// The store as a map from identifier to record.
    pub open spec fn events(self) -> Map<Seq<u8>, AuditEventView> {
        as_map(self.pairs())
    }

    /// The liveness horizon of each stored record.
    pub open spec fn live(self) -> Map<Seq<u8>, u64> {
        as_map(self.live_pairs())
    }

    /// Each identifier holds at most one record.
    pub open spec fn wf(self) -> bool {
        distinct_keys(self.pairs())
    }

    /// A record is stored under its own identifier.
    pub proof fn lemma_key_field(self)
        requires
            self.wf(),
        ensures
            forall|k: Seq<u8>| #[trigger] self.events().dom().contains(k)
                ==> self.events()[k].event_id == k,
    {
        assert forall|k: Seq<u8>| #[trigger] self.events().dom().contains(k)
            implies self.events()[k].event_id == k by {
            lemma_as_map_contains(self.pairs(), k);
            let i = choose|i: int| 0 <= i < self.pairs().len() && self.pairs()[i].0 == k;
            lemma_as_map_index(self.pairs(), i);
        }
    }

    /// An empty store.
    pub fn new() -> (r: Self)
        ensures
            r.wf(),
            r.events() == Map::<Seq<u8>, AuditEventView>::empty(),
            r.live() == Map::<Seq<u8>, u64>::empty(),
    {
        let r = EventStore { entries: Vec::new() };
        proof {
            assert(r.pairs() =~= Seq::<(Seq<u8>, AuditEventView)>::empty());
            assert(r.live_pairs() =~= Seq::<(Seq<u8>, u64)>::empty());
        }
        r
    }

    /// Index of the record stored under an identifier, if any.
    fn find_index(&self, event_id: &Vec<u8>) -> (r: Option<usize>)
        ensures
            match r {
                Some(i) => i < self.entries@.len()
                    && self.entries@[i as int].event.event_id@ == event_id@,
                None => forall|j: int| 0 <= j < self.entries@.len()
                    ==> self.entries@[j].event.event_id@ != event_id@,
            },
    {
        let mut i: usize = 0;
        while i < self.entries.len()
            invariant
                0 <= i <= self.entries@.len(),
                forall|j: int| 0 <= j < i ==> self.entries@[j].event.event_id@ != event_id@,
            decreases self.entries@.len() - i,
        {
            if bytes_eq(&self.entries[i].event.event_id, event_id) {
                return Some(i);
            }
            i += 1;
        }
        None
    }

    /// Whether a record is stored under the identifier.
    pub fn contains(&self, event_id: &Vec<u8>) -> (r: bool)
        requires
            self.wf(),
        ensures
            r == self.events().dom().contains(event_id@),
    {
        match self.find_index(event_id) {
            Some(i) => {
                proof {
                    assert(self.pairs()[i as int].0 == event_id@);
                    lemma_as_map_contains(self.pairs(), event_id@);
                }
                true
            }
            None => {
                proof {
                    assert forall|j: int| 0 <= j < self.pairs().len()
                        implies self.pairs()[j].0 != event_id@ by {
                        assert(self.entries@[j].event.event_id@ != event_id@);
                    }
                    lemma_as_map_contains(self.pairs(), event_id@);
                }
                false
            }
        }
    }

    /// The record stored under the identifier; absent is not an error.
    pub fn get(&self, event_id: &Vec<u8>) -> (r: Option<&AuditEvent>)
        requires
            self.wf(),
        ensures
            match r {
                Some(e) => self.events().dom().contains(event_id@)
                    && e@ == self.events()[event_id@]
                    && e@.event_id == event_id@,
                None => !self.events().dom().contains(event_id@),
            },
    {
        match self.find_index(event_id) {
            Some(i) => {
                proof {
                    lemma_as_map_index(self.pairs(), i as int);
                }
                Some(&self.entries[i].event)
            }
            None => {
                proof {
                    lemma_as_map_contains(self.pairs(), event_id@);
                }
                None
            }
        }
    }

    /// Stores a record under its identifier, which must be fresh, and
    /// renews its liveness to the given horizon.
    pub fn insert(&mut self, event: AuditEvent, live_until: u64)
        requires
            old(self).wf(),
            !old(self).events().dom().contains(event.event_id@),
        ensures
            final(self).wf(),
            final(self).events() == old(self).events().insert(event.event_id@, event@),
            final(self).live() == old(self).live().insert(event.event_id@, live_until),
    {
        let ghost id = event.event_id@;
        let ghost ev = event@;
        self.entries.push(StoredEvent { event, live_until });
        proof {
            let s = old(self).pairs();
            let ls = old(self).live_pairs();
            assert(self.pairs() =~= s.push((id, ev)));
            assert(self.live_pairs() =~= ls.push((id, live_until)));
            lemma_as_map_push(s, id, ev);
            lemma_as_map_push(ls, id, live_until);
            lemma_as_map_contains(s, id);
        }
    }
}

} // verus!

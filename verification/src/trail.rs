//! The audit trail: admission control, deterministic identification,
//! immutable storage, three secondary indices kept in lock-step with every
//! write, and time/entity/source-based retrieval.
//!
//! Each public operation is one logically atomic unit of work; the host
//! environment serializes invocations and supplies all-or-nothing commit,
//! so an operation either returns `Ok` having made every state change its
//! contract describes, or returns an error having changed nothing.
//! Callers arrive already authenticated: the host boundary proves that a
//! caller owns the identity it claims.

use vstd::prelude::*;
use vstd::arithmetic::div_mod::{lemma_fundamental_div_mod, lemma_mod_division_less_than_divisor};
use crate::Error;
use crate::auth::AuthRegistry;
use crate::bytes::copy_bytes;
use crate::ids::{derive_id, id_of};
use crate::index::{bucket_or, ids_view, IdIndex, TypeDayIndex};
use crate::store::{AuditEvent, AuditEventView, EventStore};

verus! {

/// The width of a day bucket, in seconds.
pub const DAY_SECONDS: u64 = 86400;

/// The retention horizon: every key touched by a write has its liveness
/// renewed to this many seconds past the write's timestamp.
pub const RETENTION_SECONDS: u64 = 2592000;

/// A timestamp floored to its day bucket.
pub open spec fn day_of(ts: u64) -> u64 {
    (((ts as int) / (DAY_SECONDS as int)) * (DAY_SECONDS as int)) as u64
}

/// The horizon a write at the given time renews liveness to, saturating
/// at the largest representable time.
pub open spec fn horizon(ts: u64) -> u64 {
    if ts <= u64::MAX - RETENTION_SECONDS {
        (ts + RETENTION_SECONDS) as u64
    } else {
        u64::MAX
    }
}

/// Floors a timestamp to its day bucket.
pub fn day_bucket(ts: u64) -> (r: u64)
    ensures
        r == day_of(ts),
        r <= ts,
{
    proof {
        lemma_fundamental_div_mod(ts as int, DAY_SECONDS as int);
        lemma_mod_division_less_than_divisor(ts as int, DAY_SECONDS as int);
        assert(((ts as int) / (DAY_SECONDS as int)) * (DAY_SECONDS as int)
            == (DAY_SECONDS as int) * ((ts as int) / (DAY_SECONDS as int)));
    }
    (ts / DAY_SECONDS) * DAY_SECONDS
}

/// The horizon a write at the given time renews liveness to.
pub fn retention_horizon(ts: u64) -> (r: u64)
    ensures
        r == horizon(ts),
{
    if ts <= u64::MAX - RETENTION_SECONDS {
        ts + RETENTION_SECONDS
    } else {
        u64::MAX
    }
}

/// The value of an optional string.
pub open spec fn opt_view(o: Option<String>) -> Option<Seq<char>> {
    match o {
        Some(s) => Some(s@),
        None => None,
    }
}

/// The record a successful submission stores.
pub open spec fn event_view(
    id: Seq<u8>,
    timestamp: u64,
    event_type: Seq<char>,
    emitter: Seq<char>,
    primary: Seq<char>,
    secondary: Option<Seq<char>>,
    data: Seq<char>,
    tx_hash: Seq<u8>,
) -> AuditEventView {
    AuditEventView {
        event_id: id,
        timestamp,
        event_type,
        emitting_contract: emitter,
        primary_entity_id: primary,
        secondary_entity_id: secondary,
        event_data: data,
        tx_hash,
    }
}

/// The value of a result whose success case carries an identifier.
pub open spec fn res_view(r: Result<Vec<u8>, Error>) -> Result<Seq<u8>, Error> {
    match r {
        Ok(v) => Ok(v@),
        Err(e) => Err(e),
    }
}

/// Every identifier of the bucket resolves to a stored record, and no
/// identifier appears twice in it.
pub open spec fn bucket_ok(events: Map<Seq<u8>, AuditEventView>, ids: Seq<Seq<u8>>) -> bool {
    &&& forall|i: int| 0 <= i < ids.len() ==> events.dom().contains(#[trigger] ids[i])
    &&& forall|i: int, j: int| 0 <= i < j < ids.len() ==> ids[i] != ids[j]
}

/// Referential integrity of one index against the store.
pub open spec fn index_ok<K>(
    events: Map<Seq<u8>, AuditEventView>,
    buckets: Map<K, Seq<Seq<u8>>>,
) -> bool {
    forall|k: K| #[trigger] buckets.dom().contains(k) ==> bucket_ok(events, buckets[k])
}

/// The events a sequence of identifiers resolves to.
pub open spec fn resolve(
    events: Map<Seq<u8>, AuditEventView>,
    ids: Seq<Seq<u8>>,
) -> Seq<AuditEventView> {
    ids.map(|i: int, id: Seq<u8>| events[id])
}

/// The values of a vector of records.
pub open spec fn views_of(s: Seq<AuditEvent>) -> Seq<AuditEventView> {
    s.map(|i: int, e: AuditEvent| e@)
}

/// Exactly one record of the sequence carries the identifier.
pub open spec fn appears_once(s: Seq<AuditEventView>, id: Seq<u8>) -> bool {
    exists|i: int|
        0 <= i < s.len() && s[i].event_id == id
            && (forall|j: int| 0 <= j < s.len() && j != i ==> s[j].event_id != id)
}

/// Appending a fresh identifier to one bucket of an index keeps the index
/// consistent with the store extended by that identifier's record.
proof fn lemma_index_ok_after_append<K>(
    events: Map<Seq<u8>, AuditEventView>,
    buckets: Map<K, Seq<Seq<u8>>>,
    k0: K,
    id: Seq<u8>,
    ev: AuditEventView,
)
    requires
        index_ok(events, buckets),
        !events.dom().contains(id),
    ensures
        index_ok(
            events.insert(id, ev),
            buckets.insert(k0, bucket_or(buckets, k0).push(id)),
        ),
{
    let ne = events.insert(id, ev);
    let nb = buckets.insert(k0, bucket_or(buckets, k0).push(id));
    assert forall|k: K| #[trigger] nb.dom().contains(k) implies bucket_ok(ne, nb[k]) by {
        if k == k0 {
            let ob = bucket_or(buckets, k0);
            let s = ob.push(id);
            assert(nb[k] == s);
            assert forall|i: int| 0 <= i < s.len() implies ne.dom().contains(#[trigger] s[i]) by {
                if i < ob.len() {
                    assert(events.dom().contains(ob[i]));
                } else {
                    assert(s[i] == id);
                }
            }
            assert forall|i: int, j: int| 0 <= i < j < s.len() implies s[i] != s[j] by {
                if j == s.len() - 1 {
                    assert(events.dom().contains(ob[i]));
                    assert(s[j] == id);
                }
            }
        } else {
            assert(nb[k] == buckets[k]);
            assert(bucket_ok(events, buckets[k]));
            assert forall|i: int| 0 <= i < nb[k].len()
                implies ne.dom().contains(#[trigger] nb[k][i]) by {
                assert(events.dom().contains(buckets[k][i]));
            }
        }
    }
}

/// Dereferences a range of a bucket's identifiers through the store.  An
/// identifier without a record would be skipped rather than fail the
/// read; in a well-formed trail there is none.
fn resolve_ids(store: &EventStore, ids: &Vec<Vec<u8>>, start: usize, end: usize)
    -> (r: Vec<AuditEvent>)
    requires
        store.wf(),
        start <= end <= ids@.len(),
        forall|i: int| start <= i < end
            ==> store.events().dom().contains(#[trigger] ids_view(*ids)[i]),
    ensures
        r@.len() == end - start,
        views_of(r@) == resolve(store.events(), ids_view(*ids).subrange(start as int, end as int)),
{
    let mut r: Vec<AuditEvent> = Vec::new();
    let mut i: usize = start;
    while i < end
        invariant
            store.wf(),
            start <= i <= end,
            end <= ids@.len(),
            forall|k: int| start <= k < end
                ==> store.events().dom().contains(#[trigger] ids_view(*ids)[k]),
            r@.len() == i - start,
            forall|j: int| #![auto] 0 <= j < i - start
                ==> r@[j]@ == store.events()[ids_view(*ids)[start + j]],
        decreases end - i,
    {
        proof {
            assert(ids_view(*ids)[i as int] == ids@[i as int]@);
        }
        match store.get(&ids[i]) {
            Some(e) => {
                r.push(e.duplicate());
            }
            None => {
                proof {
                    assert(false);
                }
            }
        }
        i += 1;
    }
    proof {
        let target = resolve(store.events(), ids_view(*ids).subrange(start as int, end as int));
        assert forall|j: int| 0 <= j < r@.len() implies views_of(r@)[j] == target[j] by {
            assert(ids_view(*ids).subrange(start as int, end as int)[j]
                == ids_view(*ids)[start + j]);
        }
        assert(views_of(r@) =~= target);
    }
    r
}

/// The indexed event store.
pub struct AuditTrailContract {
    pub auth: AuthRegistry,
    pub store: EventStore,
    pub entity_index: IdIndex,
    pub type_day_index: TypeDayIndex,
    pub source_index: IdIndex,
}

impl AuditTrailContract {
    /// The administrator identity, if one has been set.
    pub open spec fn admin_id(self) -> Option<Seq<char>> {
        self.auth.admin_id()
    }

    /// The allow-list as a map from identity to flag.
    pub open spec fn emitters_map(self) -> Map<Seq<char>, bool> {
        self.auth.emitters_map()
    }

    /// Whether an identity is on the allow-list with its flag set.
    pub open spec fn authorized(self, e: Seq<char>) -> bool {
        self.auth.authorized(e)
    }

    /// The stored records, keyed by identifier.
    pub open spec fn events(self) -> Map<Seq<u8>, AuditEventView> {
        self.store.events()
    }

    /// The liveness horizon of each stored record.
    pub open spec fn event_live(self) -> Map<Seq<u8>, u64> {
        self.store.live()
    }

    /// The entity index: identifiers per primary entity, in write order.
    pub open spec fn entity_buckets(self) -> Map<Seq<char>, Seq<Seq<u8>>> {
        self.entity_index.buckets()
    }

    /// The liveness horizon of each entity bucket.
    pub open spec fn entity_live(self) -> Map<Seq<char>, u64> {
        self.entity_index.live()
    }

    /// The type-and-day index: identifiers per (event type, day bucket).
    pub open spec fn type_day_buckets(self) -> Map<(Seq<char>, u64), Seq<Seq<u8>>> {
        self.type_day_index.buckets()
    }

    /// The liveness horizon of each type-and-day bucket.
    pub open spec fn type_day_live(self) -> Map<(Seq<char>, u64), u64> {
        self.type_day_index.live()
    }

    /// The source index: identifiers per emitting identity.
    pub open spec fn source_buckets(self) -> Map<Seq<char>, Seq<Seq<u8>>> {
        self.source_index.buckets()
    }

    /// The liveness horizon of each source bucket.
    pub open spec fn source_live(self) -> Map<Seq<char>, u64> {
        self.source_index.live()
    }

    /// Well-formedness: each component is well-formed, and every
    /// identifier of every index bucket resolves to exactly one stored
    /// record.
    pub open spec fn wf(self) -> bool {
        &&& self.auth.wf()
        &&& self.store.wf()
        &&& self.entity_index.wf()
        &&& self.type_day_index.wf()
        &&& self.source_index.wf()
        &&& index_ok(self.events(), self.entity_buckets())
        &&& index_ok(self.events(), self.type_day_buckets())
        &&& index_ok(self.events(), self.source_buckets())
    }

    /// The outcome a submission has against a given state.
    pub open spec fn record_outcome(
        self,
        emitter: Seq<char>,
        tx_hash: Seq<u8>,
        timestamp: u64,
    ) -> Result<Seq<u8>, Error> {
        if !self.authorized(emitter) {
            Err(Error::NotAuthorized)
        } else if self.events().dom().contains(id_of(tx_hash, timestamp)) {
            Err(Error::DuplicateIdentifier)
        } else {
            Ok(id_of(tx_hash, timestamp))
        }
    }

    /// The state change a successful submission makes: the record is
    /// stored under its derived identifier, the identifier is appended to
    /// the three index buckets it belongs to, the liveness of all four
    /// touched keys is renewed to the retention horizon, and nothing else
    /// changes.
    pub open spec fn record_post(
        pre: AuditTrailContract,
        post: AuditTrailContract,
        emitter: Seq<char>,
        event_type: Seq<char>,
        primary: Seq<char>,
        secondary: Option<Seq<char>>,
        data: Seq<char>,
        tx_hash: Seq<u8>,
        timestamp: u64,
    ) -> bool {
        let id = id_of(tx_hash, timestamp);
        let h = horizon(timestamp);
        let day = day_of(timestamp);
        let ev = event_view(id, timestamp, event_type, emitter, primary, secondary, data, tx_hash);
        &&& post.auth == pre.auth
        &&& post.events() == pre.events().insert(id, ev)
        &&& post.event_live() == pre.event_live().insert(id, h)
        &&& post.entity_buckets() == pre.entity_buckets().insert(
            primary,
            bucket_or(pre.entity_buckets(), primary).push(id),
        )
        &&& post.entity_live() == pre.entity_live().insert(primary, h)
        &&& post.type_day_buckets() == pre.type_day_buckets().insert(
            (event_type, day),
            bucket_or(pre.type_day_buckets(), (event_type, day)).push(id),
        )
        &&& post.type_day_live() == pre.type_day_live().insert((event_type, day), h)
        &&& post.source_buckets() == pre.source_buckets().insert(
            emitter,
            bucket_or(pre.source_buckets(), emitter).push(id),
        )
        &&& post.source_live() == pre.source_live().insert(emitter, h)
    }

    /// An empty, uninitialized trail.
    pub fn new() -> (r: Self)
        ensures
            r.wf(),
            r.admin_id() is None,
            r.emitters_map() == Map::<Seq<char>, bool>::empty(),
            r.events() == Map::<Seq<u8>, AuditEventView>::empty(),
            r.entity_buckets() == Map::<Seq<char>, Seq<Seq<u8>>>::empty(),
            r.type_day_buckets() == Map::<(Seq<char>, u64), Seq<Seq<u8>>>::empty(),
            r.source_buckets() == Map::<Seq<char>, Seq<Seq<u8>>>::empty(),
    {
        AuditTrailContract {
            auth: AuthRegistry::new(),
            store: EventStore::new(),
            entity_index: IdIndex::new(),
            type_day_index: TypeDayIndex::new(),
            source_index: IdIndex::new(),
        }
    }

    /// Sets the immutable administrator identity and an empty allow-list;
    /// refused when the trail is already initialized.
    pub fn initialize(&mut self, admin: String) -> (r: Result<(), Error>)
        requires
            old(self).wf(),
        ensures
            final(self).wf(),
            old(self).admin_id() is Some ==> r == Err::<(), Error>(Error::AlreadyInitialized)
                && *final(self) == *old(self),
            old(self).admin_id() is None ==> r == Ok::<(), Error>(())
                && final(self).admin_id() == Some(admin@)
                && final(self).emitters_map() == Map::<Seq<char>, bool>::empty(),
            final(self).store == old(self).store,
            final(self).entity_index == old(self).entity_index,
            final(self).type_day_index == old(self).type_day_index,
            final(self).source_index == old(self).source_index,
    {
        self.auth.initialize(admin)
    }

    /// Puts an emitter on the allow-list; only the administrator may, and
    /// the operation is idempotent.
    pub fn authorize_emitter(&mut self, caller: &String, emitter: String) -> (r: Result<(), Error>)
        requires
            old(self).wf(),
        ensures
            final(self).wf(),
            !old(self).auth.is_admin(caller@) ==> r == Err::<(), Error>(Error::NotAuthorized)
                && *final(self) == *old(self),
            old(self).auth.is_admin(caller@) ==> r == Ok::<(), Error>(())
                && final(self).admin_id() == old(self).admin_id()
                && final(self).emitters_map() == old(self).emitters_map().insert(emitter@, true)
                && final(self).authorized(emitter@),
            final(self).store == old(self).store,
            final(self).entity_index == old(self).entity_index,
            final(self).type_day_index == old(self).type_day_index,
            final(self).source_index == old(self).source_index,
    {
        self.auth.set_authorization(caller, emitter, true)
    }

    /// Takes an emitter off the allow-list; only the administrator may,
    /// and the operation is idempotent.  Immediately afterwards the
    /// emitter is not authorized.
    pub fn revoke_emitter(&mut self, caller: &String, emitter: String) -> (r: Result<(), Error>)
        requires
            old(self).wf(),
        ensures
            final(self).wf(),
            !old(self).auth.is_admin(caller@) ==> r == Err::<(), Error>(Error::NotAuthorized)
                && *final(self) == *old(self),
            old(self).auth.is_admin(caller@) ==> r == Ok::<(), Error>(())
                && final(self).admin_id() == old(self).admin_id()
                && final(self).emitters_map() == old(self).emitters_map().insert(emitter@, false)
                && !final(self).authorized(emitter@),
            final(self).store == old(self).store,
            final(self).entity_index == old(self).entity_index,
            final(self).type_day_index == old(self).type_day_index,
            final(self).source_index == old(self).source_index,
    {
        self.auth.set_authorization(caller, emitter, false)
    }

    /// Whether an emitter is currently authorized to write; unknown
    /// emitters default to not authorized.
    pub fn is_authorized(&self, emitter: &String) -> (r: bool)
        requires
            self.wf(),
        ensures
            r == self.authorized(emitter@),
    {
        self.auth.is_authorized(emitter)
    }

    /// Records an event: admission control, identifier derivation,
    /// storage, the three index appends and the liveness renewals, as one
    /// atomic operation.  A write by an emitter that is not on the
    /// allow-list, or one whose derived identifier is already stored,
    /// changes nothing.
    pub fn record_event(
        &mut self,
        emitter: String,
        event_type: String,
        primary_entity_id: String,
        secondary_entity_id: Option<String>,
        event_data: String,
        tx_hash: Vec<u8>,
        timestamp: u64,
    ) -> (r: Result<Vec<u8>, Error>)
        requires
            old(self).wf(),
        ensures
            final(self).wf(),
            res_view(r) == old(self).record_outcome(emitter@, tx_hash@, timestamp),
            r is Err ==> *final(self) == *old(self),
            r is Ok ==> Self::record_post(
                *old(self),
                *final(self),
                emitter@,
                event_type@,
                primary_entity_id@,
                opt_view(secondary_entity_id),
                event_data@,
                tx_hash@,
                timestamp,
            ),
    {
        if !self.auth.is_authorized(&emitter) {
            return Err(Error::NotAuthorized);
        }
        let id = derive_id(&tx_hash, timestamp);
        if self.store.contains(&id) {
            return Err(Error::DuplicateIdentifier);
        }
        let h = retention_horizon(timestamp);
        let day = day_bucket(timestamp);
        proof {
            lemma_index_ok_after_append(
                old(self).events(),
                old(self).entity_buckets(),
                primary_entity_id@,
                id@,
                event_view(id@, timestamp, event_type@, emitter@, primary_entity_id@,
                    opt_view(secondary_entity_id), event_data@, tx_hash@),
            );
            lemma_index_ok_after_append(
                old(self).events(),
                old(self).type_day_buckets(),
                (event_type@, day_of(timestamp)),
                id@,
                event_view(id@, timestamp, event_type@, emitter@, primary_entity_id@,
                    opt_view(secondary_entity_id), event_data@, tx_hash@),
            );
            lemma_index_ok_after_append(
                old(self).events(),
                old(self).source_buckets(),
                emitter@,
                id@,
                event_view(id@, timestamp, event_type@, emitter@, primary_entity_id@,
                    opt_view(secondary_entity_id), event_data@, tx_hash@),
            );
        }
        let event = AuditEvent {
            event_id: copy_bytes(&id),
            timestamp,
            event_type: event_type.clone(),
            emitting_contract: emitter.clone(),
            primary_entity_id: primary_entity_id.clone(),
            secondary_entity_id,
            event_data,
            tx_hash,
        };
        self.store.insert(event, h);
        self.entity_index.append(primary_entity_id, copy_bytes(&id), h);
        self.type_day_index.append(event_type, day, copy_bytes(&id), h);
        self.source_index.append(emitter, copy_bytes(&id), h);
        Ok(id)
    }

    /// The submission operation under the name the host boundary exposes;
    /// once the host has proven the emitter's authentication, it is the
    /// same operation as `record_event`.
    pub fn record_event_auth(
        &mut self,
        emitter: String,
        event_type: String,
        primary_entity_id: String,
        secondary_entity_id: Option<String>,
        event_data: String,
        tx_hash: Vec<u8>,
        timestamp: u64,
    ) -> (r: Result<Vec<u8>, Error>)
        requires
            old(self).wf(),
        ensures
            final(self).wf(),
            res_view(r) == old(self).record_outcome(emitter@, tx_hash@, timestamp),
            r is Err ==> *final(self) == *old(self),
            r is Ok ==> Self::record_post(
                *old(self),
                *final(self),
                emitter@,
                event_type@,
                primary_entity_id@,
                opt_view(secondary_entity_id),
                event_data@,
                tx_hash@,
                timestamp,
            ),
    {
        self.record_event(emitter, event_type, primary_entity_id, secondary_entity_id,
            event_data, tx_hash, timestamp)
    }

    /// The record stored under an identifier; absent is not an error.
    pub fn get_event(&self, event_id: &Vec<u8>) -> (r: Option<AuditEvent>)
        requires
            self.wf(),
        ensures
            match r {
                Some(e) => self.events().dom().contains(event_id@)
                    && e@ == self.events()[event_id@],
                None => !self.events().dom().contains(event_id@),
            },
    {
        match self.store.get(event_id) {
            Some(e) => Some(e.duplicate()),
            None => None,
        }
    }

    /// All events of a primary entity, in write order.
    pub fn get_events_by_entity(&self, entity_id: &String) -> (r: Vec<AuditEvent>)
        requires
            self.wf(),
        ensures
            r@.len() == bucket_or(self.entity_buckets(), entity_id@).len(),
            views_of(r@) == resolve(self.events(), bucket_or(self.entity_buckets(), entity_id@)),
    {
        match self.entity_index.get_bucket(entity_id) {
            Some(b) => {
                let n = b.ids.len();
                proof {
                    assert(bucket_ok(self.events(), self.entity_buckets()[entity_id@]));
                    assert(ids_view(b.ids).subrange(0, n as int) =~= ids_view(b.ids));
                }
                resolve_ids(&self.store, &b.ids, 0, n)
            }
            None => {
                let r: Vec<AuditEvent> = Vec::new();
                proof {
                    assert(views_of(r@) =~= resolve(
                        self.events(),
                        bucket_or(self.entity_buckets(), entity_id@),
                    ));
                }
                r
            }
        }
    }

    /// A page of a primary entity's events: the half-open range
    /// `[start, min(start + limit, total))` of the write order.  An
    /// out-of-range start yields the empty sequence, not an error.
    pub fn get_events_by_entity_paged(&self, entity_id: &String, start: u32, limit: u32)
        -> (r: Vec<AuditEvent>)
        requires
            self.wf(),
        ensures
            ({
                let bucket = bucket_or(self.entity_buckets(), entity_id@);
                let total = bucket.len();
                &&& start >= total ==> r@.len() == 0
                &&& start < total ==> {
                    let end = if start + limit <= total { start + limit } else { total as int };
                    &&& r@.len() == end - start
                    &&& views_of(r@) == resolve(self.events(), bucket.subrange(start as int, end))
                }
            }),
    {
        match self.entity_index.get_bucket(entity_id) {
            Some(b) => {
                let total = b.ids.len();
                if start as u64 >= total as u64 {
                    Vec::new()
                } else {
                    let s = start as usize;
                    let end: usize = if (limit as u64) <= (total as u64) - (start as u64) {
                        (start as u64 + limit as u64) as usize
                    } else {
                        total
                    };
                    proof {
                        assert(bucket_ok(self.events(), self.entity_buckets()[entity_id@]));
                    }
                    resolve_ids(&self.store, &b.ids, s, end)
                }
            }
            None => {
                Vec::new()
            }
        }
    }

    /// All events of a type whose timestamp falls in the same day bucket
    /// as the given timestamp.
    pub fn get_events_by_type_and_time(&self, event_type: &String, timestamp: u64)
        -> (r: Vec<AuditEvent>)
        requires
            self.wf(),
        ensures
            r@.len() == bucket_or(self.type_day_buckets(), (event_type@, day_of(timestamp))).len(),
            views_of(r@) == resolve(
                self.events(),
                bucket_or(self.type_day_buckets(), (event_type@, day_of(timestamp))),
            ),
    {
        let day = day_bucket(timestamp);
        match self.type_day_index.get_bucket(event_type, day) {
            Some(b) => {
                let n = b.ids.len();
                proof {
                    assert(bucket_ok(self.events(), self.type_day_buckets()[(event_type@, day)]));
                    assert(ids_view(b.ids).subrange(0, n as int) =~= ids_view(b.ids));
                }
                resolve_ids(&self.store, &b.ids, 0, n)
            }
            None => {
                let r: Vec<AuditEvent> = Vec::new();
                proof {
                    assert(views_of(r@) =~= resolve(
                        self.events(),
                        bucket_or(self.type_day_buckets(), (event_type@, day_of(timestamp))),
                    ));
                }
                r
            }
        }
    }

    /// All events written by an emitting identity, in write order.
    pub fn get_events_by_contract(&self, emitter: &String) -> (r: Vec<AuditEvent>)
        requires
            self.wf(),
        ensures
            r@.len() == bucket_or(self.source_buckets(), emitter@).len(),
            views_of(r@) == resolve(self.events(), bucket_or(self.source_buckets(), emitter@)),
    {
        match self.source_index.get_bucket(emitter) {
            Some(b) => {
                let n = b.ids.len();
                proof {
                    assert(bucket_ok(self.events(), self.source_buckets()[emitter@]));
                    assert(ids_view(b.ids).subrange(0, n as int) =~= ids_view(b.ids));
                }
                resolve_ids(&self.store, &b.ids, 0, n)
            }
            None => {
                let r: Vec<AuditEvent> = Vec::new();
                proof {
                    assert(views_of(r@) =~= resolve(
                        self.events(),
                        bucket_or(self.source_buckets(), emitter@),
                    ));
                }
                r
            }
        }
    }

    /// An identity that holds no allow-list entry — in particular any
    /// identity in a freshly created or freshly initialized trail, whose
    /// allow-list is empty, and any identity that was never the subject
    /// of an authorization — is not authorized.
    pub proof fn lemma_unlisted_not_authorized(self, e: Seq<char>)
        requires
            !self.emitters_map().dom().contains(e),
        ensures
            !self.authorized(e),
    {
    }

    /// Two submissions with the same origin transaction reference and
    /// timestamp derive the same identifier; against any state that still
    /// stores that identifier — in particular any state reached after the
    /// first submission succeeded — the repeated submission is refused as
    /// a duplicate, even by an authorized emitter.
    pub proof fn lemma_duplicate_submission(
        first: AuditTrailContract,
        second: AuditTrailContract,
        emitter1: Seq<char>,
        emitter2: Seq<char>,
        tx_hash: Seq<u8>,
        timestamp: u64,
    )
        requires
            first.record_outcome(emitter1, tx_hash, timestamp) is Ok,
            second.events().dom().contains(id_of(tx_hash, timestamp)),
            second.authorized(emitter2),
        ensures
            first.record_outcome(emitter1, tx_hash, timestamp)
                == Ok::<Seq<u8>, Error>(id_of(tx_hash, timestamp)),
            second.record_outcome(emitter2, tx_hash, timestamp)
                == Err::<Seq<u8>, Error>(Error::DuplicateIdentifier),
    {
    }

    /// In the result of resolving a bucket that was just extended by a
    /// fresh identifier, that identifier's record appears exactly once.
    proof fn lemma_appears_once_in_appended(
        pre_events: Map<Seq<u8>, AuditEventView>,
        post_events: Map<Seq<u8>, AuditEventView>,
        ob: Seq<Seq<u8>>,
        id: Seq<u8>,
        ev: AuditEventView,
    )
        requires
            bucket_ok(pre_events, ob),
            !pre_events.dom().contains(id),
            post_events == pre_events.insert(id, ev),
            ev.event_id == id,
            forall|k: Seq<u8>| #[trigger] pre_events.dom().contains(k)
                ==> pre_events[k].event_id == k,
        ensures
            appears_once(resolve(post_events, ob.push(id)), id),
    {
        let s = resolve(post_events, ob.push(id));
        let i = ob.len() as int;
        assert(ob.push(id)[i] == id);
        assert(s[i] == post_events[id]);
        assert(s[i].event_id == id);
        assert forall|j: int| 0 <= j < s.len() && j != i implies s[j].event_id != id by {
            assert(ob.push(id)[j] == ob[j]);
            assert(pre_events.dom().contains(ob[j]));
            assert(post_events[ob[j]] == pre_events[ob[j]]);
            assert(s[j] == post_events[ob[j]]);
            assert(pre_events[ob[j]].event_id == ob[j]);
        }
    }

    /// A successfully recorded event is retrievable under its returned
    /// identifier, and appears exactly once in the entity query for its
    /// primary entity, exactly once in the source query for its emitter,
    /// and exactly once in the type-and-time query for any timestamp of
    /// the same day.
    pub proof fn lemma_recorded_event_visible(
        pre: AuditTrailContract,
        post: AuditTrailContract,
        emitter: Seq<char>,
        event_type: Seq<char>,
        primary: Seq<char>,
        secondary: Option<Seq<char>>,
        data: Seq<char>,
        tx_hash: Seq<u8>,
        ts: u64,
        ts2: u64,
    )
        requires
            pre.wf(),
            !pre.events().dom().contains(id_of(tx_hash, ts)),
            Self::record_post(pre, post, emitter, event_type, primary, secondary, data, tx_hash, ts),
            day_of(ts2) == day_of(ts),
        ensures
            post.events().dom().contains(id_of(tx_hash, ts)),
            post.events()[id_of(tx_hash, ts)] == event_view(
                id_of(tx_hash, ts), ts, event_type, emitter, primary, secondary, data, tx_hash),
            appears_once(
                resolve(post.events(), bucket_or(post.entity_buckets(), primary)),
                id_of(tx_hash, ts),
            ),
            appears_once(
                resolve(post.events(), bucket_or(post.source_buckets(), emitter)),
                id_of(tx_hash, ts),
            ),
            appears_once(
                resolve(post.events(), bucket_or(post.type_day_buckets(), (event_type, day_of(ts2)))),
                id_of(tx_hash, ts),
            ),
    {
        let id = id_of(tx_hash, ts);
        let ev = event_view(id, ts, event_type, emitter, primary, secondary, data, tx_hash);
        pre.store.lemma_key_field();
        let ob_entity = bucket_or(pre.entity_buckets(), primary);
        assert(bucket_ok(pre.events(), ob_entity));
        assert(bucket_or(post.entity_buckets(), primary) == ob_entity.push(id));
        Self::lemma_appears_once_in_appended(pre.events(), post.events(), ob_entity, id, ev);
        let ob_source = bucket_or(pre.source_buckets(), emitter);
        assert(bucket_ok(pre.events(), ob_source));
        assert(bucket_or(post.source_buckets(), emitter) == ob_source.push(id));
        Self::lemma_appears_once_in_appended(pre.events(), post.events(), ob_source, id, ev);
        let ob_td = bucket_or(pre.type_day_buckets(), (event_type, day_of(ts)));
        assert(bucket_ok(pre.events(), ob_td));
        assert(bucket_or(post.type_day_buckets(), (event_type, day_of(ts))) == ob_td.push(id));
        Self::lemma_appears_once_in_appended(pre.events(), post.events(), ob_td, id, ev);
    }
}

} // verus!

//! The node's index of known alerts: the persistent record format, and the
//! in-memory cache kept beside the database. The database itself is driven
//! by the caller, which hands in what it read and stores what it is given.
use vstd::prelude::*;
use crate::clock::Timestamp;
use crate::envelope::{Envelope, EnvelopeView, Priority};

verus! {

/// The persistent form of an envelope: its creation time in whole seconds.
#[derive(Debug)]
pub struct StoredEnvelope {
    pub msg_id: u128,
    pub sender_id: String,
    pub created_at_secs: u64,
    pub ttl_secs: u64,
    pub hop_count: u8,
    pub max_hops: u8,
    pub priority: Priority,
    pub payload: Vec<u8>,
    pub sender_pubkey: [u8; 32],
    pub signature: Vec<u8>,
    pub nonce: [u8; 12],
}

/// The envelope a stored record stands for: created at the stored whole
/// second.
pub open spec fn stored_view(s: StoredEnvelope) -> EnvelopeView {
    EnvelopeView {
        msg_id: s.msg_id,
        sender_id: s.sender_id@,
        created_at: Timestamp { secs: s.created_at_secs, nanos: 0 },
        ttl_secs: s.ttl_secs,
        hop_count: s.hop_count,
        max_hops: s.max_hops,
        priority: s.priority,
        payload: s.payload@,
        sender_pubkey: s.sender_pubkey@,
        signature: s.signature@,
        nonce: s.nonce@,
    }
}

/// The envelope with its creation time truncated to the whole second.
pub open spec fn truncate_time(e: EnvelopeView) -> EnvelopeView {
    EnvelopeView { created_at: Timestamp { secs: e.created_at.secs, nanos: 0 }, ..e }
}

impl StoredEnvelope {
    /// The record for `env`.
    pub fn from_envelope(env: &Envelope) -> (s: StoredEnvelope)
        ensures
            stored_view(s) == truncate_time(env@),
    {
        let payload = env.payload.clone();
        let signature = env.signature.clone();
        assert(payload@ =~= env.payload@);
        assert(signature@ =~= env.signature@);
        StoredEnvelope {
            msg_id: env.msg_id,
            sender_id: env.sender_id.clone(),
            created_at_secs: env.created_at.secs,
            ttl_secs: env.ttl_secs,
            hop_count: env.hop_count,
            max_hops: env.max_hops,
            priority: env.priority,
            payload,
            sender_pubkey: env.sender_pubkey,
            signature,
            nonce: env.nonce,
        }
    }

    /// The envelope this record stands for.
    pub fn into_envelope(self) -> (e: Envelope)
        ensures
            e@ == stored_view(self),
            e.created_at.wf(),
    {
        Envelope {
            msg_id: self.msg_id,
            sender_id: self.sender_id,
            created_at: Timestamp { secs: self.created_at_secs, nanos: 0 },
            ttl_secs: self.ttl_secs,
            hop_count: self.hop_count,
            max_hops: self.max_hops,
            priority: self.priority,
            payload: self.payload,
            sender_pubkey: self.sender_pubkey,
            signature: self.signature,
            nonce: self.nonce,
        }
    }
}

/// Storing an envelope and reading it back gives the envelope with its
/// creation time truncated to the whole second; an envelope created on a
/// whole second comes back unchanged.
pub proof fn lemma_store_roundtrip(e: EnvelopeView, s: StoredEnvelope)
    requires
        stored_view(s) == truncate_time(e),
    ensures
        stored_view(s).created_at.secs == e.created_at.secs,
        stored_view(s).created_at.nanos == 0,
        stored_view(s) == (EnvelopeView { created_at: stored_view(s).created_at, ..e }),
        e.created_at.nanos == 0 ==> stored_view(s) == e,
{
}

/// The in-memory cache of known alerts.
pub struct AlertIndex {
    memory: Vec<Envelope>,
}

/// The contents of a list of envelopes.
pub open spec fn envelopes_view(v: Seq<Envelope>) -> Seq<EnvelopeView> {
    v.map_values(|e: Envelope| e@)
}

impl View for AlertIndex {
    type V = Seq<EnvelopeView>;

    closed spec fn view(&self) -> Seq<EnvelopeView> {
        envelopes_view(self.memory@)
    }
}

/// Whether an alert with identifier `id` is in `v`.
pub open spec fn has_id(v: Seq<EnvelopeView>, id: u128) -> bool {
    exists|i: int| 0 <= i < v.len() && (#[trigger] v[i]).msg_id == id
}

/// No two alerts of `v` share an identifier.
pub open spec fn unique_ids(v: Seq<EnvelopeView>) -> bool {
    forall|i: int, j: int| 0 <= i < v.len() && 0 <= j < v.len() && i != j ==> (#[trigger] v[i]).msg_id != (#[trigger] v[j]).msg_id
}

/// Adding an alert to a cache whose identifiers are unique keeps them
/// unique, and the cache then holds exactly one alert with its identifier.
pub proof fn lemma_add_keeps_unique(v: Seq<EnvelopeView>, e: EnvelopeView)
    requires
        unique_ids(v),
    ensures
        ({
            let a = if has_id(v, e.msg_id) { v } else { v.push(e) };
            &&& unique_ids(a)
            &&& has_id(a, e.msg_id)
            &&& forall|i: int, j: int| 0 <= i < a.len() && 0 <= j < a.len() && (#[trigger] a[i]).msg_id == e.msg_id
                && (#[trigger] a[j]).msg_id == e.msg_id ==> i == j
        }),
{
    if !has_id(v, e.msg_id) {
        let a = v.push(e);
        assert(a[v.len() as int].msg_id == e.msg_id);
        assert forall|i: int, j: int| 0 <= i < a.len() && 0 <= j < a.len() && i != j implies (#[trigger] a[i]).msg_id != (#[trigger] a[j]).msg_id by {
            if i < v.len() && j < v.len() {
                assert(a[i] == v[i] && a[j] == v[j]);
            } else if i < v.len() {
                assert(a[i] == v[i]);
            } else {
                assert(a[j] == v[j]);
            }
        }
    }
}

/// A copy of a list of envelopes.
pub fn copy_envelopes(v: &Vec<Envelope>) -> (r: Vec<Envelope>)
    ensures
        envelopes_view(r@) == envelopes_view(v@),
{
    let mut r: Vec<Envelope> = Vec::new();
    let mut j: usize = 0;
    while j < v.len()
        invariant
            0 <= j <= v@.len(),
            envelopes_view(r@) == envelopes_view(v@.take(j as int)),
        decreases v@.len() - j,
    {
        let d = v[j].duplicate();
        let ghost prev = r@;
        r.push(d);
        proof {
            assert(envelopes_view(prev.push(d)) =~= envelopes_view(prev).push(d@));
            assert(envelopes_view(v@.take(j + 1)) =~= envelopes_view(v@.take(j as int)).push(v@[j as int]@));
        }
        j = j + 1;
    }
    assert(v@.take(v@.len() as int) =~= v@);
    r
}

impl AlertIndex {
    /// An empty cache.
    pub fn new() -> (i: AlertIndex)
        ensures
            i@ == Seq::<EnvelopeView>::empty(),
    {
        let i = AlertIndex { memory: Vec::new() };
        assert(i@ =~= Seq::<EnvelopeView>::empty());
        i
    }

    /// The cached alerts.
    pub fn memory_ref(&self) -> (m: &Vec<Envelope>)
        ensures
            envelopes_view(m@) == self@,
    {
        &self.memory
    }

    /// Whether an alert with identifier `id` is cached.
    pub fn contains_id(&self, id: u128) -> (r: bool)
        ensures
            r == has_id(self@, id),
    {
        let mut j: usize = 0;
        while j < self.memory.len()
            invariant
                0 <= j <= self.memory@.len(),
                forall|k: int| 0 <= k < j ==> (#[trigger] self.memory@[k]).msg_id != id,
            decreases self.memory@.len() - j,
        {
            if self.memory[j].msg_id == id {
                assert(self@[j as int].msg_id == id);
                return true;
            }
            j = j + 1;
        }
        assert forall|i: int| 0 <= i < self@.len() implies (#[trigger] self@[i]).msg_id != id by {
            assert(self@[i] == self.memory@[i]@);
        }
        false
    }
}

/// Caches `env` unless an alert with its identifier is cached already.
pub fn in_memory_add(index: &mut AlertIndex, env: Envelope)
    ensures
        final(index)@ == if has_id(old(index)@, env.msg_id) { old(index)@ } else { old(index)@.push(env@) },
        unique_ids(old(index)@) ==> unique_ids(final(index)@),
        has_id(final(index)@, env.msg_id),
{
    proof {
        if unique_ids(index@) {
            lemma_add_keeps_unique(index@, env@);
        }
        if !has_id(index@, env.msg_id) {
            assert(index@.push(env@)[index@.len() as int].msg_id == env.msg_id);
        }
    }
    if !index.contains_id(env.msg_id) {
        let ghost before = index.memory@;
        index.memory.push(env);
        assert(envelopes_view(index.memory@) =~= envelopes_view(before).push(env@));
    }
}

/// Adds an alert: caches it (once per identifier) and returns the record
/// that the caller stores in the database under the alert's identifier.
pub fn add_alert(index: &mut AlertIndex, env: Envelope) -> (record: StoredEnvelope)
    ensures
        stored_view(record) == truncate_time(env@),
        final(index)@ == if has_id(old(index)@, env.msg_id) { old(index)@ } else { old(index)@.push(env@) },
        unique_ids(old(index)@) ==> unique_ids(final(index)@),
        has_id(final(index)@, env.msg_id),
{
    let record = StoredEnvelope::from_envelope(&env);
    in_memory_add(index, env);
    record
}

/// The known alerts, given what the database holds: the cache when the
/// database holds nothing but the cache does (alerts not yet persisted);
/// otherwise the database's alerts, which then replace the cache.
pub fn list_alerts(index: &mut AlertIndex, from_db: Vec<Envelope>) -> (r: Vec<Envelope>)
    ensures
        old(index)@.len() > 0 && from_db@.len() == 0 ==> {
            &&& envelopes_view(r@) == old(index)@
            &&& final(index)@ == old(index)@
        },
        !(old(index)@.len() > 0 && from_db@.len() == 0) ==> {
            &&& envelopes_view(r@) == envelopes_view(from_db@)
            &&& final(index)@ == envelopes_view(from_db@)
        },
{
    if index.memory.len() > 0 && from_db.len() == 0 {
        return copy_envelopes(&index.memory);
    }
    index.memory = copy_envelopes(&from_db);
    from_db
}

/// Replaces the cache with the alerts the database holds.
pub fn load_alerts_from_db(index: &mut AlertIndex, from_db: Vec<Envelope>)
    ensures
        final(index)@ == envelopes_view(from_db@),
{
    index.memory = from_db;
}

/// The alerts of `v` other than those with identifier `id`, in order.
pub open spec fn without_id(v: Seq<EnvelopeView>, id: u128) -> Seq<EnvelopeView>
    decreases v.len(),
{
    if v.len() == 0 {
        v
    } else {
        let rest = without_id(v.drop_last(), id);
        if v.last().msg_id == id { rest } else { rest.push(v.last()) }
    }
}

/// Removing an identifier leaves no alert with it, and keeps every other
/// alert.
pub proof fn lemma_without_id(v: Seq<EnvelopeView>, id: u128)
    ensures
        !has_id(without_id(v, id), id),
        forall|e: EnvelopeView| #[trigger] v.contains(e) && e.msg_id != id ==> without_id(v, id).contains(e),
        forall|e: EnvelopeView| #[trigger] without_id(v, id).contains(e) ==> v.contains(e),
    decreases v.len(),
{
    if v.len() > 0 {
        let d = v.drop_last();
        lemma_without_id(d, id);
        let rest = without_id(d, id);
        assert forall|e: EnvelopeView| #[trigger] v.contains(e) && e.msg_id != id implies without_id(v, id).contains(e) by {
            let i = choose|i: int| 0 <= i < v.len() && v[i] == e;
            if i < v.len() - 1 {
                assert(d[i] == e);
                assert(d.contains(e));
                if v.last().msg_id != id {
                    let k = choose|k: int| 0 <= k < rest.len() && rest[k] == e;
                    assert(rest.push(v.last())[k] == e);
                }
            } else {
                assert(rest.push(v.last())[rest.len() as int] == e);
            }
        }
        assert forall|e: EnvelopeView| #[trigger] without_id(v, id).contains(e) implies v.contains(e) by {
            let k = choose|k: int| 0 <= k < without_id(v, id).len() && without_id(v, id)[k] == e;
            if k < rest.len() {
                assert(rest[k] == e);
                assert(rest.contains(e));
                assert(d.contains(e));
                let i = choose|i: int| 0 <= i < d.len() && d[i] == e;
                assert(v[i] == e);
            } else {
                assert(v[v.len() - 1] == e);
            }
        }
        if has_id(without_id(v, id), id) {
            let k = choose|k: int| 0 <= k < without_id(v, id).len() && (#[trigger] without_id(v, id)[k]).msg_id == id;
            if k < rest.len() {
                assert(rest[k].msg_id == id);
            }
        }
    }
}

/// Forgets the cached alert with identifier `id` (the caller removes it from
/// the database).
pub fn remove_alert(index: &mut AlertIndex, id: u128)
    ensures
        final(index)@ == without_id(old(index)@, id),
{
    let ghost v = index@;
    let mut kept: Vec<Envelope> = Vec::new();
    let mut j: usize = 0;
    assert(v.take(0) =~= Seq::<EnvelopeView>::empty());
    while j < index.memory.len()
        invariant
            0 <= j <= index.memory@.len(),
            index@ == v,
            envelopes_view(kept@) == without_id(v.take(j as int), id),
        decreases index.memory@.len() - j,
    {
        proof {
            assert(v.take(j + 1).drop_last() =~= v.take(j as int));
            assert(v[j as int] == index.memory@[j as int]@);
        }
        if index.memory[j].msg_id != id {
            let d = index.memory[j].duplicate();
            let ghost prev = kept@;
            kept.push(d);
            proof {
                assert(envelopes_view(kept@) =~= envelopes_view(prev).push(d@));
            }
        }
        j = j + 1;
    }
    assert(v.take(v.len() as int) =~= v);
    index.memory = kept;
}

/// Empties the cache (the caller clears the database).
pub fn clear_alerts(index: &mut AlertIndex)
    ensures
        final(index)@ == Seq::<EnvelopeView>::empty(),
{
    index.memory.clear();
    assert(index@ =~= Seq::<EnvelopeView>::empty());
}

/// Adding an alert twice caches it once.
pub proof fn lemma_add_idempotent(v: Seq<EnvelopeView>, e: EnvelopeView)
    ensures
        ({
            let once = if has_id(v, e.msg_id) { v } else { v.push(e) };
            &&& has_id(once, e.msg_id)
            &&& (if has_id(once, e.msg_id) { once } else { once.push(e) }) == once
        }),
{
    if !has_id(v, e.msg_id) {
        assert(v.push(e)[v.len() as int].msg_id == e.msg_id);
    }
}

} // verus!

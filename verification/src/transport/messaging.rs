//! Delivery acknowledgements: the 17-byte ACK/NACK packet (one status byte,
//! then the message identifier) and the tracker of messages awaiting one.
use vstd::prelude::*;
use crate::clock::{Timestamp, now_timestamp, elapsed_secs, spec_elapsed_secs};
use crate::ids::{id_bytes, id_from_bytes, msg_id_to_bytes, msg_id_from_slice, lemma_id_bytes_roundtrip};
use crate::transport::fragment::append_range;

verus! {

/// Length of an acknowledgement packet.
pub const ACK_LEN: usize = 17;

/// An acknowledgement of a message, positive or negative.
#[derive(Debug, PartialEq, Eq, Structural)]
pub enum Ack {
    Ack(u128),
    Nack(u128),
}

/// The packet that acknowledges `id`: status byte 1 (received) or 0
/// (rejected), then the identifier's 16 bytes.
pub open spec fn spec_encode_ack(id: u128, ok: bool) -> Seq<u8> {
    seq![if ok { 1u8 } else { 0u8 }] + id_bytes(id)
}

/// The acknowledgement a packet carries: a 17-byte packet whose status byte
/// is 1 is an ACK, any other status a NACK; other lengths carry none.
pub open spec fn spec_decode_ack(data: Seq<u8>) -> Option<Ack> {
    if data.len() != ACK_LEN {
        None
    } else if data[0] == 1 {
        Some(Ack::Ack(id_from_bytes(data.subrange(1, 17))))
    } else {
        Some(Ack::Nack(id_from_bytes(data.subrange(1, 17))))
    }
}

/// Encodes an acknowledgement of `id`.
pub fn encode_ack(id: u128, ok: bool) -> (v: Vec<u8>)
    ensures
        v@ == spec_encode_ack(id, ok),
{
    let mut v: Vec<u8> = Vec::with_capacity(17);
    v.push(if ok { 1 } else { 0 });
    let b = msg_id_to_bytes(id);
    append_range(&mut v, &b, 0, 16);
    assert(b@.subrange(0, 16) =~= b@);
    assert(v@ =~= spec_encode_ack(id, ok));
    v
}

/// Decodes an acknowledgement packet.
pub fn decode_ack(data: &[u8]) -> (r: Option<Ack>)
    ensures
        r == spec_decode_ack(data@),
{
    if data.len() != ACK_LEN {
        return None;
    }
    let id = match msg_id_from_slice(&data[1..17]) {
        Some(x) => x,
        None => return None,
    };
    assert(data@.subrange(1, 17) == data@.subrange(1, 17));
    Some(if data[0] == 1 { Ack::Ack(id) } else { Ack::Nack(id) })
}

/// Whether a raw packet has the length of an acknowledgement.
pub fn is_ack_packet(data: &[u8]) -> (r: bool)
    ensures
        r == (data@.len() == ACK_LEN),
{
    data.len() == ACK_LEN
}

/// Decoding an encoded acknowledgement gives it back, and its packet is
/// recognised as one.
pub proof fn lemma_ack_roundtrip(id: u128, ok: bool)
    ensures
        spec_decode_ack(spec_encode_ack(id, ok)) == if ok { Some(Ack::Ack(id)) } else { Some(Ack::Nack(id)) },
        spec_encode_ack(id, ok).len() == ACK_LEN,
{
    lemma_id_bytes_roundtrip(id);
    assert(spec_encode_ack(id, ok).subrange(1, 17) =~= id_bytes(id));
}

/// What an acknowledgement tracker holds: messages awaiting an
/// acknowledgement with when they were registered, acknowledged messages in
/// order of acknowledgement, and the timeout in seconds.
pub struct AckView {
    pub pending: Seq<(u128, Timestamp)>,
    pub acked: Seq<u128>,
    pub timeout_secs: u64,
}

/// The identifiers of pending messages.
pub open spec fn pending_ids(p: Seq<(u128, Timestamp)>) -> Seq<u128> {
    p.map_values(|e: (u128, Timestamp)| e.0)
}

impl AckView {
    /// Each message is pending at most once, with a well-formed time.
    pub open spec fn wf(self) -> bool {
        &&& pending_ids(self.pending).no_duplicates()
        &&& forall|j: int| 0 <= j < self.pending.len() ==> (#[trigger] self.pending[j]).1.wf()
    }

    /// Whether `id` awaits an acknowledgement.
    pub open spec fn is_pending(self, id: u128) -> bool {
        pending_ids(self.pending).contains(id)
    }
}

/// The identifier an acknowledgement is about.
pub open spec fn ack_id(ack: Ack) -> u128 {
    match ack {
        Ack::Ack(id) => id,
        Ack::Nack(id) => id,
    }
}

/// The tracker after an acknowledgement (positive or negative) of `id`:
/// if `id` was pending, it no longer is and is recorded as acknowledged;
/// otherwise nothing changes.
pub open spec fn ack_received(t: AckView, id: u128) -> AckView {
    if t.is_pending(id) {
        AckView {
            pending: t.pending.remove(pending_ids(t.pending).index_of(id)),
            acked: t.acked.push(id),
            ..t
        }
    } else {
        t
    }
}

/// The pending messages registered less than `timeout` seconds before `now`.
pub open spec fn prune_pending(p: Seq<(u128, Timestamp)>, timeout: u64, now: Timestamp) -> Seq<(u128, Timestamp)>
    decreases p.len(),
{
    if p.len() == 0 {
        Seq::empty()
    } else {
        let rest = prune_pending(p.drop_last(), timeout, now);
        if spec_elapsed_secs(p.last().1, now) < timeout {
            rest.push(p.last())
        } else {
            rest
        }
    }
}

/// Expiry keeps exactly the pending messages registered less than `timeout`
/// whole seconds before `now`, each judged by its own registration time,
/// in the order they were registered: the result is the pending list
/// filtered by that age; every entry it holds was pending; and a pending
/// entry is kept exactly when it is that recent.
pub proof fn lemma_prune_keeps_recent(p: Seq<(u128, Timestamp)>, timeout: u64, now: Timestamp)
    ensures
        prune_pending(p, timeout, now) == p.filter(|e: (u128, Timestamp)| spec_elapsed_secs(e.1, now) < timeout),
        forall|e: (u128, Timestamp)| #[trigger] prune_pending(p, timeout, now).contains(e) ==> p.contains(e),
        forall|e: (u128, Timestamp)| p.contains(e) ==> (#[trigger] prune_pending(p, timeout, now).contains(e)
            <==> spec_elapsed_secs(e.1, now) < timeout),
    decreases p.len(),
{
    reveal(Seq::filter);
    if p.len() > 0 {
        let q = p.drop_last();
        let l = p.last();
        lemma_prune_keeps_recent(q, timeout, now);
        let rest = prune_pending(q, timeout, now);
        let r = prune_pending(p, timeout, now);
        assert forall|e: (u128, Timestamp)| #[trigger] r.contains(e) implies p.contains(e) by {
            let i = choose|i: int| 0 <= i < r.len() && r[i] == e;
            if i < rest.len() {
                assert(rest[i] == e);
                assert(rest.contains(e));
                let k = choose|k: int| 0 <= k < q.len() && q[k] == e;
                assert(p[k] == e);
            } else {
                assert(p[p.len() - 1] == e);
            }
        }
        assert forall|e: (u128, Timestamp)| p.contains(e) implies (#[trigger] r.contains(e)
            <==> spec_elapsed_secs(e.1, now) < timeout) by {
            let k = choose|k: int| 0 <= k < p.len() && p[k] == e;
            if spec_elapsed_secs(e.1, now) < timeout {
                if k == p.len() - 1 {
                    assert(r[r.len() - 1] == e);
                } else {
                    assert(q[k] == e);
                    assert(q.contains(e));
                    assert(rest.contains(e));
                    let i = choose|i: int| 0 <= i < rest.len() && rest[i] == e;
                    assert(r[i] == e);
                }
            } else if r.contains(e) {
                let i = choose|i: int| 0 <= i < r.len() && r[i] == e;
                if i < rest.len() {
                    assert(rest[i] == e);
                    assert(rest.contains(e));
                    assert(q.contains(e));
                } else {
                    assert(r[i] == l);
                }
            }
        }
    }
}

/// Pruning keeps a tracker well formed: what it keeps was pending, so no
/// message becomes pending twice.
proof fn lemma_prune_pending_wf(p: Seq<(u128, Timestamp)>, timeout: u64, now: Timestamp)
    requires
        pending_ids(p).no_duplicates(),
        forall|j: int| 0 <= j < p.len() ==> (#[trigger] p[j]).1.wf(),
    ensures
        pending_ids(prune_pending(p, timeout, now)).no_duplicates(),
        forall|j: int| 0 <= j < prune_pending(p, timeout, now).len() ==> (#[trigger] prune_pending(p, timeout, now)[j]).1.wf(),
        forall|j: int| 0 <= j < prune_pending(p, timeout, now).len() ==> p.contains(#[trigger] prune_pending(p, timeout, now)[j]),
    decreases p.len(),
{
    if p.len() > 0 {
        let q = p.drop_last();
        assert(pending_ids(q) =~= pending_ids(p).drop_last());
        assert forall|j: int| 0 <= j < q.len() implies (#[trigger] q[j]).1.wf() by {
            assert(q[j] == p[j]);
        }
        lemma_prune_pending_wf(q, timeout, now);
        let rest = prune_pending(q, timeout, now);
        let last = p.last();
        assert forall|j: int| 0 <= j < rest.len() implies p.contains(#[trigger] rest[j]) by {
            let k = choose|k: int| 0 <= k < q.len() && q[k] == rest[j];
            assert(p[k] == rest[j]);
        }
        if spec_elapsed_secs(last.1, now) < timeout {
            let r2 = rest.push(last);
            assert(pending_ids(r2) =~= pending_ids(rest).push(last.0));
            assert forall|j: int| 0 <= j < rest.len() implies (#[trigger] rest[j]).0 != last.0 by {
                let k = choose|k: int| 0 <= k < q.len() && q[k] == rest[j];
                assert(pending_ids(p)[k] == rest[j].0);
                assert(pending_ids(p)[p.len() - 1] == last.0);
            }
            assert forall|a: int, b: int| 0 <= a < r2.len() && 0 <= b < r2.len() && a != b implies
                pending_ids(r2)[a] != pending_ids(r2)[b] by {
                if a < rest.len() && b < rest.len() {
                    assert(pending_ids(rest)[a] != pending_ids(rest)[b]);
                } else if a < rest.len() {
                    assert(rest[a].0 != last.0);
                } else if b < rest.len() {
                    assert(rest[b].0 != last.0);
                }
            }
            assert forall|j: int| 0 <= j < r2.len() implies p.contains(#[trigger] r2[j]) by {
                if j < rest.len() {
                    assert(r2[j] == rest[j]);
                } else {
                    assert(p[p.len() - 1] == r2[j]);
                }
            }
        }
    }
}

/// Tracks outbound messages awaiting acknowledgement.
pub struct AckTracker {
    /// Awaited message identifiers with their send times, each identifier at
    /// most once. A list rather than a hash map: expiry filters every entry,
    /// which is a loop proved here, and vstd gives `HashMap::retain` no
    /// contract.
    pending: Vec<(u128, Timestamp)>,
    acked: Vec<u128>,
    timeout_secs: u64,
}

impl View for AckTracker {
    type V = AckView;

    closed spec fn view(&self) -> AckView {
        AckView { pending: self.pending@, acked: self.acked@, timeout_secs: self.timeout_secs }
    }
}

/// The position of `id` among pending messages, if pending.
fn pending_position(p: &Vec<(u128, Timestamp)>, id: u128) -> (r: Option<usize>)
    ensures
        r matches Some(j) ==> j < p@.len() && p@[j as int].0 == id,
        r is None ==> !pending_ids(p@).contains(id),
{
    let mut j: usize = 0;
    while j < p.len()
        invariant
            0 <= j <= p@.len(),
            forall|k: int| 0 <= k < j ==> (#[trigger] p@[k]).0 != id,
        decreases p@.len() - j,
    {
        if p[j].0 == id {
            return Some(j);
        }
        j = j + 1;
    }
    proof {
        if pending_ids(p@).contains(id) {
            let k = choose|k: int| 0 <= k < pending_ids(p@).len() && pending_ids(p@)[k] == id;
            assert(p@[k].0 == id);
        }
    }
    None
}

impl AckTracker {
    /// An empty tracker with the given timeout in seconds.
    pub fn new(timeout_secs: u64) -> (t: AckTracker)
        ensures
            t@.pending.len() == 0,
            t@.acked.len() == 0,
            t@.timeout_secs == timeout_secs,
            t@.wf(),
    {
        let t = AckTracker { pending: Vec::new(), acked: Vec::new(), timeout_secs };
        assert(pending_ids(t@.pending) =~= Seq::<u128>::empty());
        t
    }

    /// Registers `msg_id` as awaiting acknowledgement since `now` (restarting
    /// its clock if it already was).
    pub fn register_at(&mut self, msg_id: u128, now: Timestamp)
        requires
            old(self)@.wf(),
            now.wf(),
        ensures
            final(self)@.wf(),
            final(self)@.acked == old(self)@.acked,
            final(self)@.timeout_secs == old(self)@.timeout_secs,
            final(self)@.pending == if old(self)@.is_pending(msg_id) {
                old(self)@.pending.update(
                    pending_ids(old(self)@.pending).index_of(msg_id),
                    (msg_id, now),
                )
            } else {
                old(self)@.pending.push((msg_id, now))
            },
    {
        let ghost old_p = self.pending@;
        match pending_position(&self.pending, msg_id) {
            Some(j) => {
                proof {
                    let ids = pending_ids(old_p);
                    assert(ids[j as int] == msg_id);
                    assert(ids.index_of(msg_id) == j as int) by {
                        assert(ids.contains(msg_id));
                        let f = ids.index_of(msg_id);
                        assert(ids[f] == msg_id);
                    }
                }
                self.pending.set(j, (msg_id, now));
                proof {
                    assert(pending_ids(self.pending@) =~= pending_ids(old_p));
                }
            },
            None => {
                self.pending.push((msg_id, now));
                proof {
                    assert(pending_ids(self.pending@) =~= pending_ids(old_p).push(msg_id));
                }
            },
        }
    }

    /// Registers `msg_id` as awaiting acknowledgement from now on.
    pub fn register(&mut self, msg_id: u128)
        requires
            old(self)@.wf(),
        ensures
            final(self)@.wf(),
            final(self)@.is_pending(msg_id),
            final(self)@.acked == old(self)@.acked,
            final(self)@.timeout_secs == old(self)@.timeout_secs,
            exists|now: Timestamp| now.wf() && final(self)@.pending == if old(self)@.is_pending(msg_id) {
                old(self)@.pending.update(pending_ids(old(self)@.pending).index_of(msg_id), (msg_id, now))
            } else {
                old(self)@.pending.push((msg_id, now))
            },
    {
        let now = now_timestamp();
        self.register_at(msg_id, now);
        proof {
            if old(self)@.is_pending(msg_id) {
                let ids = pending_ids(old(self)@.pending);
                let f = ids.index_of(msg_id);
                assert(pending_ids(self@.pending)[f] == msg_id);
            } else {
                assert(pending_ids(self@.pending)[self@.pending.len() - 1] == msg_id);
            }
        }
    }

    /// Takes in an acknowledgement: if its message was pending, it is no
    /// longer, it is recorded as acknowledged, and true is returned;
    /// otherwise nothing changes and false is returned.
    pub fn receive_ack(&mut self, ack: &Ack) -> (known: bool)
        requires
            old(self)@.wf(),
        ensures
            known == old(self)@.is_pending(ack_id(*ack)),
            final(self)@.wf(),
            final(self)@.timeout_secs == old(self)@.timeout_secs,
            final(self)@ == ack_received(old(self)@, ack_id(*ack)),
    {
        let id = match ack {
            Ack::Ack(id) => *id,
            Ack::Nack(id) => *id,
        };
        let ghost old_p = self.pending@;
        match pending_position(&self.pending, id) {
            Some(j) => {
                proof {
                    let ids = pending_ids(old_p);
                    assert(ids[j as int] == id);
                    assert(ids.index_of(id) == j as int) by {
                        assert(ids.contains(id));
                        let f = ids.index_of(id);
                        assert(ids[f] == id);
                    }
                }
                let _ = self.pending.remove(j);
                proof {
                    assert(pending_ids(self.pending@) =~= pending_ids(old_p).remove(j as int));
                }
                self.acked.push(id);
                true
            },
            None => false,
        }
    }

    /// Whether `id` has been acknowledged.
    pub fn is_acked(&self, id: &u128) -> (r: bool)
        ensures
            r == self@.acked.contains(*id),
    {
        let mut j: usize = 0;
        while j < self.acked.len()
            invariant
                0 <= j <= self.acked@.len(),
                forall|k: int| 0 <= k < j ==> self.acked@[k] != *id,
            decreases self.acked@.len() - j,
        {
            if self.acked[j] == *id {
                return true;
            }
            j = j + 1;
        }
        false
    }

    /// Number of messages awaiting acknowledgement.
    pub fn pending_count(&self) -> (n: usize)
        ensures
            n == self@.pending.len(),
    {
        self.pending.len()
    }

    /// Number of messages acknowledged.
    pub fn acked_count(&self) -> (n: usize)
        ensures
            n == self@.acked.len(),
    {
        self.acked.len()
    }

    /// Forgets pending messages registered `timeout_secs` or more seconds
    /// before `now`.
    pub fn prune_expired_at(&mut self, now: Timestamp)
        requires
            old(self)@.wf(),
            now.wf(),
        ensures
            final(self)@.pending == prune_pending(old(self)@.pending, old(self)@.timeout_secs, now),
            final(self)@.acked == old(self)@.acked,
            final(self)@.timeout_secs == old(self)@.timeout_secs,
            final(self)@.wf(),
    {
        proof {
            lemma_prune_pending_wf(self@.pending, self@.timeout_secs, now);
        }
        let ghost old_p = self.pending@;
        let mut kept: Vec<(u128, Timestamp)> = Vec::new();
        let mut j: usize = 0;
        assert(old_p.take(0) =~= Seq::<(u128, Timestamp)>::empty());
        while j < self.pending.len()
            invariant
                0 <= j <= self.pending@.len(),
                self.pending@ == old_p,
                old(self)@.wf(),
                old_p == old(self)@.pending,
                now.wf(),
                kept@ == prune_pending(old_p.take(j as int), self.timeout_secs, now),
            decreases self.pending@.len() - j,
        {
            proof {
                assert(old_p.take(j + 1).drop_last() =~= old_p.take(j as int));
                assert(old_p[j as int].1.wf());
            }
            let e = self.pending[j];
            if elapsed_secs(e.1, now) < self.timeout_secs {
                kept.push(e);
            }
            j = j + 1;
        }
        assert(old_p.take(old_p.len() as int) =~= old_p);
        self.pending = kept;
    }

    /// Forgets pending messages that timed out by now.
    pub fn prune_expired(&mut self)
        requires
            old(self)@.wf(),
        ensures
            exists|now: Timestamp| now.wf() && final(self)@.pending == prune_pending(old(self)@.pending, old(self)@.timeout_secs, now),
            final(self)@.acked == old(self)@.acked,
            final(self)@.timeout_secs == old(self)@.timeout_secs,
            final(self)@.wf(),
    {
        let now = now_timestamp();
        self.prune_expired_at(now);
    }

    /// The numbers of pending and of acknowledged messages.
    pub fn stats(&self) -> (r: (usize, usize))
        ensures
            r == (self@.pending.len() as usize, self@.acked.len() as usize),
    {
        (self.pending.len(), self.acked.len())
    }
}

/// Registering a message that was not pending and then taking in an
/// acknowledgement for it leaves the pending messages as they were before
/// the registration and records the message as acknowledged.
pub proof fn lemma_register_then_ack(t: AckView, id: u128, now: Timestamp)
    requires
        t.wf(),
        !t.is_pending(id),
    ensures
        ({
            let registered = AckView { pending: t.pending.push((id, now)), ..t };
            let after = ack_received(registered, id);
            &&& registered.is_pending(id)
            &&& after.pending == t.pending
            &&& after.acked == t.acked.push(id)
            &&& after.acked.contains(id)
            &&& after.timeout_secs == t.timeout_secs
        }),
{
    let p = t.pending.push((id, now));
    assert(pending_ids(p) =~= pending_ids(t.pending).push(id));
    assert(pending_ids(p)[p.len() - 1] == id);
    let f = pending_ids(p).index_of(id);
    assert(pending_ids(p)[f] == id);
    if f < p.len() - 1 {
        assert(pending_ids(t.pending)[f] == id);
        assert(false);
    }
    assert(p.remove(f) =~= t.pending);
    assert(t.acked.push(id)[t.acked.len() as int] == id);
}

} // verus!

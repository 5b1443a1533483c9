//! The routed unit of the mesh: an envelope with its header, hop accounting
//! and (encrypted, signed) payload.
use vstd::prelude::*;
use crate::clock::{Timestamp, now_timestamp, elapsed_secs, spec_elapsed_secs, NANOS_PER_SEC};
use crate::ids::new_msg_id;

verus! {

/// Delivery priority of an envelope.
#[derive(Clone, Copy, Debug, PartialEq, Eq, Structural)]
pub enum Priority {
    Critical,
    High,
    Normal,
    Low,
}

/// Lifetime of a freshly created envelope, in seconds.
pub const DEFAULT_ENVELOPE_TTL_SECS: u64 = 300;

/// Hop limit of a freshly created envelope.
pub const DEFAULT_MAX_HOPS: u8 = 10;

/// A message as it travels through the mesh.
#[derive(Debug)]
pub struct Envelope {
    pub msg_id: u128,
    pub sender_id: String,
    pub created_at: Timestamp,
    pub ttl_secs: u64,
    pub hop_count: u8,
    pub max_hops: u8,
    pub priority: Priority,
    /// Encrypted payload on the wire; plaintext once accepted by a router.
    pub payload: Vec<u8>,
    pub sender_pubkey: [u8; 32],
    pub signature: Vec<u8>,
    pub nonce: [u8; 12],
}

/// The mathematical content of an envelope: its fields with byte strings
/// and text taken as sequences.
pub struct EnvelopeView {
    pub msg_id: u128,
    pub sender_id: Seq<char>,
    pub created_at: Timestamp,
    pub ttl_secs: u64,
    pub hop_count: u8,
    pub max_hops: u8,
    pub priority: Priority,
    pub payload: Seq<u8>,
    pub sender_pubkey: Seq<u8>,
    pub signature: Seq<u8>,
    pub nonce: Seq<u8>,
}

impl View for Envelope {
    type V = EnvelopeView;

    open spec fn view(&self) -> EnvelopeView {
        EnvelopeView {
            msg_id: self.msg_id,
            sender_id: self.sender_id@,
            created_at: self.created_at,
            ttl_secs: self.ttl_secs,
            hop_count: self.hop_count,
            max_hops: self.max_hops,
            priority: self.priority,
            payload: self.payload@,
            sender_pubkey: self.sender_pubkey@,
            signature: self.signature@,
            nonce: self.nonce@,
        }
    }
}

impl EnvelopeView {
    /// Whether the envelope has outlived its lifetime at time `now`: more
    /// whole seconds have passed since its creation than `ttl_secs`.
    pub open spec fn expired_at(self, now: Timestamp) -> bool {
        spec_elapsed_secs(self.created_at, now) > self.ttl_secs
    }
}

impl Envelope {
    /// The fields that every envelope made by `new` has, whatever identifier
    /// and creation time it drew.
    pub open spec fn is_fresh(self, sender: String, priority: Priority, payload: Seq<u8>) -> bool {
        &&& self.sender_id@ == sender@
        &&& self.created_at.wf()
        &&& self.ttl_secs == DEFAULT_ENVELOPE_TTL_SECS
        &&& self.hop_count == 0
        &&& self.max_hops == DEFAULT_MAX_HOPS
        &&& self.priority == priority
        &&& self.payload@ == payload
        &&& self.sender_pubkey@ == Seq::new(32, |i: int| 0u8)
        &&& self.signature@ == Seq::new(64, |i: int| 0u8)
        &&& self.nonce@ == Seq::new(12, |i: int| 0u8)
    }

    /// A new envelope with a random identifier, stamped with the current
    /// time, a lifetime of five minutes and a hop limit of ten, and with its
    /// security fields zeroed until a router seals it.
    pub fn new(sender: String, priority: Priority, payload: Vec<u8>) -> (env: Envelope)
        ensures
            env.is_fresh(sender, priority, payload@),
    {
        let ghost sender_view = sender@;
        let msg_id = new_msg_id();
        let created_at = now_timestamp();
        let env = Envelope {
            msg_id,
            sender_id: sender,
            created_at,
            ttl_secs: DEFAULT_ENVELOPE_TTL_SECS,
            hop_count: 0,
            max_hops: DEFAULT_MAX_HOPS,
            priority,
            payload,
            sender_pubkey: [0u8; 32],
            signature: vec![0u8; 64],
            nonce: [0u8; 12],
        };
        assert(env.sender_pubkey@ =~= Seq::new(32, |i: int| 0u8));
        assert(env.signature@ =~= Seq::new(64, |i: int| 0u8));
        assert(env.nonce@ =~= Seq::new(12, |i: int| 0u8));
        env
    }

    /// A field-by-field copy of the envelope.
    pub fn duplicate(&self) -> (r: Envelope)
        ensures
            r@ == self@,
    {
        let payload = self.payload.clone();
        let signature = self.signature.clone();
        assert(payload@ =~= self.payload@);
        assert(signature@ =~= self.signature@);
        Envelope {
            msg_id: self.msg_id,
            sender_id: self.sender_id.clone(),
            created_at: self.created_at,
            ttl_secs: self.ttl_secs,
            hop_count: self.hop_count,
            max_hops: self.max_hops,
            priority: self.priority,
            payload,
            sender_pubkey: self.sender_pubkey,
            signature,
            nonce: self.nonce,
        }
    }

    /// Whether the envelope has outlived its lifetime at time `now`.
    pub fn expired_at(&self, now: Timestamp) -> (r: bool)
        requires
            self.created_at.wf(),
            now.wf(),
        ensures
            r == self@.expired_at(now),
    {
        elapsed_secs(self.created_at, now) > self.ttl_secs
    }

    /// Whether the envelope has outlived its lifetime now, by the system clock.
    pub fn expired(&self) -> (r: bool)
        requires
            self.created_at.wf(),
        ensures
            exists|now: Timestamp| now.wf() && r == self@.expired_at(now),
    {
        let now = now_timestamp();
        self.expired_at(now)
    }

    /// Counts one more hop, unless the hop limit is reached; reports whether
    /// it did.
    pub fn next_hop(&mut self) -> (moved: bool)
        ensures
            moved == (old(self).hop_count < old(self).max_hops),
            final(self).hop_count == if moved { old(self).hop_count + 1 } else { old(self).hop_count as int },
            final(self)@ == (EnvelopeView { hop_count: final(self).hop_count, ..old(self)@ }),
    {
        if self.hop_count >= self.max_hops {
            return false;
        }
        self.hop_count = self.hop_count + 1;
        true
    }
}

/// Expiry is permanent: an envelope expired at some time is expired at
/// every later time.
pub proof fn lemma_expiry_monotone(e: EnvelopeView, t1: Timestamp, t2: Timestamp)
    requires
        e.expired_at(t1),
        t1.total_nanos() <= t2.total_nanos(),
    ensures
        e.expired_at(t2),
{
    let c = e.created_at.total_nanos();
    let a = t1.total_nanos() - c;
    let b = t2.total_nanos() - c;
    assert(a / (NANOS_PER_SEC as int) <= b / (NANOS_PER_SEC as int)) by (nonlinear_arith)
        requires
            0 <= a <= b,
    {
    }
}

} // verus!

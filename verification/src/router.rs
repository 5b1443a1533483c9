//! The secure routing core: sealing local alerts, and the receive pipeline
//! (verify signature → reject replays → decrypt → deduplicate → forward).
use vstd::prelude::*;
use crate::clock::{Timestamp, now_timestamp};
use crate::envelope::{Envelope, EnvelopeView, Priority};
use crate::priority_queue::{PriorityQueue, QueueView, burst};
use crate::ids::{id_bytes, msg_id_to_bytes};
use crate::dedup::{DedupCache, DedupView};
use crate::crypto::encrypt::{encrypt, decrypt, SymKey, aead_seal, aead_open, sealable, TAG_LEN};
use crate::crypto::keys::NodeKeys;
use crate::crypto::replay::{ReplayGuard, ReplayView, sha256_digest};
use crate::crypto::sign::{
    sign_message, verify_message, signature_from_bytes, signature_to_bytes, ed_verifies,
    ed_signature, ed_public_key,
};
use crate::lru_cache::lru_put;
use crate::propagation::{should_forward_at, spec_should_forward_at};

verus! {

/// What one tick of the sending side asks the caller to do.
#[derive(Debug)]
pub enum TickAction {
    /// Nothing was queued.
    Idle,
    /// Send the envelope to the connected peers.
    Send(Envelope),
    /// No peer is connected: store the envelope under the given key.
    Persist([u8; 16], Envelope),
}

/// Capacity of a router's deduplication cache.
pub const DEDUP_CAPACITY: usize = 50_000;

/// Capacity of a router's replay guard.
pub const REPLAY_CAPACITY: usize = 50_000;

/// The bytes an envelope's signature covers: the payload followed by the
/// nonce.
pub open spec fn sign_input(env: EnvelopeView) -> Seq<u8> {
    env.payload + env.nonce
}

/// The envelope carries a 64-byte signature that verifies under the public
/// key it names.
pub open spec fn signature_valid(env: EnvelopeView) -> bool {
    env.signature.len() == 64 && ed_verifies(env.sender_pubkey, sign_input(env), env.signature)
}

/// The envelope with its payload replaced.
pub open spec fn with_payload(env: EnvelopeView, payload: Seq<u8>) -> EnvelopeView {
    EnvelopeView { payload, ..env }
}

/// The envelope as a router seals it for sending: payload encrypted under
/// `key` with `nonce`, the router's public key attached, and payload and
/// nonce signed with its secret key.
pub open spec fn sealed(env: EnvelopeView, key: Seq<u8>, nonce: Seq<u8>, secret: Seq<u8>) -> EnvelopeView {
    let ct = aead_seal(key, nonce, env.payload);
    EnvelopeView {
        payload: ct,
        nonce,
        sender_pubkey: ed_public_key(secret),
        signature: ed_signature(secret, ct + nonce),
        ..env
    }
}

/// A sealed envelope decrypts under `key` to `plaintext` and carries a valid
/// signature.
pub open spec fn sealed_opens(s: EnvelopeView, key: Seq<u8>, plaintext: Seq<u8>) -> bool {
    &&& aead_open(key, s.nonce, s.payload) == Some(plaintext)
    &&& signature_valid(s)
}

/// The state of a router.
pub struct RouterView {
    pub dedup: DedupView,
    pub queue: QueueView,
    pub secret: Seq<u8>,
    pub public: Seq<u8>,
    pub sym_key: Seq<u8>,
    pub replay: ReplayView,
}

impl RouterView {
    /// The caches are well formed and the key pair matches.
    pub open spec fn wf(self) -> bool {
        &&& self.queue.wf()
        &&& self.dedup.wf()
        &&& self.replay.wf()
        &&& self.public == ed_public_key(self.secret)
    }

    /// The router after it has noted `id` in its deduplication cache.
    pub open spec fn note_id(self, id: u128) -> RouterView {
        if self.dedup.ids.contains(id) {
            self
        } else {
            RouterView { dedup: DedupView { ids: lru_put(self.dedup.ids, self.dedup.cap, id), ..self.dedup }, ..self }
        }
    }

    /// The router after it has remembered the digest `d` in its replay guard.
    pub open spec fn note_digest(self, d: Seq<u8>) -> RouterView {
        RouterView { replay: ReplayView { digests: lru_put(self.replay.digests, self.replay.cap, d), ..self.replay }, ..self }
    }

    /// The router after its outbound queue was popped.
    pub open spec fn after_send(self) -> RouterView {
        RouterView { queue: self.queue.after_pop(), ..self }
    }

    /// The router after `env` was appended to its outbound queue.
    pub open spec fn enqueue(self, env: EnvelopeView) -> RouterView {
        RouterView { queue: self.queue.with_lane(env.priority, self.queue.lane(env.priority).push(env)), ..self }
    }
}

/// What receiving `env` at time `now` does to a router, and what it delivers
/// to the local alert sink. The checks run in this order: the envelope must
/// carry a valid signature (else nothing changes); its signed material must
/// not repeat material already accepted (else nothing changes), and is then
/// remembered; it must decrypt under the shared key; its identifier must not
/// have been delivered before, and is then noted; it must still be
/// forwardable. Then the plaintext envelope is delivered, and queued again
/// with one more hop.
pub open spec fn receive_result(r: RouterView, env: EnvelopeView, now: Timestamp) -> (RouterView, Option<EnvelopeView>) {
    let d = sha256_digest(sign_input(env));
    if !signature_valid(env) {
        (r, None)
    } else if r.replay.digests.contains(d) {
        (r, None)
    } else {
        let r1 = r.note_digest(d);
        match aead_open(r.sym_key, env.nonce, env.payload) {
            None => (r1, None),
            Some(pt) => {
                if r.dedup.ids.contains(env.msg_id) {
                    (r1, None)
                } else {
                    let r2 = r1.note_id(env.msg_id);
                    let e1 = with_payload(env, pt);
                    if !spec_should_forward_at(e1, now) {
                        (r2, None)
                    } else {
                        (r2.enqueue(EnvelopeView { hop_count: (e1.hop_count + 1) as u8, ..e1 }), Some(e1))
                    }
                }
            },
        }
    }
}

/// An envelope sealed under the receiver's shared key (as `enqueue_local`
/// seals it), whose identifier and signed material the receiver has not
/// seen and which is still forwardable, is accepted: its plaintext is
/// delivered, it is queued once more with one more hop, and a second copy of
/// it arriving later is dropped.
pub proof fn lemma_sealed_envelope_accepted_once(
    r: RouterView,
    s: EnvelopeView,
    plaintext: Seq<u8>,
    now: Timestamp,
    later: Timestamp,
)
    requires
        r.wf(),
        s.created_at.wf(),
        sealed_opens(s, r.sym_key, plaintext),
        !r.dedup.ids.contains(s.msg_id),
        !r.replay.digests.contains(sha256_digest(sign_input(s))),
        spec_should_forward_at(with_payload(s, plaintext), now),
    ensures
        receive_result(r, s, now).1 == Some(with_payload(s, plaintext)),
        receive_result(r, s, now).0.queue == r.queue.with_lane(
            s.priority,
            r.queue.lane(s.priority).push(
                EnvelopeView { hop_count: (s.hop_count + 1) as u8, ..with_payload(s, plaintext) },
            ),
        ),
        receive_result(r, s, now).0.wf(),
        receive_result(receive_result(r, s, now).0, s, later).1 is None,
        receive_result(receive_result(r, s, now).0, s, later).0 == receive_result(r, s, now).0,
{
    crate::dedup::lemma_second_sighting_is_duplicate(r.dedup, s.msg_id);
    crate::priority_queue::lemma_push_keeps_wf(
        r.queue,
        EnvelopeView { hop_count: (s.hop_count + 1) as u8, ..with_payload(s, plaintext) },
    );
    crate::dedup::lemma_lru_put_absent(r.replay.digests, r.replay.cap, sha256_digest(sign_input(s)));
}

/// Whatever arrives, a router stays well formed. An envelope whose
/// signature does not verify, or whose signed material was already
/// accepted, changes nothing, so a forgery cannot block the genuine envelope
/// with its identifier. Nothing is delivered that does not decrypt under the
/// shared key, whose identifier was already delivered, that has expired or
/// that is at its hop limit; what is delivered is the decrypted envelope,
/// still forwardable, and the copy queued for forwarding carries one more
/// hop, at most the limit.
pub proof fn lemma_receive_rejects(r: RouterView, env: EnvelopeView, now: Timestamp)
    requires
        r.wf(),
        env.created_at.wf(),
    ensures
        receive_result(r, env, now).0.wf(),
        !signature_valid(env) ==> receive_result(r, env, now) == (r, None::<EnvelopeView>),
        r.replay.digests.contains(sha256_digest(sign_input(env))) ==> receive_result(r, env, now) == (r, None::<EnvelopeView>),
        aead_open(r.sym_key, env.nonce, env.payload) is None ==> receive_result(r, env, now).1 is None,
        aead_open(r.sym_key, env.nonce, env.payload) is None ==> receive_result(r, env, now).0.dedup == r.dedup,
        r.dedup.ids.contains(env.msg_id) ==> receive_result(r, env, now).1 is None,
        env.hop_count >= env.max_hops ==> receive_result(r, env, now).1 is None,
        env.expired_at(now) ==> receive_result(r, env, now).1 is None,
        receive_result(r, env, now).1 matches Some(d) ==> {
            &&& aead_open(r.sym_key, env.nonce, env.payload) == Some(d.payload)
            &&& d == with_payload(env, d.payload)
            &&& spec_should_forward_at(d, now)
            &&& d.hop_count < d.max_hops
            &&& receive_result(r, env, now).0.queue.lane(d.priority).last()
                == (EnvelopeView { hop_count: (d.hop_count + 1) as u8, ..d })
        },
{
    if signature_valid(env) && !r.replay.digests.contains(sha256_digest(sign_input(env))) {
        crate::dedup::lemma_lru_put_absent(r.replay.digests, r.replay.cap, sha256_digest(sign_input(env)));
        match aead_open(r.sym_key, env.nonce, env.payload) {
            Some(pt) => {
                if !r.dedup.ids.contains(env.msg_id) {
                    crate::dedup::lemma_lru_put_absent(r.dedup.ids, r.dedup.cap, env.msg_id);
                    let e1 = with_payload(env, pt);
                    crate::priority_queue::lemma_push_keeps_wf(r.queue, EnvelopeView { hop_count: (e1.hop_count + 1) as u8, ..e1 });
                }
            },
            None => {},
        }
    }
}

/// A router delivers a message at most once: once an envelope was
/// delivered, its identifier is noted, and no envelope with the same
/// identifier is delivered afterwards.
pub proof fn lemma_receive_at_most_once(r: RouterView, env: EnvelopeView, again: EnvelopeView, t1: Timestamp, t2: Timestamp)
    requires
        r.wf(),
        env.created_at.wf(),
        again.msg_id == env.msg_id,
        receive_result(r, env, t1).1 is Some,
    ensures
        receive_result(r, env, t1).0.dedup.ids.contains(env.msg_id),
        receive_result(receive_result(r, env, t1).0, again, t2).1 is None,
{
    crate::dedup::lemma_lru_put_absent(r.dedup.ids, r.dedup.cap, env.msg_id);
}

/// The routing core of a node.
pub struct Router {
    dedup: DedupCache,
    queue: PriorityQueue,
    keys: NodeKeys,
    sym_key: SymKey,
    replay: ReplayGuard,
}

impl View for Router {
    type V = RouterView;

    closed spec fn view(&self) -> RouterView {
        RouterView {
            dedup: self.dedup@,
            queue: self.queue@,
            secret: self.keys.secret(),
            public: self.keys.public(),
            sym_key: self.sym_key@,
            replay: self.replay@,
        }
    }
}

/// The signed bytes of an envelope: payload followed by nonce.
fn signed_bytes(env: &Envelope) -> (b: Vec<u8>)
    ensures
        b@ == sign_input(env@),
{
    let mut b = env.payload.clone();
    b.extend_from_slice(&env.nonce);
    assert(b@ =~= sign_input(env@));
    b
}

/// The signature bytes as a 64-byte array, when there are exactly 64 of them.
fn signature_array(sig: &Vec<u8>) -> (r: Option<[u8; 64]>)
    ensures
        r is Some <==> sig@.len() == 64,
        r matches Some(a) ==> a@ == sig@,
{
    if sig.len() != 64 {
        return None;
    }
    let mut a = [0u8; 64];
    let mut i: usize = 0;
    while i < 64
        invariant
            0 <= i <= 64,
            sig@.len() == 64,
            forall|j: int| 0 <= j < i ==> a@[j] == sig@[j],
        decreases 64 - i,
    {
        a[i] = sig[i];
        i = i + 1;
    }
    assert(a@ =~= sig@);
    Some(a)
}

impl Router {
    /// A router with the given identity and shared key, empty caches of
    /// 50 000 entries and an empty outbound queue.
    pub fn new(keys: NodeKeys, sym_key: SymKey) -> (r: Router)
        ensures
            r@.wf(),
            r@.secret == keys.secret(),
            r@.public == keys.public(),
            r@.sym_key == sym_key@,
            r@.dedup.ids.len() == 0,
            r@.dedup.cap == DEDUP_CAPACITY,
            r@.replay.digests.len() == 0,
            r@.replay.cap == REPLAY_CAPACITY,
            r@.queue.is_empty(),
    {
        Self::with_capacities(keys, sym_key, DEDUP_CAPACITY, REPLAY_CAPACITY)
    }

    /// A router with the given identity and shared key, an empty
    /// deduplication cache of `dedup_cap` identifiers, an empty replay guard
    /// of `replay_cap` digests and an empty outbound queue.
    pub fn with_capacities(keys: NodeKeys, sym_key: SymKey, dedup_cap: usize, replay_cap: usize) -> (r: Router)
        requires
            dedup_cap > 0,
            replay_cap > 0,
        ensures
            r@.wf(),
            r@.secret == keys.secret(),
            r@.public == keys.public(),
            r@.sym_key == sym_key@,
            r@.dedup.ids.len() == 0,
            r@.dedup.cap == dedup_cap,
            r@.replay.digests.len() == 0,
            r@.replay.cap == replay_cap,
            r@.queue.is_empty(),
    {
        proof {
            use_type_invariant(&keys);
        }
        Router {
            dedup: DedupCache::new(dedup_cap),
            queue: PriorityQueue::new(),
            keys,
            sym_key,
            replay: ReplayGuard::new(replay_cap),
        }
    }

    /// Seals a locally created envelope (encrypts its payload under the
    /// shared key with a fresh nonce, attaches this node's public key and
    /// signs payload and nonce) and queues it for sending. Fails, leaving the
    /// router as it was, only when the payload is too long to encrypt.
    pub fn enqueue_local(&mut self, env: Envelope) -> (res: Result<(), String>)
        requires
            old(self)@.wf(),
            env.created_at.wf(),
        ensures
            res is Ok <==> sealable(env@.payload.len()),
            res is Err ==> final(self)@ == old(self)@,
            res matches Err(e) ==> e@ == "encrypt failed"@,
            res is Ok ==> exists|nonce: Seq<u8>|
                #![trigger sealed(env@, old(self)@.sym_key, nonce, old(self)@.secret)]
                {
                    &&& nonce.len() == 12
                    &&& sealed(env@, old(self)@.sym_key, nonce, old(self)@.secret).payload.len() == env@.payload.len() + TAG_LEN
                    &&& final(self)@ == old(self)@.enqueue(sealed(env@, old(self)@.sym_key, nonce, old(self)@.secret))
                    &&& sealed_opens(sealed(env@, old(self)@.sym_key, nonce, old(self)@.secret), old(self)@.sym_key, env@.payload)
                },
            final(self)@.wf(),
    {
        let mut env = env;
        let ghost plain = env@;
        let (ct, nonce) = match encrypt(&self.sym_key, &env.payload) {
            Ok(sealed) => sealed,
            Err(_) => return Err("encrypt failed".to_string()),
        };
        env.payload = ct;
        env.nonce = nonce;
        env.sender_pubkey = self.keys.public_bytes();
        let sign_bytes = signed_bytes(&env);
        let sig = sign_message(self.keys.signing_key(), sign_bytes.as_slice());
        let sig_bytes = signature_to_bytes(&sig);
        let mut sig_vec: Vec<u8> = Vec::new();
        sig_vec.extend_from_slice(&sig_bytes);
        env.signature = sig_vec;
        proof {
            let s = sealed(plain, self@.sym_key, nonce@, self@.secret);
            assert(env.signature@ =~= sig_bytes@);
            assert(env@ == s);
            crate::priority_queue::lemma_push_keeps_wf(self@.queue, env@);
        }
        self.queue.push(env);
        Ok(())
    }

    /// Runs the receive pipeline on `env` at time `now`; see
    /// `receive_result`. Returns the accepted plaintext envelope, which the
    /// caller hands to the local alert index.
    pub fn receive_at(&mut self, env: Envelope, now: Timestamp) -> (delivered: Option<Envelope>)
        requires
            old(self)@.wf(),
            env.created_at.wf(),
            now.wf(),
        ensures
            final(self)@ == receive_result(old(self)@, env@, now).0,
            delivered is Some <==> receive_result(old(self)@, env@, now).1 is Some,
            delivered matches Some(d) ==> receive_result(old(self)@, env@, now).1 == Some(d@),
            final(self)@.wf(),
    {
        let mut env = env;
        let sign_bytes = signed_bytes(&env);
        let sig_arr = match signature_array(&env.signature) {
            Some(a) => a,
            None => return None,
        };
        let sig = signature_from_bytes(&sig_arr);
        if !verify_message(&env.sender_pubkey, sign_bytes.as_slice(), &sig) {
            return None;
        }
        if !self.replay.check_and_insert(sign_bytes.as_slice()) {
            return None;
        }
        let pt = match decrypt(&self.sym_key, &env.nonce, &env.payload) {
            Ok(p) => p,
            Err(_) => return None,
        };
        if self.dedup.seen(env.msg_id) {
            return None;
        }
        env.payload = pt;
        if !should_forward_at(&env, now) {
            return None;
        }
        proof {
            crate::priority_queue::lemma_push_keeps_wf(self@.queue, env@);
        }
        let delivered = env.duplicate();
        let _ = env.next_hop();
        self.queue.push(env);
        Some(delivered)
    }

    /// Runs the receive pipeline on `env` at the current time.
    pub fn receive(&mut self, env: Envelope) -> (delivered: Option<Envelope>)
        requires
            old(self)@.wf(),
            env.created_at.wf(),
        ensures
            exists|now: Timestamp| {
                &&& now.wf()
                &&& final(self)@ == receive_result(old(self)@, env@, now).0
                &&& (delivered is Some <==> receive_result(old(self)@, env@, now).1 is Some)
                &&& (delivered matches Some(d) ==> receive_result(old(self)@, env@, now).1 == Some(d@))
            },
            final(self)@.wf(),
    {
        let now = now_timestamp();
        self.receive_at(env, now)
    }

    /// The next envelope to send, by the queue's weighted schedule.
    pub fn next_outbound(&mut self) -> (out: Option<Envelope>)
        requires
            old(self)@.wf(),
        ensures
            final(self)@.wf(),
            out matches Some(e) ==> e.created_at.wf(),
            final(self)@ == old(self)@.after_send(),
            out is Some <==> old(self)@.queue.popped() is Some,
            out matches Some(e) ==> old(self)@.queue.popped() == Some(e@),
    {
        proof {
            crate::priority_queue::lemma_pop_keeps_wf(self@.queue);
        }
        self.queue.pop()
    }

    /// One tick of the sending side: takes the next envelope off the queue
    /// and says what to do with it: send it when a peer is connected, else
    /// store it under the 16 bytes of its identifier.
    pub fn tick(&mut self, connected: bool) -> (a: TickAction)
        requires
            old(self)@.wf(),
        ensures
            final(self)@.wf(),
            final(self)@ == old(self)@.after_send(),
            old(self)@.queue.popped() is None ==> a is Idle,
            connected ==> (old(self)@.queue.popped() matches Some(e) ==> (a matches TickAction::Send(x) && x@ == e)),
            !connected ==> (old(self)@.queue.popped() matches Some(e) ==> (a matches TickAction::Persist(key, x)
                && x@ == e && key@ == id_bytes(e.msg_id))),
    {
        match self.next_outbound() {
            None => TickAction::Idle,
            Some(env) => {
                if connected {
                    TickAction::Send(env)
                } else {
                    let key = msg_id_to_bytes(env.msg_id);
                    TickAction::Persist(key, env)
                }
            },
        }
    }

    /// Takes up to `max` envelopes off the queue, stopping at the first pop
    /// that yields nothing; see `burst`.
    pub fn outbound_burst(&mut self, max: usize) -> (out: Vec<Envelope>)
        requires
            old(self)@.wf(),
        ensures
            final(self)@.wf(),
            final(self)@ == (RouterView { queue: burst(old(self)@.queue, max as nat).1, ..old(self)@ }),
            out@.map_values(|e: Envelope| e@) == burst(old(self)@.queue, max as nat).0,
            forall|j: int| 0 <= j < out@.len() ==> (#[trigger] out@[j]).created_at.wf(),
    {
        let ghost r0 = self@;
        let ghost q0 = self@.queue;
        let mut out: Vec<Envelope> = Vec::new();
        let mut i: usize = 0;
        assert(out@.map_values(|e: Envelope| e@) =~= Seq::<EnvelopeView>::empty());
        while i < max
            invariant_except_break
                0 <= i <= max,
                burst(q0, max as nat) == (out@.map_values(|e: Envelope| e@) + burst(self@.queue, (max - i) as nat).0,
                    burst(self@.queue, (max - i) as nat).1),
            invariant
                self@.wf(),
                self@ == (RouterView { queue: self@.queue, ..r0 }),
                forall|j: int| 0 <= j < out@.len() ==> (#[trigger] out@[j]).created_at.wf(),
            ensures
                self@.queue == burst(q0, max as nat).1,
                out@.map_values(|e: Envelope| e@) == burst(q0, max as nat).0,
            decreases max - i,
        {
            let ghost q = self@.queue;
            match self.next_outbound() {
                Some(e) => {
                    let ghost prev = out@;
                    out.push(e);
                    proof {
                        assert(out@.map_values(|x: Envelope| x@) =~= prev.map_values(|x: Envelope| x@).push(e@));
                        let rest = burst(q.after_pop(), (max - i - 1) as nat);
                        assert(burst(q, (max - i) as nat) == (seq![e@] + rest.0, rest.1));
                        assert(out@.map_values(|x: Envelope| x@) + rest.0 =~= prev.map_values(|x: Envelope| x@) + (seq![e@] + rest.0));
                    }
                    i = i + 1;
                },
                None => {
                    proof {
                        assert(burst(q, (max - i) as nat) == (Seq::<EnvelopeView>::empty(), q.after_pop()));
                        assert(out@.map_values(|x: Envelope| x@) + Seq::<EnvelopeView>::empty() =~= out@.map_values(|x: Envelope| x@));
                    }
                    break;
                },
            }
        }
        proof {
            if i == max {
                assert(burst(self@.queue, 0) == (Seq::<EnvelopeView>::empty(), self@.queue));
                assert(out@.map_values(|x: Envelope| x@) + Seq::<EnvelopeView>::empty() =~= out@.map_values(|x: Envelope| x@));
            }
        }
        out
    }

    /// Whether nothing is waiting to be sent.
    pub fn queue_is_empty(&self) -> (r: bool)
        ensures
            r == self@.queue.is_empty(),
    {
        self.queue.is_empty()
    }
}

} // verus!

//! A multi-node mesh simulation in a ring: each step, every node sends its
//! whole outbound queue to both neighbours, then every node runs its receive
//! pipeline over what arrived and records what it accepted.
use vstd::prelude::*;
use crate::api::{AlertSummary, uuid_to_string, uuid_text, summarises};
use crate::crypto::encrypt::SymKey;
use crate::crypto::keys::NodeKeys;
use crate::crypto::random::fill_random;
use crate::envelope::{Envelope, EnvelopeView, Priority};
use crate::router::{Router, RouterView, receive_result};
use crate::priority_queue::{QueueView, drain, drained};
use crate::clock::{Timestamp, now_timestamp};

verus! {

/// Largest number of nodes a simulation may have.
pub const MAX_SIM_NODES: usize = 64;

/// The state of a simulated node.
pub struct SimNodeView {
    pub router: RouterView,
    pub inbox: Seq<EnvelopeView>,
    pub alerts: Seq<EnvelopeView>,
}

/// A running simulation: per node, its router, the envelopes delivered to
/// it but not yet processed, and the alerts it accepted.
pub struct SimMesh {
    routers: Vec<Router>,
    inboxes: Vec<Vec<Envelope>>,
    alerts: Vec<Vec<Envelope>>,
}

/// The contents of a list of envelopes.
pub open spec fn env_views(v: Seq<Envelope>) -> Seq<EnvelopeView> {
    v.map_values(|e: Envelope| e@)
}

impl View for SimMesh {
    type V = Seq<SimNodeView>;

    closed spec fn view(&self) -> Seq<SimNodeView> {
        Seq::new(self.routers@.len(), |i: int| SimNodeView {
            router: self.routers@[i]@,
            inbox: env_views(self.inboxes@[i]@),
            alerts: env_views(self.alerts@[i]@),
        })
    }
}

/// Every router is well formed and every waiting envelope has a well-formed
/// creation time.
pub open spec fn mesh_wf(m: Seq<SimNodeView>) -> bool {
    forall|i: int| 0 <= i < m.len() ==> {
        &&& (#[trigger] m[i]).router.wf()
        &&& forall|j: int| 0 <= j < m[i].inbox.len() ==> (#[trigger] m[i].inbox[j]).created_at.wf()
    }
}

/// Every node shares the symmetric key of node 0.
pub open spec fn shared_key(m: Seq<SimNodeView>) -> bool {
    forall|i: int| 0 <= i < m.len() ==> (#[trigger] m[i]).router.sym_key == m[0].router.sym_key
}

/// The state of a mesh that may not be started.
pub open spec fn mesh_view(m: Option<SimMesh>) -> Option<Seq<SimNodeView>> {
    match m {
        Some(s) => Some(s@),
        None => None,
    }
}

/// The mesh is not started, or it is well formed.
pub open spec fn sim_wf(m: Option<SimMesh>) -> bool {
    match m {
        Some(s) => s.shape() && mesh_wf(s@),
        None => true,
    }
}

impl SimMesh {
    /// The three per-node lists have one entry per node.
    pub closed spec fn shape(&self) -> bool {
        &&& self.inboxes@.len() == self.routers@.len()
        &&& self.alerts@.len() == self.routers@.len()
    }

    proof fn lemma_node(&self, i: int)
        requires
            0 <= i < self.routers@.len(),
        ensures
            self@[i].router == self.routers@[i]@,
            self@[i].inbox == env_views(self.inboxes@[i]@),
            self@[i].alerts == env_views(self.alerts@[i]@),
            self@.len() == self.routers@.len(),
    {
    }
}

/// Starts a simulation of `n` nodes, each with a fresh key pair, all sharing
/// one fresh random symmetric key; `n` must be from 1 to 64.
pub fn sim_start(mesh: &mut Option<SimMesh>, n: usize) -> (r: Result<(), String>)
    ensures
        r is Err <==> (n == 0 || n > MAX_SIM_NODES),
        r matches Err(e) ==> e@ == "n must be 1..64"@ && mesh_view(*final(mesh)) == mesh_view(*old(mesh)),
        r is Ok ==> ({
            &&& *final(mesh) is Some
            &&& mesh_view(*final(mesh)) matches Some(m) && {
                &&& m.len() == n
                &&& mesh_wf(m)
                &&& shared_key(m)
                &&& forall|i: int| 0 <= i < n ==> {
                    &&& (#[trigger] m[i]).inbox.len() == 0
                    &&& m[i].alerts.len() == 0
                    &&& m[i].router.queue.is_empty()
                    &&& m[i].router.dedup.ids.len() == 0
                    &&& m[i].router.replay.digests.len() == 0
                }
            }
        }),
        sim_wf(*old(mesh)) ==> sim_wf(*final(mesh)),
{
    if n == 0 || n > MAX_SIM_NODES {
        return Err("n must be 1..64".to_string());
    }
    let mut sym_key: SymKey = [0u8; 32];
    fill_random(&mut sym_key);
    let mut routers: Vec<Router> = Vec::with_capacity(n);
    let mut inboxes: Vec<Vec<Envelope>> = Vec::with_capacity(n);
    let mut alerts: Vec<Vec<Envelope>> = Vec::with_capacity(n);
    let mut i: usize = 0;
    while i < n
        invariant
            0 <= i <= n,
            routers@.len() == i,
            inboxes@.len() == i,
            alerts@.len() == i,
            forall|k: int| 0 <= k < i ==> {
                &&& (#[trigger] routers@[k])@.wf()
                &&& routers@[k]@.sym_key == sym_key@
                &&& routers@[k]@.queue.is_empty()
                &&& routers@[k]@.dedup.ids.len() == 0
                &&& routers@[k]@.replay.digests.len() == 0
            },
            forall|k: int| 0 <= k < i ==> (#[trigger] inboxes@[k])@.len() == 0,
            forall|k: int| 0 <= k < i ==> (#[trigger] alerts@[k])@.len() == 0,
        decreases n - i,
    {
        let keys = NodeKeys::generate();
        let router = Router::new(keys, sym_key);
        routers.push(router);
        inboxes.push(Vec::new());
        alerts.push(Vec::new());
        i = i + 1;
    }
    let m = SimMesh { routers, inboxes, alerts };
    proof {
        assert forall|k: int| 0 <= k < n implies {
            &&& (#[trigger] m@[k]).inbox.len() == 0
            &&& m@[k].alerts.len() == 0
            &&& m@[k].router.queue.is_empty()
            &&& m@[k].router.dedup.ids.len() == 0
            &&& m@[k].router.replay.digests.len() == 0
        } by {
            m.lemma_node(k);
        }
        assert(mesh_wf(m@)) by {
            assert forall|k: int| 0 <= k < m@.len() implies {
                &&& (#[trigger] m@[k]).router.wf()
                &&& forall|j: int| 0 <= j < m@[k].inbox.len() ==> (#[trigger] m@[k].inbox[j]).created_at.wf()
            } by {
                m.lemma_node(k);
            }
        }
        assert(shared_key(m@)) by {
            m.lemma_node(0);
            assert forall|k: int| 0 <= k < m@.len() implies (#[trigger] m@[k]).router.sym_key == m@[0].router.sym_key by {
                m.lemma_node(k);
            }
        }
    }
    *mesh = Some(m);
    Ok(())
}

/// `m2` is `m` after node `node` sealed and queued a new alert with
/// identifier text `id`, from `sender`, with `priority` and `payload`.
pub open spec fn created_on(
    m: Seq<SimNodeView>,
    m2: Seq<SimNodeView>,
    node: int,
    id: Seq<char>,
    sender: Seq<char>,
    priority: Priority,
    payload: Seq<u8>,
) -> bool {
    exists|env: EnvelopeView, nonce: Seq<u8>| {
        &&& id == uuid_text(env.msg_id)
        &&& env.sender_id == sender
        &&& env.priority == priority
        &&& env.payload == payload
        &&& env.hop_count == 0
        &&& #[trigger] sealed_on(m, node, env, nonce) == m2
    }
}

/// `m` after node `node` sealed `env` with `nonce` and queued it.
pub open spec fn sealed_on(m: Seq<SimNodeView>, node: int, env: EnvelopeView, nonce: Seq<u8>) -> Seq<SimNodeView> {
    m.update(node, SimNodeView {
        router: m[node].router.enqueue(crate::router::sealed(env, m[node].router.sym_key, nonce, m[node].router.secret)),
        ..m[node]
    })
}

/// The bytes of a text, in UTF-8.
fn text_bytes(s: &String) -> (b: Vec<u8>)
    ensures
        b@ == vstd::utf8::encode_utf8(s@),
{
    s.as_str().as_bytes_vec()
}

/// Creates an alert on node `node_id`: a new envelope from `sender` with
/// `priority` and the UTF-8 bytes of `payload`, sealed and queued by that
/// node's router. Returns the alert's identifier as text.
pub fn sim_create_alert(
    mesh: &mut Option<SimMesh>,
    node_id: usize,
    sender: String,
    priority: Priority,
    payload: String,
) -> (r: Result<String, String>)
    requires
        sim_wf(*old(mesh)),
    ensures
        sim_wf(*final(mesh)),
        (*old(mesh) is None) ==> (r matches Err(e) && e@ == "sim not started"@ && *final(mesh) is None),
        mesh_view(*old(mesh)) is Some && node_id >= mesh_view(*old(mesh)).unwrap().len() ==> (r matches Err(e) && e@ == "invalid node_id"@ && mesh_view(*final(mesh)) == mesh_view(*old(mesh))),
        mesh_view(*old(mesh)) is Some && node_id < mesh_view(*old(mesh)).unwrap().len() ==> {
            &&& (r is Ok <==> crate::crypto::encrypt::sealable(vstd::utf8::encode_utf8(payload@).len()))
            &&& (r matches Err(e) ==> e@ == "encrypt failed"@ && mesh_view(*final(mesh)) == mesh_view(*old(mesh)))
            &&& (r matches Ok(id) ==> mesh_view(*final(mesh)) is Some && created_on(
                mesh_view(*old(mesh)).unwrap(),
                mesh_view(*final(mesh)).unwrap(),
                node_id as int,
                id@,
                sender@,
                priority,
                vstd::utf8::encode_utf8(payload@),
            ))
        },
{
    let bytes = text_bytes(&payload);
    let ghost sender_view = sender@;
    let env = Envelope::new(sender, priority, bytes);
    let id = uuid_to_string(env.msg_id);
    let ghost ev = env@;
    let mut m = match mesh.take() {
        Some(m) => m,
        None => return Err("sim not started".to_string()),
    };
    if node_id >= m.routers.len() {
        *mesh = Some(m);
        return Err("invalid node_id".to_string());
    }
    let ghost before = m@;
    let ghost old_routers = m.routers@;
    proof {
        m.lemma_node(node_id as int);
    }
    let mut router = m.routers.remove(node_id);
    let res = router.enqueue_local(env);
    m.routers.insert(node_id, router);
    proof {
        assert(m.routers@ =~= old_routers.update(node_id as int, router));
        assert(m@.len() == before.len());
    }
    match res {
        Ok(()) => {
            proof {
                let ghost nonce = choose|nonce: Seq<u8>| #![trigger crate::router::sealed(ev, before[node_id as int].router.sym_key, nonce, before[node_id as int].router.secret)]
                {
                    &&& nonce.len() == 12
                    &&& m.routers@[node_id as int]@ == before[node_id as int].router.enqueue(crate::router::sealed(ev, before[node_id as int].router.sym_key, nonce, before[node_id as int].router.secret))
                    &&& crate::router::sealed_opens(crate::router::sealed(ev, before[node_id as int].router.sym_key, nonce, before[node_id as int].router.secret), before[node_id as int].router.sym_key, ev.payload)
                };
                assert(m@ =~= sealed_on(before, node_id as int, ev, nonce));
                assert(ev.sender_id == sender_view);
                assert(created_on(before, m@, node_id as int, id@, sender_view, priority, vstd::utf8::encode_utf8(payload@)));
            }
            *mesh = Some(m);
            Ok(id)
        },
        Err(e) => {
            proof {
                assert(m@ =~= before);
            }
            *mesh = Some(m);
            Err(e)
        },
    }
}

/// Summaries of the alerts node `node_id` accepted, in order of acceptance.
pub fn sim_get_alerts(mesh: &Option<SimMesh>, node_id: usize) -> (r: Result<Vec<AlertSummary>, String>)
    requires
        sim_wf(*mesh),
    ensures
        (*mesh is None) ==> (r matches Err(e) && e@ == "sim not started"@),
        mesh_view(*mesh) is Some && node_id >= mesh_view(*mesh).unwrap().len() ==> (r matches Err(e) && e@ == "invalid node_id"@),
        mesh_view(*mesh) is Some && node_id < mesh_view(*mesh).unwrap().len() ==> (r matches Ok(v) && {
            let a = mesh_view(*mesh).unwrap()[node_id as int].alerts;
            &&& v@.len() == a.len()
            &&& forall|k: int| 0 <= k < a.len() ==> summarises(#[trigger] v@[k], a[k])
        }),
{
    let m = match mesh {
        Some(m) => m,
        None => return Err("sim not started".to_string()),
    };
    if node_id >= m.routers.len() {
        return Err("invalid node_id".to_string());
    }
    proof {
        m.lemma_node(node_id as int);
    }
    let alerts = &m.alerts[node_id];
    let mut out: Vec<AlertSummary> = Vec::new();
    let mut k: usize = 0;
    while k < alerts.len()
        invariant
            0 <= k <= alerts@.len(),
            out@.len() == k,
            forall|j: int| 0 <= j < k ==> summarises(#[trigger] out@[j], alerts@[j]@),
        decreases alerts@.len() - k,
    {
        out.push(AlertSummary::from_envelope(&alerts[k]));
        k = k + 1;
    }
    Ok(out)
}

/// The ring neighbour before node `i` of `n`.
pub open spec fn prev_of(i: int, n: int) -> int {
    (i + n - 1) % n
}

/// The ring neighbour after node `i` of `n`.
pub open spec fn next_of(i: int, n: int) -> int {
    (i + 1) % n
}

/// `m` after node `i` drained its outbound queue and every envelope it sent
/// was appended, in order, to the inbox of its previous and of its next ring
/// neighbour (once, when they are the same node).
pub open spec fn send_step(m: Seq<SimNodeView>, i: int) -> Seq<SimNodeView> {
    let n = m.len() as int;
    let sent = drain(m[i].router.queue);
    let p = prev_of(i, n);
    let x = next_of(i, n);
    let m1 = m.update(i, SimNodeView { router: RouterView { queue: drained(m[i].router.queue), ..m[i].router }, ..m[i] });
    let m2 = m1.update(p, SimNodeView { inbox: m1[p].inbox + sent, ..m1[p] });
    if x != p {
        m2.update(x, SimNodeView { inbox: m2[x].inbox + sent, ..m2[x] })
    } else {
        m2
    }
}

/// `m` after nodes `0..k` sent, in order.
pub open spec fn send_phase(m: Seq<SimNodeView>, k: int) -> Seq<SimNodeView>
    decreases k,
{
    if k <= 0 {
        m
    } else {
        send_step(send_phase(m, k - 1), k - 1)
    }
}

/// A router after receiving `inbox` in order, the `j`th envelope at time
/// `times[j]`, and the envelopes it delivered, in order.
pub open spec fn receive_all(r: RouterView, inbox: Seq<EnvelopeView>, times: Seq<Timestamp>) -> (RouterView, Seq<EnvelopeView>)
    decreases inbox.len(),
{
    if inbox.len() == 0 {
        (r, Seq::empty())
    } else {
        let prior = receive_all(r, inbox.drop_last(), times.drop_last());
        let step = receive_result(prior.0, inbox.last(), times.last());
        (step.0, prior.1 + match step.1 {
            Some(d) => seq![d],
            None => Seq::empty(),
        })
    }
}

/// `m` after node `i` received its whole inbox (at the given times),
/// recording what it delivered among its alerts.
pub open spec fn receive_step(m: Seq<SimNodeView>, i: int, times: Seq<Timestamp>) -> Seq<SimNodeView> {
    let res = receive_all(m[i].router, m[i].inbox, times);
    m.update(i, SimNodeView { router: res.0, inbox: Seq::empty(), alerts: m[i].alerts + res.1 })
}

/// `m` after nodes `0..k` received, in order, node `i` at times `times[i]`.
pub open spec fn receive_phase(m: Seq<SimNodeView>, k: int, times: Seq<Seq<Timestamp>>) -> Seq<SimNodeView>
    decreases k,
{
    if k <= 0 {
        m
    } else {
        receive_step(receive_phase(m, k - 1, times), k - 1, times[k - 1])
    }
}

/// The times at which one propagation step lets each node receive: as many
/// well-formed times for each node as its inbox holds after the sending
/// phase.
pub open spec fn valid_times(sent: Seq<SimNodeView>, times: Seq<Seq<Timestamp>>) -> bool {
    &&& times.len() == sent.len()
    &&& forall|i: int| 0 <= i < sent.len() ==> {
        &&& (#[trigger] times[i]).len() == sent[i].inbox.len()
        &&& forall|j: int| 0 <= j < times[i].len() ==> (#[trigger] times[i][j]).wf()
    }
}

/// Pops the router's outbound queue until it yields nothing; returns what it
/// yielded, in order.
fn drain_router(r: &mut Router) -> (sent: Vec<Envelope>)
    requires
        old(r)@.wf(),
    ensures
        final(r)@ == (RouterView { queue: drained(old(r)@.queue), ..old(r)@ }),
        env_views(sent@) == drain(old(r)@.queue),
        final(r)@.wf(),
        forall|j: int| 0 <= j < sent@.len() ==> (#[trigger] sent@[j]).created_at.wf(),
{
    let ghost q0 = r@.queue;
    let ghost r0 = r@;
    let mut sent: Vec<Envelope> = Vec::new();
    assert(env_views(sent@) =~= Seq::<EnvelopeView>::empty());
    loop
        invariant_except_break
            drain(q0) == env_views(sent@) + drain(r@.queue),
            drained(q0) == drained(r@.queue),
        invariant
            r@.wf(),
            r@ == (RouterView { queue: r@.queue, ..r0 }),
            forall|j: int| 0 <= j < sent@.len() ==> (#[trigger] sent@[j]).created_at.wf(),
        ensures
            r@ == (RouterView { queue: drained(q0), ..r0 }),
            env_views(sent@) == drain(q0),
            r@.wf(),
            forall|j: int| 0 <= j < sent@.len() ==> (#[trigger] sent@[j]).created_at.wf(),
        decreases r@.queue.len(),
    {
        let ghost q = r@.queue;
        proof {
            crate::priority_queue::lemma_after_pop_shorter(q);
        }
        match r.next_outbound() {
            Some(e) => {
                let ghost prev = sent@;
                sent.push(e);
                proof {
                    assert(env_views(sent@) =~= env_views(prev).push(e@));
                    assert(drain(q) == seq![e@] + drain(q.after_pop()));
                    assert(env_views(sent@) + drain(r@.queue) =~= env_views(prev) + drain(q));
                }
            },
            None => {
                proof {
                    assert(drain(q) == Seq::<EnvelopeView>::empty());
                    assert(env_views(sent@) + drain(q) =~= env_views(sent@));
                    assert(drained(q) == q.after_pop());
                }
                break;
            },
        }
    }
    sent
}

/// Runs the router's receive pipeline over `inbox` in order, each envelope
/// at the time of its arrival, appending what it delivers to `acc`; returns
/// those times.
fn receive_inbox(r: &mut Router, inbox: Vec<Envelope>, acc: &mut Vec<Envelope>) -> (times: Ghost<Seq<Timestamp>>)
    requires
        old(r)@.wf(),
        forall|j: int| 0 <= j < inbox@.len() ==> (#[trigger] inbox@[j]).created_at.wf(),
    ensures
        times@.len() == inbox@.len(),
        forall|j: int| 0 <= j < times@.len() ==> (#[trigger] times@[j]).wf(),
        final(r)@ == receive_all(old(r)@, env_views(inbox@), times@).0,
        env_views(final(acc)@) == env_views(old(acc)@) + receive_all(old(r)@, env_views(inbox@), times@).1,
        final(r)@.wf(),
{
    let ghost iv = env_views(inbox@);
    let ghost r0 = r@;
    let ghost a0 = env_views(acc@);
    let ghost mut times: Seq<Timestamp> = Seq::empty();
    let total = inbox.len();
    let mut rest = inbox;
    let mut k: usize = 0;
    assert(iv.take(0) =~= Seq::<EnvelopeView>::empty());
    assert(times.take(0) =~= Seq::<Timestamp>::empty());
    assert(env_views(acc@) =~= a0 + Seq::<EnvelopeView>::empty());
    while rest.len() > 0
        invariant
            0 <= k <= iv.len(),
            iv.len() == total,
            env_views(rest@) == iv.skip(k as int),
            times.len() == k,
            forall|j: int| 0 <= j < times.len() ==> (#[trigger] times[j]).wf(),
            forall|j: int| 0 <= j < rest@.len() ==> (#[trigger] rest@[j]).created_at.wf(),
            r@ == receive_all(r0, iv.take(k as int), times).0,
            env_views(acc@) == a0 + receive_all(r0, iv.take(k as int), times).1,
            r@.wf(),
        decreases rest@.len(),
    {
        let ghost before_rest = rest@;
        proof {
            assert(env_views(before_rest).len() == before_rest.len());
            assert(k < iv.len());
        }
        let e = rest.remove(0);
        proof {
            assert(env_views(before_rest)[0] == e@);
            assert(iv.skip(k as int)[0] == iv[k as int]);
            assert(env_views(rest@) =~= env_views(before_rest).drop_first());
            assert(env_views(rest@) =~= iv.skip(k + 1));
            assert(before_rest[0] == e);
        }
        let now = now_timestamp();
        let ghost r_before = r@;
        let ghost acc_before = env_views(acc@);
        let delivered = r.receive_at(e, now);
        match delivered {
            Some(d) => {
                let ghost prev = acc@;
                acc.push(d);
                assert(env_views(acc@) =~= env_views(prev).push(d@));
            },
            None => {},
        }
        proof {
            let t2 = times.push(now);
            let i2 = iv.take(k + 1);
            assert(i2.drop_last() =~= iv.take(k as int));
            assert(t2.drop_last() =~= times);
            assert(i2.last() == iv[k as int]);
            assert(env_views(acc@) =~= a0 + receive_all(r0, i2, t2).1);
            times = t2;
        }
        k = k + 1;
    }
    proof {
        assert(iv.skip(k as int).len() == 0);
        assert(iv.take(k as int) =~= iv);
    }
    Ghost(times)
}

/// Appends copies of `src` to `dst`.
fn append_envelopes(dst: &mut Vec<Envelope>, src: &Vec<Envelope>)
    ensures
        env_views(final(dst)@) == env_views(old(dst)@) + env_views(src@),
        forall|j: int| 0 <= j < final(dst)@.len() ==> #[trigger] final(dst)@[j]@ == (env_views(old(dst)@) + env_views(src@))[j],
{
    let ghost d0 = dst@;
    let mut k: usize = 0;
    while k < src.len()
        invariant
            0 <= k <= src@.len(),
            env_views(dst@) == env_views(d0) + env_views(src@.take(k as int)),
        decreases src@.len() - k,
    {
        let e = src[k].duplicate();
        let ghost prev = dst@;
        dst.push(e);
        proof {
            assert(env_views(dst@) =~= env_views(prev).push(e@));
            assert(env_views(src@.take(k + 1)) =~= env_views(src@.take(k as int)).push(src@[k as int]@));
        }
        k = k + 1;
    }
    assert(src@.take(src@.len() as int) =~= src@);
    assert forall|j: int| 0 <= j < dst@.len() implies #[trigger] dst@[j]@ == (env_views(d0) + env_views(src@))[j] by {
        assert(env_views(dst@)[j] == dst@[j]@);
    }
}

/// `m2` is what one propagation step makes of `m`: every node, in order,
/// sends its whole outbound queue to both ring neighbours; then every node,
/// in order, receives its inbox, each envelope at some (well-formed) time.
pub open spec fn propagated(m: Seq<SimNodeView>, m2: Seq<SimNodeView>) -> bool {
    exists|ts: Seq<Seq<Timestamp>>| #[trigger] valid_times(send_phase(m, m.len() as int), ts)
        && m2 == receive_phase(send_phase(m, m.len() as int), m.len() as int, ts)
}

/// The sending phase keeps the number of nodes.
proof fn lemma_send_phase_len(m: Seq<SimNodeView>, k: int)
    requires
        0 <= k <= m.len(),
    ensures
        send_phase(m, k).len() == m.len(),
    decreases k,
{
    if k > 0 {
        lemma_send_phase_len(m, k - 1);
    }
}

/// The receiving phase keeps the number of nodes and leaves the nodes it
/// has not reached yet untouched.
proof fn lemma_receive_phase_untouched(m: Seq<SimNodeView>, k: int, ts: Seq<Seq<Timestamp>>)
    requires
        0 <= k <= m.len(),
    ensures
        receive_phase(m, k, ts).len() == m.len(),
        forall|j: int| k <= j < m.len() ==> #[trigger] receive_phase(m, k, ts)[j] == m[j],
    decreases k,
{
    if k > 0 {
        lemma_receive_phase_untouched(m, k - 1, ts);
    }
}

/// A sending step keeps the mesh well formed when the drained router is
/// well formed and everything it sent has a well-formed creation time.
proof fn lemma_send_step_wf(m: Seq<SimNodeView>, i: int)
    requires
        0 <= i < m.len(),
        mesh_wf(m),
        (RouterView { queue: drained(m[i].router.queue), ..m[i].router }).wf(),
        forall|j: int| 0 <= j < drain(m[i].router.queue).len() ==> (#[trigger] drain(m[i].router.queue)[j]).created_at.wf(),
    ensures
        mesh_wf(send_step(m, i)),
        send_step(m, i).len() == m.len(),
{
    let t = send_step(m, i);
    let sent = drain(m[i].router.queue);
    assert forall|k: int| 0 <= k < t.len() implies {
        &&& (#[trigger] t[k]).router.wf()
        &&& forall|j: int| 0 <= j < t[k].inbox.len() ==> (#[trigger] t[k].inbox[j]).created_at.wf()
    } by {
        assert(m[k].router.wf());
        assert forall|j: int| 0 <= j < t[k].inbox.len() implies (#[trigger] t[k].inbox[j]).created_at.wf() by {
            if j < m[k].inbox.len() {
                assert(m[k].inbox[j].created_at.wf());
            } else {
                let jj = j - m[k].inbox.len();
                assert(sent[jj].created_at.wf());
            }
        }
    }
}

/// Node `i` drains its outbound queue and appends what it sent to the
/// inboxes of both ring neighbours; see `send_step`.
#[verifier::spinoff_prover]
fn send_node(m: &mut SimMesh, i: usize)
    requires
        old(m).shape(),
        i < old(m).routers@.len(),
        mesh_wf(old(m)@),
    ensures
        final(m).shape(),
        final(m).routers@.len() == old(m).routers@.len(),
        final(m)@ == send_step(old(m)@, i as int),
        mesh_wf(final(m)@),
{
    let n = m.routers.len();
    let ghost before = m@;
    proof {
        m.lemma_node(i as int);
    }
    let ghost rs0 = m.routers@;
    let mut r = m.routers.remove(i);
    let sent = drain_router(&mut r);
    m.routers.insert(i, r);
    let p: usize = if i == 0 { n - 1 } else { i - 1 };
    let x: usize = if i + 1 == n { 0 } else { i + 1 };
    proof {
        assert(m.routers@ =~= rs0.update(i as int, r));
        assert(p == prev_of(i as int, n as int)) by (nonlinear_arith)
            requires
                p == if i == 0 { n - 1 } else { i - 1 },
                0 <= i < n,
        ;
        assert(x == next_of(i as int, n as int)) by (nonlinear_arith)
            requires
                x == if i + 1 == n { 0 } else { i + 1 },
                0 <= i < n,
        ;
    }
    let ghost ib0 = m.inboxes@;
    let mut ib = m.inboxes.remove(p);
    append_envelopes(&mut ib, &sent);
    m.inboxes.insert(p, ib);
    proof {
        assert(m.inboxes@ =~= ib0.update(p as int, ib));
    }
    let ghost ib1 = m.inboxes@;
    if x != p {
        let mut ib2 = m.inboxes.remove(x);
        append_envelopes(&mut ib2, &sent);
        m.inboxes.insert(x, ib2);
        proof {
            assert(m.inboxes@ =~= ib1.update(x as int, ib2));
        }
    }
    proof {
        let target = send_step(before, i as int);
        assert(target.len() == n);
        assert forall|k: int| 0 <= k < n implies #[trigger] m@[k] == target[k] by {
            m.lemma_node(k);
        }
        assert(m@ =~= target);
        assert forall|j: int| 0 <= j < drain(before[i as int].router.queue).len() implies
            (#[trigger] drain(before[i as int].router.queue)[j]).created_at.wf() by {
            assert(env_views(sent@)[j] == sent@[j]@);
        }
        lemma_send_step_wf(before, i as int);
    }
}

/// Node `i` runs its receive pipeline over its whole inbox, recording what
/// it accepts among its alerts; returns the times of arrival.
#[verifier::spinoff_prover]
fn receive_node(m: &mut SimMesh, i: usize) -> (times: Ghost<Seq<Timestamp>>)
    requires
        old(m).shape(),
        i < old(m).routers@.len(),
        mesh_wf(old(m)@),
    ensures
        final(m).shape(),
        final(m).routers@.len() == old(m).routers@.len(),
        times@.len() == old(m)@[i as int].inbox.len(),
        forall|j: int| 0 <= j < times@.len() ==> (#[trigger] times@[j]).wf(),
        final(m)@ == receive_step(old(m)@, i as int, times@),
        mesh_wf(final(m)@),
{
    let n = m.routers.len();
    proof {
        m.lemma_node(i as int);
    }
    let ghost before = m@;
    let ghost ib0 = m.inboxes@;
    let ghost rs0 = m.routers@;
    let ghost al0 = m.alerts@;
    let inbox = m.inboxes.remove(i);
    proof {
        assert forall|j: int| 0 <= j < inbox@.len() implies (#[trigger] inbox@[j]).created_at.wf() by {
            assert(env_views(ib0[i as int]@)[j] == ib0[i as int]@[j]@);
            assert(before[i as int].inbox[j].created_at.wf());
        }
    }
    m.inboxes.insert(i, Vec::new());
    let mut r = m.routers.remove(i);
    let mut acc = m.alerts.remove(i);
    let times = receive_inbox(&mut r, inbox, &mut acc);
    m.routers.insert(i, r);
    m.alerts.insert(i, acc);
    proof {
        assert(m.routers@ =~= rs0.update(i as int, r));
        assert(m.alerts@ =~= al0.update(i as int, acc));
        let target = receive_step(before, i as int, times@);
        assert forall|k: int| 0 <= k < n implies #[trigger] m@[k] == target[k] by {
            m.lemma_node(k);
            if k == i {
                assert(env_views(m.inboxes@[k]@) =~= Seq::<EnvelopeView>::empty());
            }
        }
        assert(m@ =~= target);
        assert forall|k: int| 0 <= k < m@.len() implies {
            &&& (#[trigger] m@[k]).router.wf()
            &&& forall|j: int| 0 <= j < m@[k].inbox.len() ==> (#[trigger] m@[k].inbox[j]).created_at.wf()
        } by {
            m.lemma_node(k);
            assert(before[k].router.wf());
        }
    }
    times
}

/// Runs one propagation step; see `propagated`.
pub fn sim_propagate(mesh: &mut Option<SimMesh>) -> (r: Result<(), String>)
    requires
        sim_wf(*old(mesh)),
    ensures
        sim_wf(*final(mesh)),
        (*old(mesh) is None) ==> (r matches Err(e) && e@ == "sim not started"@ && *final(mesh) is None),
        (*old(mesh) is Some) ==> (r is Ok && mesh_view(*final(mesh)) is Some && propagated(
            mesh_view(*old(mesh)).unwrap(),
            mesh_view(*final(mesh)).unwrap(),
        )),
{
    let mut m = match mesh.take() {
        Some(m) => m,
        None => return Err("sim not started".to_string()),
    };
    let n = m.routers.len();
    let ghost m0 = m@;
    assert(m0.len() == n);
    let mut i: usize = 0;
    while i < n
        invariant
            0 <= i <= n,
            m.shape(),
            m.routers@.len() == n,
            m0.len() == n,
            mesh_wf(m@),
            m@ == send_phase(m0, i as int),
        decreases n - i,
    {
        send_node(&mut m, i);
        i = i + 1;
    }
    let ghost mid = m@;
    let ghost mut ts: Seq<Seq<Timestamp>> = Seq::empty();
    proof {
        lemma_send_phase_len(m0, n as int);
    }
    i = 0;
    while i < n
        invariant
            0 <= i <= n,
            m.shape(),
            m.routers@.len() == n,
            mid.len() == n,
            mid == send_phase(m0, n as int),
            mesh_wf(m@),
            ts.len() == i,
            forall|k: int| 0 <= k < i ==> {
                &&& (#[trigger] ts[k]).len() == mid[k].inbox.len()
                &&& forall|j: int| 0 <= j < ts[k].len() ==> (#[trigger] ts[k][j]).wf()
            },
            m@ == receive_phase(mid, i as int, ts),
        decreases n - i,
    {
        proof {
            lemma_receive_phase_untouched(mid, i as int, ts);
        }
        let ghost before = m@;
        let times = receive_node(&mut m, i);
        proof {
            let t2 = ts.push(times@);
            assert(receive_phase(mid, i + 1, t2) == receive_step(receive_phase(mid, i as int, t2), i as int, t2[i as int]));
            lemma_receive_phase_prefix_times(mid, i as int, ts, t2);
            assert(before[i as int] == mid[i as int]);
            ts = t2;
        }
        i = i + 1;
    }
    proof {
        assert(valid_times(mid, ts));
        assert(propagated(m0, m@));
    }
    *mesh = Some(m);
    Ok(())
}

/// The receiving phase up to `k` depends only on the first `k` time lists.
proof fn lemma_receive_phase_prefix_times(m: Seq<SimNodeView>, k: int, ts: Seq<Seq<Timestamp>>, ts2: Seq<Seq<Timestamp>>)
    requires
        0 <= k <= ts.len(),
        ts.len() <= ts2.len(),
        forall|j: int| 0 <= j < ts.len() ==> ts[j] == ts2[j],
    ensures
        receive_phase(m, k, ts) == receive_phase(m, k, ts2),
    decreases k,
{
    if k > 0 {
        lemma_receive_phase_prefix_times(m, k - 1, ts, ts2);
    }
}

/// The number of nodes of the simulation; zero when none is running.
pub fn sim_node_count(mesh: &Option<SimMesh>) -> (n: usize)
    ensures
        n == match mesh_view(*mesh) {
            Some(m) => m.len(),
            None => 0,
        },
{
    match mesh {
        Some(m) => m.routers.len(),
        None => 0,
    }
}

/// Stops the simulation.
pub fn sim_stop(mesh: &mut Option<SimMesh>)
    ensures
        *final(mesh) is None,
{
    *mesh = None;
}

/// The sending phase changes no node's accepted alerts.
proof fn lemma_send_phase_alerts(m: Seq<SimNodeView>, k: int)
    requires
        0 <= k <= m.len(),
    ensures
        send_phase(m, k).len() == m.len(),
        forall|j: int| 0 <= j < m.len() ==> (#[trigger] send_phase(m, k)[j]).alerts == m[j].alerts,
    decreases k,
{
    if k > 0 {
        lemma_send_phase_alerts(m, k - 1);
    }
}

/// After the receiving phase reached node `k`, the nodes before it have
/// empty inboxes and their alerts extend what they were.
proof fn lemma_receive_phase_alerts(m: Seq<SimNodeView>, k: int, ts: Seq<Seq<Timestamp>>)
    requires
        0 <= k <= m.len(),
    ensures
        receive_phase(m, k, ts).len() == m.len(),
        forall|j: int| 0 <= j < k ==> (#[trigger] receive_phase(m, k, ts)[j]).inbox.len() == 0,
        forall|j: int| 0 <= j < m.len() ==> (#[trigger] receive_phase(m, k, ts)[j]).alerts.take(m[j].alerts.len() as int) == m[j].alerts,
        forall|j: int| 0 <= j < m.len() ==> (#[trigger] receive_phase(m, k, ts)[j]).alerts.len() >= m[j].alerts.len(),
    decreases k,
{
    if k > 0 {
        lemma_receive_phase_alerts(m, k - 1, ts);
        lemma_receive_phase_untouched(m, k - 1, ts);
        let p = receive_phase(m, k - 1, ts);
        let q = receive_phase(m, k, ts);
        assert(q == receive_step(p, k - 1, ts[k - 1]));
        assert(p[k - 1] == m[k - 1]);
        assert forall|j: int| 0 <= j < m.len() implies (#[trigger] q[j]).alerts.take(m[j].alerts.len() as int) == m[j].alerts by {
            if j == k - 1 {
                assert(q[j].alerts.take(m[j].alerts.len() as int) =~= m[j].alerts);
            } else {
                assert(q[j] == p[j]);
            }
        }
    }
}

/// One propagation step keeps every node's accepted alerts, in order, and
/// adds any new ones after them; and it leaves every inbox empty.
pub proof fn lemma_propagate_keeps_alerts(m: Seq<SimNodeView>, m2: Seq<SimNodeView>)
    requires
        propagated(m, m2),
    ensures
        m2.len() == m.len(),
        forall|i: int| 0 <= i < m.len() ==> (#[trigger] m2[i]).alerts.take(m[i].alerts.len() as int) == m[i].alerts,
        forall|i: int| 0 <= i < m.len() ==> (#[trigger] m2[i]).alerts.len() >= m[i].alerts.len(),
        forall|i: int| 0 <= i < m.len() ==> (#[trigger] m2[i]).inbox.len() == 0,
{
    let ts = choose|ts: Seq<Seq<Timestamp>>| #[trigger] valid_times(send_phase(m, m.len() as int), ts)
        && m2 == receive_phase(send_phase(m, m.len() as int), m.len() as int, ts);
    let mid = send_phase(m, m.len() as int);
    lemma_send_phase_alerts(m, m.len() as int);
    lemma_receive_phase_alerts(mid, m.len() as int, ts);
    assert forall|i: int| 0 <= i < m.len() implies (#[trigger] m2[i]).alerts.take(m[i].alerts.len() as int) == m[i].alerts by {
        assert(mid[i].alerts == m[i].alerts);
        assert(m2[i] == receive_phase(mid, m.len() as int, ts)[i]);
    }
    assert forall|i: int| 0 <= i < m.len() implies (#[trigger] m2[i]).alerts.len() >= m[i].alerts.len() by {
        assert(mid[i].alerts == m[i].alerts);
        assert(m2[i] == receive_phase(mid, m.len() as int, ts)[i]);
    }
    assert forall|i: int| 0 <= i < m.len() implies (#[trigger] m2[i]).inbox.len() == 0 by {
        assert(m2[i] == receive_phase(mid, m.len() as int, ts)[i]);
    }
}

} // verus!

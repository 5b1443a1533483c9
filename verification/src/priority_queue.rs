//! Four-lane outbound queue. Critical traffic always goes first; the other
//! lanes share the remaining turns by a weighted round-robin schedule of
//! eleven slots (critical slots fall to the most urgent non-empty lane), and
//! an empty lane yields its turn to the most urgent non-empty one.
use vstd::prelude::*;
use std::collections::VecDeque;
use crate::envelope::{Envelope, EnvelopeView, Priority};

verus! {

/// Number of service slots in one round of the schedule.
pub const SCHEDULE_SLOTS: u8 = 11;

/// The lane a slot of the schedule serves first.
pub open spec fn slot_lane(slot: int) -> Priority {
    if 0 <= slot <= 4 {
        Priority::Critical
    } else if 5 <= slot <= 7 {
        Priority::High
    } else if 8 <= slot <= 9 {
        Priority::Normal
    } else {
        Priority::Low
    }
}

/// The contents of a priority queue: its four lanes, oldest first, and the
/// slot of the schedule served last.
pub struct QueueView {
    pub critical: Seq<EnvelopeView>,
    pub high: Seq<EnvelopeView>,
    pub normal: Seq<EnvelopeView>,
    pub low: Seq<EnvelopeView>,
    pub cursor: int,
}

impl QueueView {
    /// The lane that holds envelopes of priority `p`.
    pub open spec fn lane(self, p: Priority) -> Seq<EnvelopeView> {
        match p {
            Priority::Critical => self.critical,
            Priority::High => self.high,
            Priority::Normal => self.normal,
            Priority::Low => self.low,
        }
    }

    /// The same queue with lane `p` replaced by `s`.
    pub open spec fn with_lane(self, p: Priority, s: Seq<EnvelopeView>) -> QueueView {
        match p {
            Priority::Critical => QueueView { critical: s, ..self },
            Priority::High => QueueView { high: s, ..self },
            Priority::Normal => QueueView { normal: s, ..self },
            Priority::Low => QueueView { low: s, ..self },
        }
    }

    /// Total number of queued envelopes.
    pub open spec fn len(self) -> nat {
        self.critical.len() + self.high.len() + self.normal.len() + self.low.len()
    }

    /// Whether all four lanes are empty.
    pub open spec fn is_empty(self) -> bool {
        self.len() == 0
    }

    /// The slot of the schedule that the next pop serves (the cursor only
    /// ever holds slots of the schedule, so this is the slot after it).
    pub open spec fn next_slot(self) -> int {
        (self.cursor % (SCHEDULE_SLOTS as int) + 1) % (SCHEDULE_SLOTS as int)
    }

    /// The lane the next pop takes from: the critical lane whenever it holds
    /// anything; else the lane of the next slot if it holds anything;
    /// otherwise the most urgent non-empty lane.
    pub open spec fn pop_lane(self) -> Option<Priority> {
        let p = slot_lane(self.next_slot());
        if self.critical.len() > 0 {
            Some(Priority::Critical)
        } else if self.lane(p).len() > 0 {
            Some(p)
        } else if self.critical.len() > 0 {
            Some(Priority::Critical)
        } else if self.high.len() > 0 {
            Some(Priority::High)
        } else if self.normal.len() > 0 {
            Some(Priority::Normal)
        } else if self.low.len() > 0 {
            Some(Priority::Low)
        } else {
            None
        }
    }
}

/// The contents of a lane of envelopes.
pub open spec fn lane_views(s: Seq<Envelope>) -> Seq<EnvelopeView> {
    s.map_values(|e: Envelope| e@)
}

/// Taking the oldest envelope off a lane takes the oldest entry off its
/// contents.
proof fn lemma_lane_views_drop_first(s: Seq<Envelope>)
    ensures
        s.len() > 0 ==> lane_views(s.subrange(1, s.len() as int)) == lane_views(s).drop_first(),
        s.len() > 0 ==> lane_views(s)[0] == s[0]@,
        lane_views(s).len() == s.len(),
{
    if s.len() > 0 {
        assert(lane_views(s.subrange(1, s.len() as int)) =~= lane_views(s).drop_first());
    }
}

/// The outbound queue of a router.
pub struct PriorityQueue {
    critical: VecDeque<Envelope>,
    high: VecDeque<Envelope>,
    normal: VecDeque<Envelope>,
    low: VecDeque<Envelope>,
    cursor: u8,
}

impl View for PriorityQueue {
    type V = QueueView;

    closed spec fn view(&self) -> QueueView {
        QueueView {
            critical: lane_views(self.critical@),
            high: lane_views(self.high@),
            normal: lane_views(self.normal@),
            low: lane_views(self.low@),
            cursor: self.cursor as int,
        }
    }
}

impl PriorityQueue {
    /// An empty queue at the start of the schedule.
    pub fn new() -> (q: PriorityQueue)
        ensures
            q@.is_empty(),
            q@.wf(),
            q@.cursor == 0,
            q@.critical.len() == 0,
            q@.high.len() == 0,
            q@.normal.len() == 0,
            q@.low.len() == 0,
    {
        PriorityQueue {
            critical: VecDeque::new(),
            high: VecDeque::new(),
            normal: VecDeque::new(),
            low: VecDeque::new(),
            cursor: 0,
        }
    }

    /// Appends `env` to the lane of its priority.
    pub fn push(&mut self, env: Envelope)
        ensures
            final(self)@ == old(self)@.with_lane(env.priority, old(self)@.lane(env.priority).push(env@)),
            old(self)@.wf() && env.created_at.wf() ==> final(self)@.wf(),
    {
        proof {
            if old(self)@.wf() && env.created_at.wf() {
                lemma_push_keeps_wf(old(self)@, env@);
            }
        }
        proof {
            assert(lane_views(self.critical@.push(env)) =~= lane_views(self.critical@).push(env@));
            assert(lane_views(self.high@.push(env)) =~= lane_views(self.high@).push(env@));
            assert(lane_views(self.normal@.push(env)) =~= lane_views(self.normal@).push(env@));
            assert(lane_views(self.low@.push(env)) =~= lane_views(self.low@).push(env@));
        }
        match env.priority {
            Priority::Critical => self.critical.push_back(env),
            Priority::High => self.high.push_back(env),
            Priority::Normal => self.normal.push_back(env),
            Priority::Low => self.low.push_back(env),
        }
    }

    /// Advances the schedule by one slot and takes the oldest envelope of the
    /// lane that `pop_lane` names (the critical lane whenever it holds
    /// anything); `None` when the queue is empty.
    pub fn pop(&mut self) -> (r: Option<Envelope>)
        ensures
            final(self)@ == old(self)@.after_pop(),
            r is Some <==> old(self)@.popped() is Some,
            r matches Some(e) ==> old(self)@.popped() == Some(e@),
            old(self)@.wf() ==> final(self)@.wf(),
    {
        proof {
            if self@.wf() {
                lemma_pop_keeps_wf(self@);
            }
        }
        proof {
            lemma_lane_views_drop_first(self.critical@);
            lemma_lane_views_drop_first(self.high@);
            lemma_lane_views_drop_first(self.normal@);
            lemma_lane_views_drop_first(self.low@);
        }
        self.cursor = (self.cursor % SCHEDULE_SLOTS + 1) % SCHEDULE_SLOTS;
        if self.critical.len() > 0 {
            return self.critical.pop_front();
        }
        let pick = if self.cursor <= 4 {
            self.critical.pop_front()
        } else if self.cursor <= 7 {
            self.high.pop_front()
        } else if self.cursor <= 9 {
            self.normal.pop_front()
        } else {
            self.low.pop_front()
        };
        match pick {
            Some(e) => Some(e),
            None => {
                match self.critical.pop_front() {
                    Some(e) => Some(e),
                    None => match self.high.pop_front() {
                        Some(e) => Some(e),
                        None => match self.normal.pop_front() {
                            Some(e) => Some(e),
                            None => self.low.pop_front(),
                        },
                    },
                }
            },
        }
    }

    /// Whether all four lanes are empty.
    pub fn is_empty(&self) -> (r: bool)
        ensures
            r == self@.is_empty(),
    {
        self.critical.len() == 0 && self.high.len() == 0 && self.normal.len() == 0
            && self.low.len() == 0
    }
}

impl QueueView {
    /// Every queued envelope has a well-formed creation time and sits in
    /// the lane of its own priority.
    pub open spec fn wf(self) -> bool {
        &&& forall|i: int| 0 <= i < self.critical.len() ==> (#[trigger] self.critical[i]).priority == Priority::Critical
        &&& forall|i: int| 0 <= i < self.high.len() ==> (#[trigger] self.high[i]).priority == Priority::High
        &&& forall|i: int| 0 <= i < self.normal.len() ==> (#[trigger] self.normal[i]).priority == Priority::Normal
        &&& forall|i: int| 0 <= i < self.low.len() ==> (#[trigger] self.low[i]).priority == Priority::Low
        &&& forall|i: int| 0 <= i < self.critical.len() ==> (#[trigger] self.critical[i]).created_at.wf()
        &&& forall|i: int| 0 <= i < self.high.len() ==> (#[trigger] self.high[i]).created_at.wf()
        &&& forall|i: int| 0 <= i < self.normal.len() ==> (#[trigger] self.normal[i]).created_at.wf()
        &&& forall|i: int| 0 <= i < self.low.len() ==> (#[trigger] self.low[i]).created_at.wf()
    }

    /// The same queue with its cursor at `c`.
    pub open spec fn with_cursor(self, c: int) -> QueueView {
        QueueView { cursor: c, ..self }
    }

    /// The envelope the next pop takes: the oldest of the lane `pop_lane`
    /// names.
    pub open spec fn popped(self) -> Option<EnvelopeView> {
        match self.pop_lane() {
            Some(p) => Some(self.lane(p)[0]),
            None => None,
        }
    }

    /// The queue after a pop: the schedule advanced by one slot and the
    /// popped envelope removed from its lane.
    pub open spec fn after_pop(self) -> QueueView {
        match self.pop_lane() {
            Some(p) => self.with_lane(p, self.lane(p).drop_first()).with_cursor(self.next_slot()),
            None => self.with_cursor(self.next_slot()),
        }
    }
}

/// The envelopes popping `q` until it yields nothing gives, in order.
pub open spec fn drain(q: QueueView) -> Seq<EnvelopeView>
    decreases q.len(),
{
    if q.pop_lane() is None {
        Seq::empty()
    } else {
        proof {
            lemma_after_pop_shorter(q);
        }
        seq![q.popped().unwrap()] + drain(q.after_pop())
    }
}

/// The queue after popping `q` until it yields nothing (the last, empty pop
/// included).
pub open spec fn drained(q: QueueView) -> QueueView
    decreases q.len(),
{
    if q.pop_lane() is None {
        q.after_pop()
    } else {
        proof {
            lemma_after_pop_shorter(q);
        }
        drained(q.after_pop())
    }
}

/// Up to `k` pops of `q`, stopping after the first that yields nothing:
/// the envelopes yielded, in order, and the queue after the last pop.
pub open spec fn burst(q: QueueView, k: nat) -> (Seq<EnvelopeView>, QueueView)
    decreases k,
{
    if k == 0 {
        (Seq::empty(), q)
    } else {
        match q.popped() {
            None => (Seq::empty(), q.after_pop()),
            Some(e) => {
                let rest = burst(q.after_pop(), (k - 1) as nat);
                (seq![e] + rest.0, rest.1)
            },
        }
    }
}

/// A pop that yields an envelope shortens the queue.
pub proof fn lemma_after_pop_shorter(q: QueueView)
    ensures
        q.pop_lane() is Some ==> q.after_pop().len() < q.len(),
{
}

/// A pop yields an envelope exactly when the queue is not empty.
pub proof fn lemma_pop_some_iff_nonempty(q: QueueView)
    ensures
        q.pop_lane() is Some <==> !q.is_empty(),
        q.pop_lane() matches Some(p) ==> q.lane(p).len() > 0,
{
}

/// A pop that yields an envelope leaves one envelope fewer in the queue, and
/// a push leaves one more: nothing is lost or duplicated.
pub proof fn lemma_queue_count(q: QueueView, env: EnvelopeView)
    ensures
        q.pop_lane() is Some ==> q.after_pop().len() == q.len() - 1,
        q.pop_lane() is None ==> q.after_pop().len() == q.len(),
        q.with_lane(env.priority, q.lane(env.priority).push(env)).len() == q.len() + 1,
{
}

/// Critical alerts always go first: whenever the critical lane holds an
/// envelope, the next pop takes the oldest critical envelope.
pub proof fn lemma_critical_first(q: QueueView)
    requires
        q.critical.len() > 0,
    ensures
        q.pop_lane() == Some(Priority::Critical),
        q.popped() == Some(q.critical[0]),
        q.wf() ==> q.critical[0].priority == Priority::Critical,
{
}

/// Pushing an envelope with a well-formed time keeps the queue well formed.
pub proof fn lemma_push_keeps_wf(q: QueueView, env: EnvelopeView)
    requires
        q.wf(),
        env.created_at.wf(),
    ensures
        q.with_lane(env.priority, q.lane(env.priority).push(env)).wf(),
{
}

/// Popping keeps the queue well formed, and the popped envelope's time is
/// well formed.
pub proof fn lemma_pop_keeps_wf(q: QueueView)
    requires
        q.wf(),
    ensures
        q.after_pop().wf(),
        q.popped() matches Some(e) ==> e.created_at.wf(),
        q.pop_lane() matches Some(p) ==> q.popped().unwrap().priority == p,
{
    match q.pop_lane() {
        Some(p) => {
            let l = q.lane(p);
            assert(l.len() > 0);
            assert(forall|i: int| 0 <= i < l.drop_first().len() ==> #[trigger] l.drop_first()[i] == l[i + 1]);
        },
        None => {},
    }
}

/// How urgent a priority is: critical most, then high, normal, low.
pub open spec fn urgency(p: Priority) -> int {
    match p {
        Priority::Critical => 3,
        Priority::High => 2,
        Priority::Normal => 1,
        Priority::Low => 0,
    }
}

/// Which envelope a pop takes. Nothing exactly when the queue is empty.
/// Otherwise: the critical lane whenever it holds anything; else the lane
/// that the next slot of the schedule names, if it holds anything; else the
/// most urgent lane that holds anything, every more urgent lane being empty.
/// The envelope taken is the oldest of its lane; that lane loses exactly it,
/// the other lanes are unchanged, and the schedule moves on one slot.
pub proof fn lemma_pop_serves(q: QueueView)
    ensures
        q.popped() is None <==> q.is_empty(),
        q.critical.len() > 0 ==> q.pop_lane() == Some(Priority::Critical),
        q.critical.len() == 0 && q.lane(slot_lane(q.next_slot())).len() > 0
            ==> q.pop_lane() == Some(slot_lane(q.next_slot())),
        q.critical.len() == 0 && q.lane(slot_lane(q.next_slot())).len() == 0 && !q.is_empty() ==> {
            &&& q.pop_lane() matches Some(p)
            &&& q.lane(p).len() > 0
            &&& forall|o: Priority| urgency(o) > urgency(p) ==> (#[trigger] q.lane(o)).len() == 0
        },
        q.critical.len() == 0 && q.high.len() == 0 && q.lane(slot_lane(q.next_slot())).len() == 0
            && q.normal.len() > 0 ==> q.pop_lane() == Some(Priority::Normal),
        q.critical.len() == 0 && q.lane(slot_lane(q.next_slot())).len() == 0 && q.high.len() > 0
            ==> q.pop_lane() == Some(Priority::High),
        q.pop_lane() matches Some(p) ==> {
            &&& q.lane(p).len() > 0
            &&& q.popped() == Some(q.lane(p)[0])
            &&& q.after_pop().lane(p) == q.lane(p).drop_first()
            &&& forall|o: Priority| o != p ==> (#[trigger] q.after_pop().lane(o)) == q.lane(o)
        },
        q.after_pop().cursor == q.next_slot(),
        0 <= q.next_slot() < SCHEDULE_SLOTS,
{
    if let Some(p) = q.pop_lane() {
        assert forall|o: Priority| o != p implies (#[trigger] q.after_pop().lane(o)) == q.lane(o) by {
            match p {
                Priority::Critical => {},
                Priority::High => {},
                Priority::Normal => {},
                Priority::Low => {},
            }
        }
        match p {
            Priority::Critical => {},
            Priority::High => {},
            Priority::Normal => {},
            Priority::Low => {},
        }
    }
}

/// Popping from the queue after one pop is popping once more.
proof fn lemma_pops_shift(q: QueueView, i: nat)
    ensures
        pops(q.after_pop(), i) == pops(q, i + 1),
    decreases i,
{
    assert(pops(q, 0) == q);
    if i > 0 {
        lemma_pops_shift(q, (i - 1) as nat);
        assert(pops(q.after_pop(), i) == pops(q.after_pop(), (i - 1) as nat).after_pop());
        assert(pops(q, i + 1) == pops(q, i).after_pop());
    } else {
        assert(pops(q, 1) == pops(q, 0).after_pop());
    }
}

/// A burst of up to `k` pops takes the envelopes that successive pops take,
/// in the order they take them: as many as `k` or as the queue holds,
/// whichever is fewer, the `i`-th being what the pop after `i` pops takes;
/// the queue left is the queue after those pops (and one more, empty pop
/// when the queue ran dry before `k`).
pub proof fn lemma_burst_is_successive_pops(q: QueueView, k: nat)
    ensures
        burst(q, k).0.len() == if k <= q.len() { k } else { q.len() },
        forall|i: int| 0 <= i < burst(q, k).0.len() ==> pops(q, i as nat).popped() == Some(#[trigger] burst(q, k).0[i]),
        burst(q, k).1 == pops(q, if k <= q.len() { k } else { q.len() + 1 }),
        k > 0 && !q.is_empty() ==> burst(q, k).0[0] == q.popped().unwrap(),
    decreases k,
{
    lemma_pop_serves(q);
    assert(pops(q, 0) == q);
    if k == 0 {
    } else if q.popped() is None {
        assert(pops(q, 1) == pops(q, 0).after_pop());
    } else {
        let a = q.after_pop();
        lemma_burst_is_successive_pops(a, (k - 1) as nat);
        let rest = burst(a, (k - 1) as nat);
        let b = burst(q, k).0;
        assert(b == seq![q.popped().unwrap()] + rest.0);
        assert forall|i: int| 0 <= i < b.len() implies pops(q, i as nat).popped() == Some(#[trigger] b[i]) by {
            if i > 0 {
                assert(b[i] == rest.0[i - 1]);
                lemma_pops_shift(q, (i - 1) as nat);
            }
        }
        let m = if k - 1 <= a.len() { (k - 1) as nat } else { a.len() + 1 };
        lemma_pops_shift(q, m);
    }
}

/// The eleven slots of the schedule: five critical slots, three high, two
/// normal and one low.
pub proof fn lemma_schedule_weights()
    ensures
        forall|s: int| 0 <= s < 5 ==> slot_lane(s) == Priority::Critical,
        forall|s: int| 5 <= s < 8 ==> slot_lane(s) == Priority::High,
        forall|s: int| 8 <= s < 10 ==> slot_lane(s) == Priority::Normal,
        slot_lane(10) == Priority::Low,
{
}

/// The queue after `k` pops.
pub open spec fn pops(q: QueueView, k: nat) -> QueueView
    decreases k,
{
    if k == 0 {
        q
    } else {
        pops(q, (k - 1) as nat).after_pop()
    }
}

/// The lane a slot serves while there is no critical traffic: its own lane,
/// with the critical slots falling to the high lane.
pub open spec fn slot_serves(slot: int) -> Priority {
    if slot_lane(slot) == Priority::Critical { Priority::High } else { slot_lane(slot) }
}

/// The number of slots of one round of the schedule that serve lane `p`
/// while there is no critical traffic.
pub open spec fn share(p: Priority) -> nat {
    match p {
        Priority::Critical => 0,
        Priority::High => 8,
        Priority::Normal => 2,
        Priority::Low => 1,
    }
}

/// How many of the `k` slots from slot `c0` on serve lane `p` while there is
/// no critical traffic.
spec fn served(c0: int, k: nat, p: Priority) -> nat
    decreases k,
{
    if k == 0 {
        0
    } else {
        served(c0, (k - 1) as nat, p) + if slot_serves((c0 + k - 1) % 11) == p { 1nat } else { 0nat }
    }
}

/// A round of eleven slots, from any slot on, serves each lane its share.
proof fn lemma_served_full(c0: int, p: Priority)
    requires
        0 <= c0 < 11,
    ensures
        served(c0, 11, p) == share(p),
{
    reveal_with_fuel(served, 12);
    if c0 == 0 {
        assert(served(0, 11, p) == share(p));
    } else if c0 == 1 {
        assert(served(1, 11, p) == share(p));
    } else if c0 == 2 {
        assert(served(2, 11, p) == share(p));
    } else if c0 == 3 {
        assert(served(3, 11, p) == share(p));
    } else if c0 == 4 {
        assert(served(4, 11, p) == share(p));
    } else if c0 == 5 {
        assert(served(5, 11, p) == share(p));
    } else if c0 == 6 {
        assert(served(6, 11, p) == share(p));
    } else if c0 == 7 {
        assert(served(7, 11, p) == share(p));
    } else if c0 == 8 {
        assert(served(8, 11, p) == share(p));
    } else if c0 == 9 {
        assert(served(9, 11, p) == share(p));
    } else {
        assert(served(10, 11, p) == share(p));
    }
}

/// A round of eleven slots, from any slot on, serves each lane its share;
/// fewer slots serve it no more than that.
proof fn lemma_served_round(c0: int, k: nat, p: Priority)
    requires
        0 <= c0 < 11,
        k <= 11,
    ensures
        served(c0, 11, p) == share(p),
        served(c0, k, p) <= served(c0, 11, p),
    decreases 11 - k,
{
    lemma_served_full(c0, p);
    if k < 11 {
        lemma_served_round(c0, k + 1, p);
    }
}

/// A pop from lane `lp` takes one envelope off that lane only and moves the
/// cursor to the slot it served.
proof fn lemma_one_pop(r: QueueView, lp: Priority)
    requires
        r.pop_lane() == Some(lp),
    ensures
        forall|p: Priority| (#[trigger] r.after_pop().lane(p)).len() == r.lane(p).len() - (if p == lp { 1int } else { 0int }),
        r.after_pop().cursor == r.next_slot(),
{
    assert(r.lane(lp).len() > 0);
    let a = r.after_pop();
    assert(a == r.with_lane(lp, r.lane(lp).drop_first()).with_cursor(r.next_slot()));
    assert forall|p: Priority| (#[trigger] a.lane(p)).len() == r.lane(p).len() - (if p == lp { 1int } else { 0int }) by {
        match lp {
            Priority::Critical => {},
            Priority::High => {},
            Priority::Normal => {},
            Priority::Low => {},
        }
    }
}

/// Moving on from slot `(c0 + k) % 11` gives slot `(c0 + k + 1) % 11`.
proof fn lemma_slot_step(c0: int, k: int)
    requires
        0 <= c0 < 11,
        0 <= k,
    ensures
        (((c0 + k) % 11) % 11 + 1) % 11 == (c0 + k + 1) % 11,
{
    assert((((c0 + k) % 11) % 11 + 1) % 11 == (c0 + k + 1) % 11) by (nonlinear_arith)
        requires
            0 <= c0 < 11,
            0 <= k,
    ;
}

/// With no critical traffic and every other lane holding at least its share,
/// the first `k` pops of a round each take from the lane their slot serves.
#[verifier::rlimit(30)]
proof fn lemma_pops_follow_schedule(q: QueueView, k: nat)
    requires
        k <= 11,
        q.critical.len() == 0,
        forall|p: Priority| (#[trigger] q.lane(p)).len() >= share(p),
    ensures
        pops(q, k).next_slot() == (q.next_slot() + k) % 11,
        forall|p: Priority| (#[trigger] pops(q, k).lane(p)).len() == q.lane(p).len() - served(q.next_slot(), k, p),
    decreases k,
{
    let c0 = q.next_slot();
    assert(0 <= c0 < 11);
    if k == 0 {
        assert(c0 % 11 == c0);
    } else {
        let k1 = (k - 1) as nat;
        lemma_pops_follow_schedule(q, k1);
        let prev = pops(q, k1);
        let slot = (c0 + k1) % 11;
        let lp = slot_serves(slot);
        lemma_served_round(c0, k, lp);
        lemma_served_round(c0, k1, Priority::Critical);
        assert(prev.lane(Priority::Critical).len() == 0);
        assert(served(c0, k, lp) == served(c0, k1, lp) + 1);
        assert(q.lane(lp).len() >= share(lp));
        assert(prev.lane(lp).len() > 0);
        assert(prev.pop_lane() == Some(lp));
        lemma_one_pop(prev, lp);
        let next = pops(q, k);
        assert(next == prev.after_pop());
        lemma_slot_step(c0, k1 as int);
        assert(next.cursor == slot);
        assert forall|p: Priority| (#[trigger] next.lane(p)).len() == q.lane(p).len() - served(c0, k, p) by {
            assert(prev.lane(p).len() == q.lane(p).len() - served(c0, k1, p));
            assert(served(c0, k, p) == served(c0, k1, p) + if slot_serves((c0 + k - 1) % 11) == p { 1nat } else { 0nat });
        }
    }
}

/// Without critical traffic the schedule is fair under load: while the
/// other lanes hold at least their shares, any eleven consecutive pops take
/// exactly eight high, two normal and one low envelope, and the schedule is
/// back where it started; low traffic is never starved.
pub proof fn lemma_round_serves_shares(q: QueueView)
    requires
        q.critical.len() == 0,
        forall|p: Priority| (#[trigger] q.lane(p)).len() >= share(p),
    ensures
        forall|p: Priority| (#[trigger] pops(q, 11).lane(p)).len() == q.lane(p).len() - share(p),
        pops(q, 11).next_slot() == q.next_slot(),
{
    lemma_pops_follow_schedule(q, 11);
    assert forall|p: Priority| (#[trigger] pops(q, 11).lane(p)).len() == q.lane(p).len() - share(p) by {
        lemma_served_round(q.next_slot(), 11, p);
    }
}

} // verus!

//! Reassembling messages from BLE fragments (see `fragment`), in any order,
//! forgetting partial messages that saw no fragment for `STALE_SECS`
//! seconds.
use vstd::prelude::*;
use crate::clock::{Timestamp, now_timestamp, elapsed_secs, spec_elapsed_secs};
use crate::ids::{id_from_bytes, msg_id_from_slice, id_bytes, lemma_id_bytes_roundtrip};
use crate::transport::fragment::{
    append_range,
    spec_fragment, fragment_count, fragment_bytes, chunk_of, be16, CHUNK, HEADER_LEN,
};

verus! {

/// Seconds after its last fragment that a partial message is forgotten.
pub const STALE_SECS: u64 = 30;

/// A partial message: its identifier, the fragments received so far by
/// index, and when it last received one.
pub struct EntryView {
    pub id: u128,
    pub parts: Seq<Option<Seq<u8>>>,
    pub last_update: Timestamp,
}

/// The message identifier in a fragment's header.
pub open spec fn header_id(p: Seq<u8>) -> u128 {
    id_from_bytes(p.subrange(0, 16))
}

/// The fragment index in a fragment's header.
pub open spec fn header_seq(p: Seq<u8>) -> nat {
    (p[16] as nat) * 256 + p[17] as nat
}

/// The fragment count in a fragment's header.
pub open spec fn header_total(p: Seq<u8>) -> nat {
    (p[18] as nat) * 256 + p[19] as nat
}

/// The message bytes a fragment carries.
pub open spec fn body(p: Seq<u8>) -> Seq<u8> {
    p.subrange(HEADER_LEN as int, p.len() as int)
}

/// The message made of all received fragments, in index order.
pub open spec fn concat_parts(parts: Seq<Option<Seq<u8>>>) -> Seq<u8>
    decreases parts.len(),
{
    if parts.len() == 0 {
        Seq::empty()
    } else {
        concat_parts(parts.drop_last()) + parts.last().unwrap()
    }
}

/// Whether every fragment of a partial message has arrived.
pub open spec fn complete(parts: Seq<Option<Seq<u8>>>) -> bool {
    forall|j: int| 0 <= j < parts.len() ==> #[trigger] parts[j] is Some
}

/// The partial messages that are still fresh at `now`.
pub open spec fn prune(entries: Seq<EntryView>, now: Timestamp) -> Seq<EntryView>
    decreases entries.len(),
{
    if entries.len() == 0 {
        Seq::empty()
    } else {
        let rest = prune(entries.drop_last(), now);
        if spec_elapsed_secs(entries.last().last_update, now) < STALE_SECS {
            rest.push(entries.last())
        } else {
            rest
        }
    }
}

/// The position of the partial message with identifier `id`, if any.
pub open spec fn find(entries: Seq<EntryView>, id: u128) -> Option<int>
    decreases entries.len(),
{
    if entries.len() == 0 {
        None
    } else if entries.last().id == id {
        Some(entries.len() - 1)
    } else {
        find(entries.drop_last(), id)
    }
}

/// The partial messages after `packet` created the entry for its message,
/// if there was none.
pub open spec fn with_entry(entries: Seq<EntryView>, packet: Seq<u8>, now: Timestamp) -> Seq<EntryView> {
    match find(entries, header_id(packet)) {
        Some(_) => entries,
        None => entries.push(EntryView {
            id: header_id(packet),
            parts: Seq::new(header_total(packet), |j: int| None::<Seq<u8>>),
            last_update: now,
        }),
    }
}

/// Whether taking in `packet` at `now` would index past the fragments of an
/// existing partial message (its count disagrees with the packet's).
pub open spec fn push_overflows(entries: Seq<EntryView>, packet: Seq<u8>, now: Timestamp) -> bool {
    let e0 = prune(entries, now);
    &&& packet.len() >= HEADER_LEN
    &&& header_seq(packet) < header_total(packet)
    &&& find(e0, header_id(packet)) matches Some(i) && header_seq(packet) >= e0[i].parts.len()
}

/// What taking in `packet` at `now` does: stale partial messages are
/// forgotten; a packet too short for a header is ignored; otherwise the
/// message's entry is created if missing, and a fragment with a valid index
/// is recorded; when that completes the message, the entry is dropped and the
/// message returned.
pub open spec fn push_result(entries: Seq<EntryView>, packet: Seq<u8>, now: Timestamp) -> (Seq<EntryView>, Option<Seq<u8>>) {
    let e0 = prune(entries, now);
    if packet.len() < HEADER_LEN {
        (e0, None)
    } else {
        let e1 = with_entry(e0, packet, now);
        let i = find(e1, header_id(packet)).unwrap();
        if header_seq(packet) >= header_total(packet) {
            (e1, None)
        } else {
            let parts = e1[i].parts.update(header_seq(packet) as int, Some(body(packet)));
            if complete(parts) {
                (e1.remove(i), Some(concat_parts(parts)))
            } else {
                (e1.update(i, EntryView { parts, last_update: now, ..e1[i] }), None)
            }
        }
    }
}

struct Entry {
    parts: Vec<Option<Vec<u8>>>,
    last_update: Timestamp,
}

/// Collects fragments until messages are complete.
pub struct Reassembler {
    /// Partial messages by identifier, each identifier at most once. A list
    /// rather than a hash map: staleness pruning filters every entry, which
    /// is a loop proved here, and vstd gives `HashMap::retain` no contract.
    map: Vec<(u128, Entry)>,
}

/// The contents of a list of received fragments.
pub open spec fn parts_view(parts: Seq<Option<Vec<u8>>>) -> Seq<Option<Seq<u8>>> {
    parts.map_values(|o: Option<Vec<u8>>| match o {
        Some(v) => Some(v@),
        None => None,
    })
}

impl View for Reassembler {
    type V = Seq<EntryView>;

    closed spec fn view(&self) -> Seq<EntryView> {
        entries_view(self.map@)
    }
}

/// Every recorded time is well formed.
pub open spec fn entries_wf(entries: Seq<EntryView>) -> bool {
    forall|j: int| 0 <= j < entries.len() ==> (#[trigger] entries[j]).last_update.wf()
}

/// The contents of one entry of the reassembly list.
closed spec fn entry_view(e: (u128, Entry)) -> EntryView {
    EntryView { id: e.0, parts: parts_view(e.1.parts@), last_update: e.1.last_update }
}

/// The contents of a reassembly list.
closed spec fn entries_view(m: Seq<(u128, Entry)>) -> Seq<EntryView> {
    m.map_values(|e: (u128, Entry)| entry_view(e))
}

/// The received fragments up to index `j`, concatenated, extended by the
/// fragment at `j`.
proof fn lemma_concat_parts_take(parts: Seq<Option<Seq<u8>>>, j: int)
    requires
        0 <= j < parts.len(),
    ensures
        concat_parts(parts.take(j + 1)) == concat_parts(parts.take(j)) + parts[j].unwrap(),
{
    assert(parts.take(j + 1).drop_last() =~= parts.take(j));
}

/// Looking for a partial message from the end finds the same position as
/// looking in any prefix that still holds it.
proof fn lemma_find_prefix(entries: Seq<EntryView>, id: u128, j: int)
    requires
        0 <= j <= entries.len(),
        forall|k: int| j <= k < entries.len() ==> #[trigger] entries[k].id != id,
    ensures
        find(entries, id) == find(entries.take(j), id),
    decreases entries.len() - j,
{
    if j < entries.len() {
        assert(entries.drop_last() =~= entries.take(entries.len() - 1));
        lemma_find_prefix(entries.drop_last(), id, j);
        assert(entries.drop_last().take(j) =~= entries.take(j));
    } else {
        assert(entries.take(j) =~= entries);
    }
}

/// A position that `find` reports holds the identifier, within bounds.
proof fn lemma_find_found(entries: Seq<EntryView>, id: u128)
    ensures
        find(entries, id) matches Some(i) ==> 0 <= i < entries.len() && entries[i].id == id,
        find(entries, id) is None ==> forall|k: int| 0 <= k < entries.len() ==> #[trigger] entries[k].id != id,
    decreases entries.len(),
{
    if entries.len() > 0 {
        lemma_find_found(entries.drop_last(), id);
        if find(entries, id) is None {
            assert forall|k: int| 0 <= k < entries.len() implies #[trigger] entries[k].id != id by {
                if k < entries.len() - 1 {
                    assert(entries.drop_last()[k] == entries[k]);
                }
            }
        }
    }
}

/// Pruning keeps only well-formed times if there were only such.
proof fn lemma_prune_wf(entries: Seq<EntryView>, now: Timestamp)
    requires
        entries_wf(entries),
    ensures
        entries_wf(prune(entries, now)),
        prune(entries, now).len() <= entries.len(),
    decreases entries.len(),
{
    if entries.len() > 0 {
        assert(entries_wf(entries.drop_last()));
        lemma_prune_wf(entries.drop_last(), now);
    }
}

/// The number of fragment slots of all partial messages.
pub open spec fn slot_count(entries: Seq<EntryView>) -> nat
    decreases entries.len(),
{
    if entries.len() == 0 {
        0
    } else {
        slot_count(entries.drop_last()) + entries.last().parts.len()
    }
}

/// The slots of a prefix are no more than those of the whole.
proof fn lemma_slot_count_prefix(entries: Seq<EntryView>, k: int)
    requires
        0 <= k <= entries.len(),
    ensures
        slot_count(entries.take(k)) <= slot_count(entries),
    decreases entries.len() - k,
{
    if k < entries.len() {
        assert(entries.drop_last().take(k) =~= entries.take(k));
        lemma_slot_count_prefix(entries.drop_last(), k);
    } else {
        assert(entries.take(k) =~= entries);
    }
}

/// The fragment count of the partial message with identifier `id` that is
/// still fresh at `now`, if any.
pub open spec fn found_parts_len(entries: Seq<EntryView>, id: u128, now: Timestamp) -> Option<nat> {
    match find(prune(entries, now), id) {
        Some(i) => Some(prune(entries, now)[i].parts.len()),
        None => None,
    }
}

/// Looking among the fresh partial messages from the end: the last one, if
/// fresh and matching, is the one found.
proof fn lemma_found_parts_len_step(entries: Seq<EntryView>, id: u128, now: Timestamp)
    requires
        entries.len() > 0,
    ensures
        found_parts_len(entries, id, now) == if entries.last().id == id && spec_elapsed_secs(
            entries.last().last_update,
            now,
        ) < STALE_SECS {
            Some(entries.last().parts.len())
        } else {
            found_parts_len(entries.drop_last(), id, now)
        },
{
    let rest = prune(entries.drop_last(), now);
    if spec_elapsed_secs(entries.last().last_update, now) < STALE_SECS {
        let p = rest.push(entries.last());
        assert(p.drop_last() =~= rest);
        if entries.last().id != id {
            match find(rest, id) {
                Some(i) => {
                    lemma_find_found(rest, id);
                    assert(p[i] == rest[i]);
                },
                None => {},
            }
        }
    }
}

impl Reassembler {
    /// An empty reassembler.
    pub fn new() -> (r: Reassembler)
        ensures
            r@ == Seq::<EntryView>::empty(),
    {
        let r = Reassembler { map: Vec::new() };
        assert(r@ =~= Seq::<EntryView>::empty());
        r
    }

    /// The position of the partial message with identifier `id`, if any.
    fn find_index(&self, id: u128) -> (r: Option<usize>)
        ensures
            r matches Some(j) ==> find(self@, id) == Some(j as int),
            r is None ==> find(self@, id) is None,
    {
        let ghost v = self@;
        let mut j = self.map.len();
        while j > 0
            invariant
                0 <= j <= self.map@.len(),
                v == self@,
                v.len() == self.map@.len(),
                forall|k: int| j <= k < v.len() ==> #[trigger] v[k].id != id,
            decreases j,
        {
            j = j - 1;
            proof {
                assert(v[j as int] == entry_view(self.map@[j as int]));
            }
            if self.map[j].0 == id {
                proof {
                    lemma_find_prefix(v, id, j + 1);
                    assert(v.take(j + 1).last() == v[j as int]);
                }
                return Some(j);
            }
        }
        proof {
            lemma_find_prefix(v, id, 0);
        }
        None
    }

    /// Takes in one fragment at time `now`; see `push_result`. Returns the
    /// whole message when this fragment completes it.
    pub fn push_at(&mut self, packet: Vec<u8>, now: Timestamp) -> (r: Option<Vec<u8>>)
        requires
            entries_wf(old(self)@),
            now.wf(),
            !push_overflows(old(self)@, packet@, now),
        ensures
            final(self)@ == push_result(old(self)@, packet@, now).0,
            r is Some <==> push_result(old(self)@, packet@, now).1 is Some,
            r matches Some(m) ==> push_result(old(self)@, packet@, now).1 == Some(m@),
            entries_wf(final(self)@),
    {
        let ghost old_v = self@;
        self.prune_expired_at(now);
        proof {
            lemma_prune_wf(old_v, now);
        }
        let ghost e0 = self@;
        if packet.len() < HEADER_LEN {
            return None;
        }
        let id = match msg_id_from_slice(&packet.as_slice()[0..16]) {
            Some(x) => x,
            None => return None,
        };
        assert(id == header_id(packet@));
        let seq: usize = (packet[16] as usize) * 256 + packet[17] as usize;
        let total: usize = (packet[18] as usize) * 256 + packet[19] as usize;
        let mut data: Vec<u8> = Vec::new();
        append_range(&mut data, packet.as_slice(), HEADER_LEN, packet.len());
        assert(data@ =~= body(packet@));
        let idx = match self.find_index(id) {
            Some(j) => {
                proof {
                    lemma_find_found(e0, id);
                }
                j
            },
            None => {
                let mut parts: Vec<Option<Vec<u8>>> = Vec::new();
                let mut n: usize = 0;
                while n < total
                    invariant
                        0 <= n <= total,
                        parts@.len() == n,
                        forall|k: int| 0 <= k < n ==> #[trigger] parts@[k] is None,
                    decreases total - n,
                {
                    parts.push(None);
                    n = n + 1;
                }
                let ghost prev = self.map@;
                self.map.push((id, Entry { parts, last_update: now }));
                proof {
                    assert(entries_view(prev.push((id, Entry { parts, last_update: now }))) =~= entries_view(prev).push(entry_view((id, Entry { parts, last_update: now }))));
                    assert(parts_view(parts@) =~= Seq::new(total as nat, |j: int| None::<Seq<u8>>));
                    assert(self@ == with_entry(e0, packet@, now));
                    assert(self@.drop_last() =~= e0);
                }
                self.map.len() - 1
            },
        };
        let ghost e1 = self@;
        proof {
            lemma_find_found(e0, id);
            assert(e1 == with_entry(e0, packet@, now));
            assert(find(e1, id) == Some(idx as int));
            assert(e1[idx as int] == entry_view(self.map@[idx as int]));
        }
        if seq >= total {
            return None;
        }
        let ghost before = self.map@;
        let (eid, mut entry) = self.map.remove(idx);
        proof {
            assert(entries_view(before.remove(idx as int)) =~= entries_view(before).remove(idx as int));
            assert(seq < entry.parts@.len());
        }
        let ghost old_parts = entry.parts@;
        entry.parts.set(seq, Some(data));
        entry.last_update = now;
        proof {
            assert(parts_view(entry.parts@) =~= e1[idx as int].parts.update(seq as int, Some(body(packet@))));
        }
        if all_received(&entry.parts) {
            let full = concatenate(&entry.parts);
            proof {
                assert(entries_wf(self@));
            }
            return Some(full);
        }
        let ghost mid = self.map@;
        self.map.insert(idx, (eid, entry));
        proof {
            assert(entries_view(mid.insert(idx as int, (eid, entry))) =~= entries_view(mid).insert(idx as int, entry_view((eid, entry))));
            assert(self@ =~= e1.update(idx as int, EntryView { parts: parts_view(entry.parts@), last_update: now, ..e1[idx as int] }));
        }
        None
    }

    /// Takes in one fragment at the current time.
    pub fn push(&mut self, packet: Vec<u8>) -> (r: Option<Vec<u8>>)
        requires
            entries_wf(old(self)@),
            forall|now: Timestamp| !push_overflows(old(self)@, packet@, now),
        ensures
            exists|now: Timestamp| {
                &&& now.wf()
                &&& final(self)@ == push_result(old(self)@, packet@, now).0
                &&& (r is Some <==> push_result(old(self)@, packet@, now).1 is Some)
                &&& (r matches Some(m) ==> push_result(old(self)@, packet@, now).1 == Some(m@))
            },
            entries_wf(final(self)@),
    {
        let now = now_timestamp();
        self.push_at(packet, now)
    }

    /// Whether taking in `packet` at `now` would index past the fragments of
    /// an existing partial message.
    pub fn overflows_at(&self, packet: &Vec<u8>, now: Timestamp) -> (r: bool)
        requires
            entries_wf(self@),
            now.wf(),
        ensures
            r == push_overflows(self@, packet@, now),
    {
        proof {
            lemma_prune_wf(self@, now);
        }
        if packet.len() < HEADER_LEN {
            return false;
        }
        let seq: usize = (packet[16] as usize) * 256 + packet[17] as usize;
        let total: usize = (packet[18] as usize) * 256 + packet[19] as usize;
        if seq >= total {
            return false;
        }
        let id = match msg_id_from_slice(&packet.as_slice()[0..16]) {
            Some(x) => x,
            None => return false,
        };
        assert(id == header_id(packet@));
        let ghost v = self@;
        let mut j = self.map.len();
        assert(v.take(v.len() as int) =~= v);
        while j > 0
            invariant
                0 <= j <= self.map@.len(),
                v == self@,
                v.len() == self.map@.len(),
                entries_wf(v),
                now.wf(),
                found_parts_len(v, id, now) == found_parts_len(v.take(j as int), id, now),
                id == header_id(packet@),
                packet@.len() >= HEADER_LEN,
                seq == header_seq(packet@),
                total == header_total(packet@),
                seq < total,
            decreases j,
        {
            j = j - 1;
            proof {
                assert(v[j as int] == entry_view(self.map@[j as int]));
                lemma_found_parts_len_step(v.take(j + 1), id, now);
                assert(v.take(j + 1).drop_last() =~= v.take(j as int));
                assert(v.take(j + 1).last() == v[j as int]);
            }
            if self.map[j].0 == id && elapsed_secs(self.map[j].1.last_update, now) < STALE_SECS {
                proof {
                    assert(parts_view(self.map@[j as int].1.parts@).len() == self.map@[j as int].1.parts@.len());
                    assert(id == header_id(packet@));
                    assert(found_parts_len(v, id, now) == Some(v[j as int].parts.len()));
                }
                return seq >= self.map[j].1.parts.len();
            }
        }
        proof {
            assert(v.take(0) =~= Seq::<EntryView>::empty());
        }
        false
    }

    /// The number of partial messages, and the number of fragment slots they
    /// hold in all.
    pub fn metrics(&self) -> (r: (usize, usize))
        requires
            slot_count(self@) <= usize::MAX,
        ensures
            r.0 == self@.len(),
            r.1 == slot_count(self@),
    {
        let ghost v = self@;
        let mut sum: usize = 0;
        let mut j: usize = 0;
        assert(v.take(0) =~= Seq::<EntryView>::empty());
        while j < self.map.len()
            invariant
                0 <= j <= self.map@.len(),
                v == self@,
                v.len() == self.map@.len(),
                sum == slot_count(v.take(j as int)),
                slot_count(v) <= usize::MAX,
            decreases self.map@.len() - j,
        {
            proof {
                assert(v.take(j + 1).drop_last() =~= v.take(j as int));
                assert(v[j as int] == entry_view(self.map@[j as int]));
                lemma_slot_count_prefix(v, j + 1);
            }
            sum = sum + self.map[j].1.parts.len();
            j = j + 1;
        }
        assert(v.take(v.len() as int) =~= v);
        (self.map.len(), sum)
    }

    /// Forgets the partial messages that are stale at `now`.
    fn prune_expired_at(&mut self, now: Timestamp)
        requires
            entries_wf(old(self)@),
            now.wf(),
        ensures
            final(self)@ == prune(old(self)@, now),
    {
        let ghost old_m = self.map@;
        let ghost old_v = self@;
        let mut i: usize = 0;
        let ghost mut k: int = 0;
        assert(old_v.take(0) =~= Seq::<EntryView>::empty());
        assert(entries_view(self.map@) == prune(old_v.take(0), now) + entries_view(old_m.skip(0))) by {
            assert(old_m.skip(0) =~= old_m);
            assert(prune(old_v.take(0), now) =~= Seq::<EntryView>::empty());
            assert(self@ =~= entries_view(self.map@));
        }
        while i < self.map.len()
            invariant
                0 <= k <= old_m.len(),
                old_v == entries_view(old_m),
                entries_wf(old_v),
                now.wf(),
                i == prune(old_v.take(k), now).len(),
                i + (old_m.len() - k) == self.map@.len(),
                entries_view(self.map@) == prune(old_v.take(k), now) + entries_view(old_m.skip(k)),
            decreases self.map@.len() - i,
        {
            proof {
                assert(k < old_m.len());
                assert(entries_view(self.map@)[i as int] == entries_view(old_m.skip(k))[0]);
                assert(old_m.skip(k)[0] == old_m[k]);
                assert(old_v.take(k + 1).drop_last() =~= old_v.take(k));
                assert(old_v.take(k + 1).last() == old_v[k]);
                assert(old_v[k] == entry_view(old_m[k]));
                assert(entries_view(old_m.skip(k)).drop_first() =~= entries_view(old_m.skip(k + 1)));
            }
            if elapsed_secs(self.map[i].1.last_update, now) < STALE_SECS {
                i = i + 1;
                proof {
                    k = k + 1;
                    assert(entries_view(self.map@) =~= prune(old_v.take(k), now) + entries_view(old_m.skip(k)));
                }
            } else {
                let ghost prev = self.map@;
                proof {
                    assert(entries_view(prev)[i as int] == entry_view(prev[i as int]));
                    assert(entry_view(prev[i as int]) == old_v[k]);
                    assert(old_v[k].last_update == prev[i as int].1.last_update);
                }
                let _ = self.map.remove(i);
                proof {
                    assert(entries_view(prev.remove(i as int)) =~= entries_view(prev).remove(i as int));
                    k = k + 1;
                    assert(entries_view(self.map@) =~= prune(old_v.take(k), now) + entries_view(old_m.skip(k)));
                }
            }
        }
        proof {
            assert(old_m.skip(k) =~= Seq::<(u128, Entry)>::empty());
            assert(old_v.take(k) =~= old_v);
            assert(self@ =~= entries_view(self.map@));
        }
    }
}

/// Whether every fragment has arrived.
fn all_received(parts: &Vec<Option<Vec<u8>>>) -> (r: bool)
    ensures
        r == complete(parts_view(parts@)),
{
    let mut j: usize = 0;
    while j < parts.len()
        invariant
            0 <= j <= parts@.len(),
            forall|k: int| 0 <= k < j ==> #[trigger] parts_view(parts@)[k] is Some,
        decreases parts@.len() - j,
    {
        if parts[j].is_none() {
            assert(parts_view(parts@)[j as int] is None);
            return false;
        }
        j = j + 1;
    }
    true
}

/// The received fragments concatenated in index order.
fn concatenate(parts: &Vec<Option<Vec<u8>>>) -> (out: Vec<u8>)
    requires
        complete(parts_view(parts@)),
    ensures
        out@ == concat_parts(parts_view(parts@)),
{
    let ghost pv = parts_view(parts@);
    let mut out: Vec<u8> = Vec::new();
    let mut j: usize = 0;
    assert(pv.take(0) =~= Seq::<Option<Seq<u8>>>::empty());
    while j < parts.len()
        invariant
            0 <= j <= parts@.len(),
            pv == parts_view(parts@),
            pv.len() == parts@.len(),
            complete(pv),
            out@ == concat_parts(pv.take(j as int)),
        decreases parts@.len() - j,
    {
        proof {
            lemma_concat_parts_take(pv, j as int);
            assert(pv[j as int] is Some);
        }
        match &parts[j] {
            Some(v) => {
                append_range(&mut out, v.as_slice(), 0, v.len());
                assert(v@.subrange(0, v@.len() as int) =~= v@);
            },
            None => {},
        }
        j = j + 1;
    }
    assert(pv.take(parts@.len() as int) =~= pv);
    out
}

/// The partial messages, and the last result, after taking in `pkts` one
/// after the other, `pkts[i]` at time `times[i]`.
pub open spec fn push_all(entries: Seq<EntryView>, pkts: Seq<Seq<u8>>, times: Seq<Timestamp>) -> (Seq<EntryView>, Option<Seq<u8>>)
    decreases pkts.len(),
{
    if pkts.len() == 0 {
        (entries, None)
    } else {
        push_result(push_all(entries, pkts.drop_last(), times.drop_last()).0, pkts.last(), times.last())
    }
}

/// `entries` after staleness pruning at each of the first `k` times.
pub open spec fn prune_chain(entries: Seq<EntryView>, times: Seq<Timestamp>, k: int) -> Seq<EntryView>
    decreases k,
{
    if k <= 0 {
        entries
    } else {
        prune(prune_chain(entries, times, k - 1), times[k - 1])
    }
}

/// `times` has `n` well-formed times, each less than `STALE_SECS` seconds
/// after the one before it.
pub open spec fn spaced(times: Seq<Timestamp>, n: nat) -> bool {
    &&& times.len() == n
    &&& forall|i: int| 0 <= i < n ==> (#[trigger] times[i]).wf()
    &&& forall|i: int| 0 < i < n ==> spec_elapsed_secs(times[i - 1], #[trigger] times[i]) < STALE_SECS
}

/// Reading back the two bytes of a 16-bit value gives the value.
proof fn lemma_be16(v: u16)
    ensures
        (be16(v)[0] as nat) * 256 + be16(v)[1] as nat == v,
{
    let hi = (v >> 8u16) as u8;
    let lo = v as u8;
    assert(hi as u16 * 256 + lo as u16 == v) by (bit_vector)
        requires
            hi == (v >> 8u16) as u8,
            lo == v as u8,
    ;
}

/// Where fragment `i` of a message lies in it.
proof fn lemma_chunk_bounds(len: nat, i: int)
    requires
        0 <= i < fragment_count(len),
    ensures
        i * 160 < len,
        (i + 1) * 160 >= len ==> i + 1 == fragment_count(len),
        fragment_count(len) * 160 >= len,
{
    assert(i * 160 < len && ((i + 1) * 160 >= len ==> i + 1 == (len + 159) / 160) && ((len + 159) / 160) * 160 >= len) by (nonlinear_arith)
        requires
            0 <= i < (len + 159) / 160,
    ;
}

/// The header of each fragment names the message, the fragment's index and
/// the fragment count, and its body is the fragment's part of the message.
proof fn lemma_fragment_header(id: u128, data: Seq<u8>, i: int)
    requires
        0 <= i < fragment_count(data.len()),
        fragment_count(data.len()) <= 0xffff,
    ensures
        spec_fragment(id, data)[i].len() > HEADER_LEN,
        header_id(spec_fragment(id, data)[i]) == id,
        header_seq(spec_fragment(id, data)[i]) == i,
        header_total(spec_fragment(id, data)[i]) == fragment_count(data.len()),
        body(spec_fragment(id, data)[i]) == chunk_of(data, i),
{
    let n = fragment_count(data.len());
    let f = spec_fragment(id, data)[i];
    lemma_chunk_bounds(data.len(), i);
    lemma_id_bytes_roundtrip(id);
    lemma_be16(i as u16);
    lemma_be16(n as u16);
    assert(f == fragment_bytes(id, i, n, data));
    assert(f.subrange(0, 16) =~= id_bytes(id));
    assert(f[16] == be16(i as u16)[0] && f[17] == be16(i as u16)[1]);
    assert(f[18] == be16(n as u16)[0] && f[19] == be16(n as u16)[1]);
    assert(body(f) =~= chunk_of(data, i));
}

/// The first `m` parts of a message, concatenated.
proof fn lemma_concat_chunks(data: Seq<u8>, m: nat)
    requires
        m <= fragment_count(data.len()),
    ensures
        concat_parts(Seq::new(m, |j: int| Some(chunk_of(data, j)))) == data.subrange(
            0,
            if m * 160 <= data.len() { (m * 160) as int } else { data.len() as int },
        ),
    decreases m,
{
    let s = Seq::new(m, |j: int| Some(chunk_of(data, j)));
    if m == 0 {
        assert(data.subrange(0, 0) =~= Seq::<u8>::empty());
    } else {
        lemma_chunk_bounds(data.len(), m - 1);
        lemma_concat_chunks(data, (m - 1) as nat);
        assert(s.drop_last() =~= Seq::new((m - 1) as nat, |j: int| Some(chunk_of(data, j))));
        let end = if m * 160 <= data.len() { (m * 160) as int } else { data.len() as int };
        assert(data.subrange(0, (m - 1) * 160) + chunk_of(data, m - 1) =~= data.subrange(0, end));
    }
}

/// `n` arrivals all at time `now`.
pub open spec fn at_one_time(now: Timestamp, n: nat) -> Seq<Timestamp> {
    Seq::new(n, |i: int| now)
}

/// Fragmenting a non-empty message and taking the fragments in, in order and
/// all at one time, into an empty reassembler gives back nothing until the
/// last fragment, and then exactly the message, leaving nothing behind.
pub proof fn lemma_fragment_reassemble_roundtrip(id: u128, data: Seq<u8>, now: Timestamp)
    requires
        data.len() > 0,
        fragment_count(data.len()) <= 0xffff,
        now.wf(),
    ensures
        push_all(Seq::empty(), spec_fragment(id, data), at_one_time(now, fragment_count(data.len())))
            == (Seq::<EntryView>::empty(), Some(data)),
        forall|k: int| 0 <= k < fragment_count(data.len()) ==> (#[trigger] push_all(
            Seq::empty(),
            spec_fragment(id, data).take(k),
            at_one_time(now, fragment_count(data.len())).take(k),
        )).1 is None,
{
    let n = fragment_count(data.len());
    let order = Seq::new(n, |i: int| i);
    let times = at_one_time(now, n);
    assert(is_order(order, n));
    assert forall|i: int| 0 < i < n implies spec_elapsed_secs(times[i - 1], #[trigger] times[i]) < STALE_SECS by {
        assert(times[i - 1] == now && times[i] == now);
    }
    assert(find(Seq::<EntryView>::empty(), id) is None);
    lemma_fragments_any_order(id, data, order, Seq::empty(), times);
    lemma_prune_chain_empty(times, n as int);
    assert(reordered(id, data, order) =~= spec_fragment(id, data));
}

/// Pruning nothing gives nothing.
proof fn lemma_prune_chain_empty(times: Seq<Timestamp>, k: int)
    ensures
        prune_chain(Seq::empty(), times, k) == Seq::<EntryView>::empty(),
    decreases k,
{
    if k > 0 {
        lemma_prune_chain_empty(times, k - 1);
        assert(prune(Seq::<EntryView>::empty(), times[k - 1]) =~= Seq::<EntryView>::empty());
    }
}

/// `order` lists each fragment index of an `n`-fragment message once.
pub open spec fn is_order(order: Seq<int>, n: nat) -> bool {
    &&& order.len() == n
    &&& order.no_duplicates()
    &&& forall|i: int| 0 <= i < order.len() ==> 0 <= #[trigger] order[i] < n
}

/// The fragments of `data` in the order `order`.
pub open spec fn reordered(id: u128, data: Seq<u8>, order: Seq<int>) -> Seq<Seq<u8>> {
    Seq::new(order.len(), |i: int| spec_fragment(id, data)[order[i]])
}

/// The partial message after the fragments `order[..k]` of `data` arrived.
pub open spec fn arrived(data: Seq<u8>, order: Seq<int>, k: int) -> Seq<Option<Seq<u8>>> {
    Seq::new(fragment_count(data.len()), |j: int| if order.take(k).contains(j) { Some(chunk_of(data, j)) } else { None })
}

/// What a reassembler that held `others` holds after the fragments
/// `order[..k]` of `data` arrived at `times[..k]`: the other entries, pruned
/// at each arrival, then the partial message while it is incomplete.
pub open spec fn any_order_state(
    id: u128,
    data: Seq<u8>,
    order: Seq<int>,
    others: Seq<EntryView>,
    times: Seq<Timestamp>,
    k: int,
) -> Seq<EntryView> {
    let p = prune_chain(others, times, k);
    if k == 0 || k == fragment_count(data.len()) {
        p
    } else {
        p.push(EntryView { id, parts: arrived(data, order, k), last_update: times[k - 1] })
    }
}

/// An order of all `n` indices contains each of them.
proof fn lemma_order_covers(order: Seq<int>, n: nat)
    requires
        is_order(order, n),
    ensures
        forall|j: int| 0 <= j < n ==> order.contains(j),
{
    broadcast use vstd::seq_lib::seq_to_set_is_finite;
    order.unique_seq_to_set();
    vstd::set_lib::lemma_int_range(0, n as int);
    let r = vstd::set_lib::set_int_range(0, n as int);
    assert forall|x: int| order.to_set().contains(x) implies r.contains(x) by {
        let i = choose|i: int| 0 <= i < order.len() && order[i] == x;
        assert(0 <= order[i] < n);
    }
    vstd::set_lib::lemma_subset_equality(order.to_set(), r);
    assert forall|j: int| 0 <= j < n implies order.contains(j) by {
        assert(r.contains(j));
        assert(order.to_set().contains(j));
    }
}

/// Fewer than `n` indices miss one of `0..n`.
proof fn lemma_prefix_misses(prefix: Seq<int>, n: nat)
    requires
        prefix.len() < n,
    ensures
        exists|j: int| 0 <= j < n && !#[trigger] prefix.contains(j),
{
    broadcast use vstd::seq_lib::seq_to_set_is_finite;
    vstd::set_lib::lemma_int_range(0, n as int);
    prefix.lemma_cardinality_of_set();
    let r = vstd::set_lib::set_int_range(0, n as int);
    if forall|j: int| 0 <= j < n ==> prefix.contains(j) {
        assert forall|x: int| r.contains(x) implies prefix.to_set().contains(x) by {
            assert(prefix.contains(x));
        }
        vstd::set_lib::lemma_len_subset(r, prefix.to_set());
        assert(false);
    }
}

/// Pruning keeps a message that has no entry without one.
proof fn lemma_find_prune_none(s: Seq<EntryView>, id: u128, now: Timestamp)
    requires
        find(s, id) is None,
    ensures
        find(prune(s, now), id) is None,
    decreases s.len(),
{
    if s.len() > 0 {
        lemma_find_prune_none(s.drop_last(), id, now);
        let r = prune(s.drop_last(), now);
        assert(r.push(s.last()).drop_last() =~= r);
    }
}

/// Pruning at several times keeps a message that has no entry without one.
proof fn lemma_find_prune_chain_none(s: Seq<EntryView>, times: Seq<Timestamp>, id: u128, k: int)
    requires
        find(s, id) is None,
    ensures
        find(prune_chain(s, times, k), id) is None,
    decreases k,
{
    if k > 0 {
        lemma_find_prune_chain_none(s, times, id, k - 1);
        lemma_find_prune_none(prune_chain(s, times, k - 1), id, times[k - 1]);
    }
}

/// One more fragment, in any order, in time.
#[verifier::rlimit(30)]
proof fn lemma_any_order_step(id: u128, data: Seq<u8>, order: Seq<int>, others: Seq<EntryView>, times: Seq<Timestamp>, k: int)
    requires
        0 <= k < fragment_count(data.len()),
        fragment_count(data.len()) <= 0xffff,
        is_order(order, fragment_count(data.len())),
        spaced(times, fragment_count(data.len())),
        find(others, id) is None,
    ensures
        !push_overflows(any_order_state(id, data, order, others, times, k), spec_fragment(id, data)[order[k]], times[k]),
        push_result(any_order_state(id, data, order, others, times, k), spec_fragment(id, data)[order[k]], times[k]) == (
            any_order_state(id, data, order, others, times, k + 1),
            if k + 1 == fragment_count(data.len()) { Some(data) } else { None::<Seq<u8>> },
        ),
{
    let n = fragment_count(data.len());
    let o = order[k];
    let f = spec_fragment(id, data)[o];
    let t = times[k];
    let p = prune_chain(others, times, k);
    let p2 = prune_chain(others, times, k + 1);
    let st = any_order_state(id, data, order, others, times, k);
    assert(0 <= o < n);
    lemma_fragment_header(id, data, o);
    lemma_find_prune_chain_none(others, times, id, k + 1);
    assert(p2 == prune(p, t));
    let e0 = prune(st, t);
    if k == 0 {
        assert(st == p);
        assert(e0 == p2);
        assert(order.take(0) =~= Seq::<int>::empty());
        assert(Seq::new(n, |j: int| None::<Seq<u8>>) =~= arrived(data, order, 0));
    } else {
        let x = EntryView { id, parts: arrived(data, order, k), last_update: times[k - 1] };
        assert(st == p.push(x));
        assert(st.drop_last() =~= p);
        assert(spec_elapsed_secs(times[k - 1], t) < STALE_SECS);
        assert(e0 == p2.push(x));
        assert(p2.push(x).drop_last() =~= p2);
        assert(find(e0, id) == Some(p2.len() as int));
    }
    let e1 = with_entry(e0, f, t);
    let idx = p2.len() as int;
    if k == 0 {
        assert(e1 == p2.push(EntryView { id, parts: arrived(data, order, 0), last_update: t }));
    } else {
        assert(e1 == e0);
    }
    assert(e1.drop_last() =~= p2);
    assert(find(e1, id) == Some(idx));
    assert(e1[idx].parts == arrived(data, order, k));
    assert(order.take(k + 1) =~= order.take(k).push(o));
    let parts = e1[idx].parts.update(o, Some(body(f)));
    assert forall|j: int| 0 <= j < n implies #[trigger] parts[j] == arrived(data, order, k + 1)[j] by {
        if j == o {
            assert(order.take(k + 1)[k] == o);
        } else {
            assert(order.take(k + 1).contains(j) == order.take(k).contains(j)) by {
                if order.take(k + 1).contains(j) {
                    let i = choose|i: int| 0 <= i < k + 1 && #[trigger] order.take(k + 1)[i] == j;
                    assert(i < k);
                    assert(order.take(k)[i] == j);
                }
                if order.take(k).contains(j) {
                    let i = choose|i: int| 0 <= i < k && #[trigger] order.take(k)[i] == j;
                    assert(order.take(k + 1)[i] == j);
                }
            }
        }
    }
    assert(parts =~= arrived(data, order, k + 1));
    if k + 1 == n {
        lemma_order_covers(order, n);
        assert(order.take(k + 1) =~= order);
        assert(parts =~= Seq::new(n, |j: int| Some(chunk_of(data, j))));
        assert(complete(parts));
        lemma_concat_chunks(data, n);
        lemma_chunk_bounds(data.len(), k);
        assert(data.subrange(0, data.len() as int) =~= data);
        assert(e1.remove(idx) =~= p2);
    } else {
        lemma_prefix_misses(order.take(k + 1), n);
        let j = choose|j: int| 0 <= j < n && !#[trigger] order.take(k + 1).contains(j);
        assert(!(parts[j] is Some));
        assert(!complete(parts));
        assert(e1.update(idx, EntryView { parts, last_update: t, ..e1[idx] }) =~= any_order_state(id, data, order, others, times, k + 1));
    }
}

/// The first `k` fragments of `data`, in the order `order`, at the first `k`
/// times, into a reassembler that held `others`.
proof fn lemma_any_order(id: u128, data: Seq<u8>, order: Seq<int>, others: Seq<EntryView>, times: Seq<Timestamp>, k: int)
    requires
        0 <= k <= fragment_count(data.len()),
        fragment_count(data.len()) <= 0xffff,
        is_order(order, fragment_count(data.len())),
        spaced(times, fragment_count(data.len())),
        find(others, id) is None,
    ensures
        push_all(others, reordered(id, data, order).take(k), times.take(k)).0 == any_order_state(id, data, order, others, times, k),
        push_all(others, reordered(id, data, order).take(k), times.take(k)).1 == if k > 0 && k == fragment_count(data.len()) { Some(data) } else { None::<Seq<u8>> },
    decreases k,
{
    let frags = reordered(id, data, order);
    if k > 0 {
        lemma_any_order(id, data, order, others, times, k - 1);
        assert(frags.take(k).drop_last() =~= frags.take(k - 1));
        assert(times.take(k).drop_last() =~= times.take(k - 1));
        assert(frags.take(k).last() == spec_fragment(id, data)[order[k - 1]]);
        assert(times.take(k).last() == times[k - 1]);
        lemma_any_order_step(id, data, order, others, times, k - 1);
    }
}

/// Reassembly does not depend on the order of arrival, nor on other partial
/// messages: taking the fragments of a non-empty message in, in any order,
/// each less than `STALE_SECS` seconds after the one before, into a
/// reassembler that holds no entry for that message (and any others) never
/// overflows, gives back nothing until the last fragment, and then exactly
/// the message; the message's entry is then gone, and the other entries are
/// as staleness pruning at each arrival left them.
pub proof fn lemma_fragments_any_order(
    id: u128,
    data: Seq<u8>,
    order: Seq<int>,
    others: Seq<EntryView>,
    times: Seq<Timestamp>,
)
    requires
        data.len() > 0,
        fragment_count(data.len()) <= 0xffff,
        is_order(order, fragment_count(data.len())),
        spaced(times, fragment_count(data.len())),
        find(others, id) is None,
    ensures
        push_all(others, reordered(id, data, order), times) == (prune_chain(others, times, fragment_count(data.len()) as int), Some(data)),
        find(prune_chain(others, times, fragment_count(data.len()) as int), id) is None,
        forall|k: int| 0 <= k < fragment_count(data.len()) ==> (#[trigger] push_all(others, reordered(id, data, order).take(k), times.take(k))).1 is None,
        forall|k: int| 0 <= k < fragment_count(data.len()) ==> !push_overflows(
            (#[trigger] push_all(others, reordered(id, data, order).take(k), times.take(k))).0,
            reordered(id, data, order)[k],
            times[k],
        ),
{
    let n = fragment_count(data.len());
    lemma_chunk_bounds(data.len(), 0);
    lemma_any_order(id, data, order, others, times, n as int);
    lemma_find_prune_chain_none(others, times, id, n as int);
    assert(reordered(id, data, order).take(n as int) =~= reordered(id, data, order));
    assert(times.take(n as int) =~= times);
    assert forall|k: int| 0 <= k < fragment_count(data.len()) implies {
        &&& (#[trigger] push_all(others, reordered(id, data, order).take(k), times.take(k))).1 is None
        &&& !push_overflows(push_all(others, reordered(id, data, order).take(k), times.take(k)).0, reordered(id, data, order)[k], times[k])
    } by {
        lemma_any_order(id, data, order, others, times, k);
        lemma_any_order_step(id, data, order, others, times, k);
    }
}

} // verus!

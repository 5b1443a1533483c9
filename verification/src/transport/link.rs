//! The protocol state of a BLE link: fragments are reassembled into
//! messages, acknowledgement packets settle pending messages, and outgoing
//! messages are registered and fragmented. The radio work is the caller's.
use vstd::prelude::*;
use crate::clock::{Timestamp, now_timestamp};
use crate::ids::new_msg_id;
use crate::transport::fragment::{fragment, spec_fragment};
use crate::transport::messaging::{
    AckTracker, AckView, ack_id, ack_received, decode_ack, is_ack_packet, prune_pending,
    spec_decode_ack, ACK_LEN, pending_ids,
};
use crate::transport::reassembly::{EntryView, Reassembler, entries_wf, push_overflows, push_result};

verus! {

/// Seconds an outgoing message waits for its acknowledgement.
pub const ACK_TIMEOUT_SECS: u64 = 30;

/// What a link holds: its partial messages and its acknowledgement tracker.
pub struct LinkView {
    pub partial: Seq<EntryView>,
    pub acks: AckView,
}

/// A BLE link's reassembler and acknowledgement tracker.
pub struct BleLinkState {
    reassembler: Reassembler,
    acks: AckTracker,
}

impl View for BleLinkState {
    type V = LinkView;

    closed spec fn view(&self) -> LinkView {
        LinkView { partial: self.reassembler@, acks: self.acks@ }
    }
}

impl LinkView {
    /// Both parts are well formed.
    pub open spec fn wf(self) -> bool {
        entries_wf(self.partial) && self.acks.wf()
    }
}

/// What taking in `packet` at `now` does to a link, and the message it
/// completes, if any: an acknowledgement packet settles its message and
/// completes nothing; any other packet is a fragment for the reassembler.
pub open spec fn link_packet(l: LinkView, packet: Seq<u8>, now: Timestamp) -> (LinkView, Option<Seq<u8>>) {
    if packet.len() == ACK_LEN {
        match spec_decode_ack(packet) {
            Some(a) => (LinkView { acks: ack_received(l.acks, ack_id(a)), ..l }, None),
            None => (l, None),
        }
    } else {
        let r = push_result(l.partial, packet, now);
        (LinkView { partial: r.0, ..l }, r.1)
    }
}

/// Taking in `packet` at `now` would index past the fragments of a
/// partial message.
pub open spec fn link_overflows(l: LinkView, packet: Seq<u8>, now: Timestamp) -> bool {
    packet.len() != ACK_LEN && push_overflows(l.partial, packet, now)
}

impl BleLinkState {
    /// A link with no partial messages and nothing awaiting acknowledgement.
    pub fn new() -> (s: BleLinkState)
        ensures
            s@.wf(),
            s@.partial.len() == 0,
            s@.acks.pending.len() == 0,
            s@.acks.acked.len() == 0,
            s@.acks.timeout_secs == ACK_TIMEOUT_SECS,
    {
        BleLinkState { reassembler: Reassembler::new(), acks: AckTracker::new(ACK_TIMEOUT_SECS) }
    }

    /// The numbers of messages awaiting acknowledgement and acknowledged.
    pub fn ack_stats(&self) -> (r: (usize, usize))
        ensures
            r == (self@.acks.pending.len() as usize, self@.acks.acked.len() as usize),
    {
        self.acks.stats()
    }

    /// On starting the link at `now`: forgets messages whose acknowledgement
    /// timed out.
    pub fn start_at(&mut self, now: Timestamp)
        requires
            old(self)@.wf(),
            now.wf(),
        ensures
            final(self)@.wf(),
            final(self)@.partial == old(self)@.partial,
            final(self)@.acks == (AckView {
                pending: prune_pending(old(self)@.acks.pending, old(self)@.acks.timeout_secs, now),
                ..old(self)@.acks
            }),
    {
        self.acks.prune_expired_at(now);
    }

    /// On starting the link now; see `start_at`.
    pub fn start(&mut self)
        requires
            old(self)@.wf(),
        ensures
            final(self)@.wf(),
            exists|now: Timestamp| now.wf() && final(self)@ == (LinkView {
                acks: AckView {
                    pending: prune_pending(old(self)@.acks.pending, old(self)@.acks.timeout_secs, now),
                    ..old(self)@.acks
                },
                ..old(self)@
            }),
    {
        let now = now_timestamp();
        self.start_at(now);
    }

    /// Whether taking in `packet` at `now` would overflow a partial message.
    pub fn overflows_at(&self, packet: &Vec<u8>, now: Timestamp) -> (r: bool)
        requires
            self@.wf(),
            now.wf(),
        ensures
            r == link_overflows(self@, packet@, now),
    {
        if is_ack_packet(packet.as_slice()) {
            return false;
        }
        self.reassembler.overflows_at(packet, now)
    }

    /// Takes in one received packet at `now`; see `link_packet`. Returns the
    /// message it completes.
    pub fn on_packet_at(&mut self, packet: Vec<u8>, now: Timestamp) -> (r: Option<Vec<u8>>)
        requires
            old(self)@.wf(),
            now.wf(),
            !link_overflows(old(self)@, packet@, now),
        ensures
            final(self)@.wf(),
            final(self)@ == link_packet(old(self)@, packet@, now).0,
            r is Some <==> link_packet(old(self)@, packet@, now).1 is Some,
            r matches Some(m) ==> link_packet(old(self)@, packet@, now).1 == Some(m@),
    {
        if is_ack_packet(packet.as_slice()) {
            match decode_ack(packet.as_slice()) {
                Some(ack) => {
                    let _ = self.acks.receive_ack(&ack);
                },
                None => {},
            }
            return None;
        }
        self.reassembler.push_at(packet, now)
    }

    /// Prepares `data` for sending at `now`: with peers to send to, a fresh
    /// message identifier is registered as awaiting acknowledgement and the
    /// fragments of `data` under it are returned; with none, nothing is
    /// registered and nothing is returned.
    pub fn prepare_send_at(&mut self, data: &[u8], has_peers: bool, now: Timestamp) -> (parts: Vec<Vec<u8>>)
        requires
            old(self)@.wf(),
            now.wf(),
        ensures
            final(self)@.wf(),
            !has_peers ==> parts@.len() == 0 && final(self)@ == old(self)@,
            has_peers ==> exists|id: u128| {
                &&& parts@.map_values(|p: Vec<u8>| p@) == #[trigger] spec_fragment(id, data@)
                &&& final(self)@.partial == old(self)@.partial
                &&& final(self)@.acks.acked == old(self)@.acks.acked
                &&& final(self)@.acks.timeout_secs == old(self)@.acks.timeout_secs
                &&& final(self)@.acks.pending == if old(self)@.acks.is_pending(id) {
                    old(self)@.acks.pending.update(pending_ids(old(self)@.acks.pending).index_of(id), (id, now))
                } else {
                    old(self)@.acks.pending.push((id, now))
                }
            },
    {
        if !has_peers {
            return Vec::new();
        }
        let id = new_msg_id();
        self.acks.register_at(id, now);
        let parts = fragment(id, data);
        proof {
            assert(parts@.map_values(|p: Vec<u8>| p@) =~= spec_fragment(id, data@));
        }
        parts
    }
}

} // verus!

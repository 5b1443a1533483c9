//! Creating, listing and clearing alerts.
use vstd::prelude::*;
use crate::alert_index::{
    AlertIndex, unique_ids, StoredEnvelope, add_alert, list_alerts, clear_alerts, has_id, stored_view,
    truncate_time, envelopes_view,
};
use crate::crypto::encrypt::{sealable, TAG_LEN};
use crate::envelope::{Envelope, EnvelopeView, Priority, DEFAULT_ENVELOPE_TTL_SECS, DEFAULT_MAX_HOPS};
use crate::error::MeshResult;
use crate::router::{Router, RouterView, sealed, sealed_opens};

verus! {

/// Alert operations.
pub struct AlertService;

impl AlertService {
    /// Creates an alert from `sender` with `priority` and `payload`: a new
    /// envelope is added to the index, and, when a router is running, sealed
    /// and queued on it (a failure to seal leaves the router as it was).
    /// Returns the alert's identifier and the record the caller stores in
    /// the database.
    pub fn create_alert(
        index: &mut AlertIndex,
        router: &mut Option<Router>,
        sender: String,
        priority: Priority,
        payload: Vec<u8>,
    ) -> (r: MeshResult<(u128, StoredEnvelope)>)
        requires
            match *old(router) {
                Some(rt) => rt@.wf(),
                None => true,
            },
        ensures
            r matches Ok((id, rec)) && exists|e: EnvelopeView| {
                &&& #[trigger] new_alert(e, sender@, priority, payload@)
                &&& e.msg_id == id
                &&& stored_view(rec) == truncate_time(e)
                &&& final(index)@ == (if has_id(old(index)@, id) { old(index)@ } else { old(index)@.push(e) })
                &&& match (*old(router), *final(router)) {
                    (Some(a), Some(b)) => queued_local(a@, b@, e),
                    (None, None) => true,
                    _ => false,
                }
            },
            match *final(router) {
                Some(rt) => rt@.wf(),
                None => true,
            },
            unique_ids(old(index)@) ==> unique_ids(final(index)@),
    {
        let env = Envelope::new(sender, priority, payload);
        let msg_id = env.msg_id;
        let ghost ev = env@;
        let record = add_alert(index, env.duplicate());
        let ghost old_router = *router;
        let taken = router.take();
        match taken {
            Some(mut rt) => {
                let ghost before = rt@;
                let res = rt.enqueue_local(env);
                proof {
                    if res is Ok {
                        let nonce = choose|nonce: Seq<u8>|
                            #![trigger sealed(ev, before.sym_key, nonce, before.secret)]
                            {
                                &&& nonce.len() == 12
                                &&& rt@ == before.enqueue(sealed(ev, before.sym_key, nonce, before.secret))
                                &&& sealed_opens(sealed(ev, before.sym_key, nonce, before.secret), before.sym_key, ev.payload)
                            };
                        assert(queued_local(before, rt@, ev));
                    }
                }
                *router = Some(rt);
            },
            None => {},
        }
        proof {
            assert(new_alert(ev, sender@, priority, payload@));
        }
        Ok((msg_id, record))
    }

    /// The known alerts, given what the database holds; see `listed`. The
    /// cache then holds the same list.
    pub fn list_alerts(index: &mut AlertIndex, from_db: Vec<Envelope>) -> (r: Vec<Envelope>)
        ensures
            envelopes_view(r@) == listed(old(index)@, envelopes_view(from_db@)),
            final(index)@ == listed(old(index)@, envelopes_view(from_db@)),
    {
        list_alerts(index, from_db)
    }

    /// Empties the alert cache (the caller clears the database).
    pub fn clear_alerts(index: &mut AlertIndex)
        ensures
            final(index)@ == Seq::<EnvelopeView>::empty(),
    {
        clear_alerts(index)
    }

    /// The first known alert with identifier `id`, if any, given what the
    /// database holds. The cache then holds the listed alerts, as after
    /// `list_alerts`.
    pub fn get_alert(index: &mut AlertIndex, from_db: Vec<Envelope>, id: u128) -> (r: Option<Envelope>)
        ensures
            final(index)@ == listed(old(index)@, envelopes_view(from_db@)),
            r is Some <==> has_id(listed(old(index)@, envelopes_view(from_db@)), id),
            r matches Some(e) ==> e.msg_id == id && listed(old(index)@, envelopes_view(from_db@)).contains(e@),
            r matches Some(e) ==> exists|i: int| {
                &&& 0 <= i < listed(old(index)@, envelopes_view(from_db@)).len()
                &&& #[trigger] listed(old(index)@, envelopes_view(from_db@))[i] == e@
                &&& forall|k: int| 0 <= k < i ==> (#[trigger] listed(old(index)@, envelopes_view(from_db@))[k]).msg_id != id
            },
    {
        let ghost db = envelopes_view(from_db@);
        let all = list_alerts(index, from_db);
        let ghost l = envelopes_view(all@);
        assert(l == listed(old(index)@, db));
        let mut j: usize = 0;
        while j < all.len()
            invariant
                0 <= j <= all@.len(),
                l == envelopes_view(all@),
                l == listed(old(index)@, db),
                db == envelopes_view(from_db@),
                index@ == l,
                forall|k: int| 0 <= k < j ==> (#[trigger] all@[k]).msg_id != id,
            decreases all@.len() - j,
        {
            if all[j].msg_id == id {
                assert(l[j as int] == all@[j as int]@);
                assert(l[j as int].msg_id == id);
                assert(has_id(l, id));
                assert(l.contains(all@[j as int]@));
                let found = all[j].duplicate();
                assert(l[j as int] == found@);
                assert forall|k: int| 0 <= k < j implies (#[trigger] l[k]).msg_id != id by {
                    assert(l[k] == all@[k]@);
                }
                return Some(found);
            }
            j = j + 1;
        }
        proof {
            assert forall|i: int| 0 <= i < l.len() implies (#[trigger] l[i]).msg_id != id by {
                assert(l[i] == all@[i]@);
            }
        }
        None
    }
}

/// `e` is a newly created alert from `sender` with `priority` and
/// `payload`: not yet forwarded, with the default lifetime and hop limit.
pub open spec fn new_alert(e: EnvelopeView, sender: Seq<char>, priority: Priority, payload: Seq<u8>) -> bool {
    &&& e.sender_id == sender
    &&& e.priority == priority
    &&& e.payload == payload
    &&& e.hop_count == 0
    &&& e.ttl_secs == DEFAULT_ENVELOPE_TTL_SECS
    &&& e.max_hops == DEFAULT_MAX_HOPS
    &&& e.created_at.wf()
}

/// Router `b` is router `a` after `e` was handed to `enqueue_local`: sealed
/// with some nonce (the ciphertext one tag longer than the payload) and
/// queued when its payload can be encrypted, and unchanged otherwise.
pub open spec fn queued_local(a: RouterView, b: RouterView, e: EnvelopeView) -> bool {
    if sealable(e.payload.len()) {
        exists|nonce: Seq<u8>|
            #![trigger sealed(e, a.sym_key, nonce, a.secret)]
            nonce.len() == 12 && b == a.enqueue(sealed(e, a.sym_key, nonce, a.secret))
                && sealed(e, a.sym_key, nonce, a.secret).payload.len() == e.payload.len() + TAG_LEN
    } else {
        b == a
    }
}

/// The list that `list_alerts` gives for cache `cache` and database contents
/// `db`.
pub open spec fn listed(cache: Seq<EnvelopeView>, db: Seq<EnvelopeView>) -> Seq<EnvelopeView> {
    if cache.len() > 0 && db.len() == 0 { cache } else { db }
}

/// After the alerts are cleared, with the database cleared too, nothing is
/// listed and no alert is found.
pub proof fn lemma_cleared_lists_nothing(db: Seq<EnvelopeView>, id: u128)
    requires
        db.len() == 0,
    ensures
        listed(Seq::empty(), db).len() == 0,
        !has_id(listed(Seq::empty(), db), id),
{
}

/// An alert created into a cache whose identifiers are unique is found again
/// by its identifier while the database holds nothing yet: it is listed, and
/// it is the only listed alert with that identifier.
pub proof fn lemma_created_alert_found(cache: Seq<EnvelopeView>, e: EnvelopeView, db: Seq<EnvelopeView>)
    requires
        unique_ids(cache),
        cache.contains(e),
        db.len() == 0,
    ensures
        has_id(listed(cache, db), e.msg_id),
        listed(cache, db).contains(e),
        forall|x: EnvelopeView| #[trigger] listed(cache, db).contains(x) && x.msg_id == e.msg_id ==> x == e,
{
    let i = choose|i: int| 0 <= i < cache.len() && cache[i] == e;
    assert(cache[i].msg_id == e.msg_id);
    assert forall|x: EnvelopeView| #[trigger] listed(cache, db).contains(x) && x.msg_id == e.msg_id implies x == e by {
        let j = choose|j: int| 0 <= j < cache.len() && cache[j] == x;
        if i != j {
            assert(cache[i].msg_id != cache[j].msg_id);
        }
    }
}

} // verus!

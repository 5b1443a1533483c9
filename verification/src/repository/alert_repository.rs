//! The alert repository over the in-memory alert index.
use vstd::prelude::*;
use crate::alert_index::{AlertIndex, has_id, in_memory_add, clear_alerts, copy_envelopes, remove_alert, without_id, lemma_without_id};
use crate::envelope::{Envelope, EnvelopeView};
use crate::error::MeshResult;
use crate::repository::traits::Repository;

verus! {

/// Alerts, kept in an alert index.
pub struct AlertRepository {
    index: AlertIndex,
}

impl View for AlertRepository {
    type V = Seq<EnvelopeView>;

    closed spec fn view(&self) -> Seq<EnvelopeView> {
        self.index@
    }
}

impl AlertRepository {
    /// An empty repository.
    pub fn new() -> (r: AlertRepository)
        ensures
            r@ == Seq::<EnvelopeView>::empty(),
    {
        AlertRepository { index: AlertIndex::new() }
    }
}

impl Repository<Envelope, u128> for AlertRepository {
    fn save(&mut self, entity: &Envelope) -> (r: MeshResult<()>)
        ensures
            r is Ok,
            final(self)@ == if has_id(old(self)@, entity.msg_id) { old(self)@ } else { old(self)@.push(entity@) },
    {
        in_memory_add(&mut self.index, entity.duplicate());
        Ok(())
    }

    fn find_by_id(&self, id: &u128) -> (r: MeshResult<Option<Envelope>>)
        ensures
            r matches Ok(o) && (o is Some <==> has_id(self@, *id)),
            r matches Ok(Some(e)) ==> e.msg_id == *id && self@.contains(e@),
    {
        let all = copy_envelopes(self.index.memory_ref());
        let mut j: usize = 0;
        while j < all.len()
            invariant
                0 <= j <= all@.len(),
                crate::alert_index::envelopes_view(all@) == self@,
                forall|k: int| 0 <= k < j ==> (#[trigger] all@[k]).msg_id != *id,
            decreases all@.len() - j,
        {
            if all[j].msg_id == *id {
                assert(self@[j as int] == all@[j as int]@);
                return Ok(Some(all[j].duplicate()));
            }
            j = j + 1;
        }
        assert forall|i: int| 0 <= i < self@.len() implies (#[trigger] self@[i]).msg_id != *id by {
            assert(self@[i] == all@[i]@);
        }
        Ok(None)
    }

    fn list_all(&self) -> (r: MeshResult<Vec<Envelope>>)
        ensures
            r matches Ok(v) && crate::alert_index::envelopes_view(v@) == self@,
    {
        Ok(copy_envelopes(self.index.memory_ref()))
    }

    fn remove(&mut self, id: &u128) -> (r: MeshResult<()>)
        ensures
            r is Ok,
            final(self)@ == without_id(old(self)@, *id),
            !has_id(final(self)@, *id),
    {
        proof {
            lemma_without_id(self@, *id);
        }
        remove_alert(&mut self.index, *id);
        Ok(())
    }

    fn clear(&mut self) -> (r: MeshResult<()>)
        ensures
            r is Ok,
            final(self)@ == Seq::<EnvelopeView>::empty(),
    {
        clear_alerts(&mut self.index);
        Ok(())
    }
}

} // verus!

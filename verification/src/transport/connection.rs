//! The set of peers with an open BLE session.
use vstd::prelude::*;

verus! {

/// The identifiers of a list of sessions.
pub open spec fn session_ids(s: Seq<String>) -> Seq<Seq<char>> {
    s.map_values(|x: String| x@)
}

/// Which peers are connected.
pub struct ConnectionTable {
    /// Peer identifiers, each at most once. A list rather than a hash map:
    /// vstd's hash-map contracts hold only for the key types it declares
    /// well-behaved (integers, `bool`), and `String` is not among them, so
    /// nothing about membership could be proved of one.
    sessions: Vec<String>,
}

impl View for ConnectionTable {
    type V = Set<Seq<char>>;

    closed spec fn view(&self) -> Set<Seq<char>> {
        session_ids(self.sessions@).to_set()
    }
}

impl ConnectionTable {
    /// Each peer is listed at most once.
    #[verifier::type_invariant]
    closed spec fn wf(self) -> bool {
        session_ids(self.sessions@).no_duplicates()
    }

    /// The position of the session with `id`, if any.
    fn position(&self, id: &String) -> (r: Option<usize>)
        ensures
            r matches Some(j) ==> j < self.sessions@.len() && self.sessions@[j as int]@ == id@,
            r is None ==> !session_ids(self.sessions@).contains(id@),
    {
        let mut j: usize = 0;
        while j < self.sessions.len()
            invariant
                0 <= j <= self.sessions@.len(),
                forall|k: int| 0 <= k < j ==> (#[trigger] self.sessions@[k])@ != id@,
            decreases self.sessions@.len() - j,
        {
            if self.sessions[j] == *id {
                return Some(j);
            }
            j = j + 1;
        }
        proof {
            if session_ids(self.sessions@).contains(id@) {
                let k = choose|k: int| 0 <= k < session_ids(self.sessions@).len() && session_ids(self.sessions@)[k] == id@;
                assert(self.sessions@[k]@ == id@);
            }
        }
        None
    }

    /// A table with no sessions.
    pub fn new() -> (t: ConnectionTable)
        ensures
            t@ == Set::<Seq<char>>::empty(),
    {
        let t = ConnectionTable { sessions: Vec::new() };
        assert(session_ids(t.sessions@) =~= Seq::<Seq<char>>::empty());
        assert(t@ =~= Set::<Seq<char>>::empty());
        t
    }

    /// Records a session with `id`.
    pub fn connect(&mut self, id: String)
        ensures
            final(self)@ == old(self)@.insert(id@),
    {
        proof {
            use_type_invariant(&*self);
        }
        let ghost old_s = self.sessions@;
        match self.position(&id) {
            Some(_) => {
                assert(old_s[0]@ == old_s[0]@);
                assert(self@ =~= old(self)@.insert(id@)) by {
                    assert(session_ids(old_s).to_set().contains(id@)) by {
                        let j = choose|j: int| 0 <= j < old_s.len() && old_s[j]@ == id@;
                        assert(session_ids(old_s)[j] == id@);
                    }
                }
            },
            None => {
                let ghost v = id@;
                let mut sessions: Vec<String> = Vec::new();
                std::mem::swap(&mut sessions, &mut self.sessions);
                sessions.push(id);
                proof {
                    assert(session_ids(sessions@) =~= session_ids(old_s).push(v));
                    assert forall|a: int, b: int| 0 <= a < sessions@.len() && 0 <= b < sessions@.len() && a != b implies
                        session_ids(sessions@)[a] != session_ids(sessions@)[b] by {
                        if a < old_s.len() && b < old_s.len() {
                            assert(session_ids(old_s)[a] != session_ids(old_s)[b]);
                        } else if a < old_s.len() {
                            assert(session_ids(old_s)[a] != v);
                        } else if b < old_s.len() {
                            assert(session_ids(old_s)[b] != v);
                        }
                    }
                }
                self.sessions = sessions;
                proof {
                    assert(session_ids(self.sessions@) =~= session_ids(old_s).push(v));
                    assert(self@ =~= old(self)@.insert(v)) by {
                        assert forall|k: Seq<char>| self@.contains(k) <==> old(self)@.insert(v).contains(k) by {
                            if session_ids(old_s).push(v).contains(k) && k != v {
                                let j = choose|j: int| 0 <= j < session_ids(old_s).push(v).len() && session_ids(old_s).push(v)[j] == k;
                                assert(session_ids(old_s)[j] == k);
                            }
                            if session_ids(old_s).contains(k) {
                                let j = choose|j: int| 0 <= j < session_ids(old_s).len() && session_ids(old_s)[j] == k;
                                assert(session_ids(old_s).push(v)[j] == k);
                            }
                            if k == v {
                                assert(session_ids(old_s).push(v)[old_s.len() as int] == v);
                            }
                        }
                    }
                }
            },
        }
    }

    /// Ends the session with `id`, if there is one.
    pub fn disconnect(&mut self, id: &str)
        ensures
            final(self)@ == old(self)@.remove(id@),
    {
        proof {
            use_type_invariant(&*self);
        }
        let key = id.to_owned();
        let ghost old_s = self.sessions@;
        match self.position(&key) {
            Some(j) => {
                let mut sessions: Vec<String> = Vec::new();
                std::mem::swap(&mut sessions, &mut self.sessions);
                let _ = sessions.remove(j);
                proof {
                    let ids = session_ids(old_s);
                    assert(session_ids(sessions@) =~= ids.remove(j as int));
                    assert forall|a: int, b: int| 0 <= a < sessions@.len() && 0 <= b < sessions@.len() && a != b implies
                        session_ids(sessions@)[a] != session_ids(sessions@)[b] by {
                        let a2 = if a < j { a } else { a + 1 };
                        let b2 = if b < j { b } else { b + 1 };
                        assert(session_ids(sessions@)[a] == ids[a2]);
                        assert(session_ids(sessions@)[b] == ids[b2]);
                    }
                }
                self.sessions = sessions;
                proof {
                    let ids = session_ids(old_s);
                    assert(session_ids(self.sessions@) =~= ids.remove(j as int));
                    assert forall|k: Seq<char>| self@.contains(k) <==> old(self)@.remove(id@).contains(k) by {
                        if ids.remove(j as int).contains(k) {
                            let i = choose|i: int| 0 <= i < ids.remove(j as int).len() && ids.remove(j as int)[i] == k;
                            assert(ids[j as int] == id@);
                            if i < j {
                                assert(ids[i] == k);
                                assert(ids[i] != ids[j as int]);
                            } else {
                                assert(ids[i + 1] == k);
                                assert(ids[i + 1] != ids[j as int]);
                            }
                            assert(k != id@);
                        }
                        if ids.contains(k) && k != id@ {
                            let i = choose|i: int| 0 <= i < ids.len() && ids[i] == k;
                            assert(i != j);
                            if i < j {
                                assert(ids.remove(j as int)[i] == k);
                            } else {
                                assert(ids.remove(j as int)[i - 1] == k);
                            }
                        }
                    }
                    assert(self@ =~= old(self)@.remove(id@));
                }
            },
            None => {
                assert(self@ =~= old(self)@.remove(id@));
            },
        }
    }

    /// Whether a session with `id` is open.
    pub fn is_connected(&self, id: &str) -> (r: bool)
        ensures
            r == self@.contains(id@),
    {
        let key = id.to_owned();
        match self.position(&key) {
            Some(j) => {
                assert(session_ids(self.sessions@)[j as int] == id@);
                true
            },
            None => false,
        }
    }
}

/// A peer is connected right after it connects and not connected right
/// after it disconnects, whatever the table held before.
pub proof fn lemma_connect_disconnect(peers: Set<Seq<char>>, id: Seq<char>)
    ensures
        peers.insert(id).contains(id),
        !peers.remove(id).contains(id),
        !peers.insert(id).remove(id).contains(id),
{
}

} // verus!

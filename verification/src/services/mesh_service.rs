//! The mesh node's lifecycle decisions.
use vstd::prelude::*;
use crate::alert_index::{AlertIndex, load_alerts_from_db, envelopes_view};
use crate::envelope::Envelope;
use crate::error::MeshResult;
use crate::runtime::{RuntimeState, RuntimeView, set_runtime_tag, get_runtime_tag, mark_mesh_started, has_mesh_runtime};

verus! {

/// The status text shown before a tag is recorded.
pub open spec fn not_initialized_text() -> Seq<char> {
    "not-initialized"@
}

/// Lifecycle of the mesh node.
pub struct MeshService;

impl MeshService {
    /// Initialises the node with `tag`: records the tag and loads the alerts
    /// read from the database (`from_db`) into the cache. The caller persists
    /// the tag.
    pub fn initialize(state: &mut RuntimeState, index: &mut AlertIndex, tag: String, from_db: Vec<Envelope>) -> (r: MeshResult<()>)
        ensures
            r is Ok,
            final(state)@.tag == Some(tag@),
            final(state)@.mesh_started == old(state)@.mesh_started,
            final(index)@ == envelopes_view(from_db@),
    {
        set_runtime_tag(state, tag);
        load_alerts_from_db(index, from_db);
        Ok(())
    }

    /// Starts the mesh runtime unless it runs already: records `tag` and
    /// marks the runtime started. Returns whether the caller is to spawn the
    /// runtime (false when it was running already, and nothing changed).
    pub fn start_mesh_node(state: &mut RuntimeState, tag: String) -> (spawn: bool)
        ensures
            (final(state)@, spawn) == spec_start(old(state)@, tag@),
    {
        if has_mesh_runtime(state) {
            return false;
        }
        set_runtime_tag(state, tag);
        mark_mesh_started(state);
        true
    }

    /// The recorded tag, or "not-initialized".
    pub fn get_status(state: &RuntimeState) -> (s: String)
        ensures
            state@.tag matches Some(t) ==> s@ == t,
            state@.tag is None ==> s@ == not_initialized_text(),
    {
        match get_runtime_tag(state) {
            Some(t) => t,
            None => "not-initialized".to_string(),
        }
    }

    /// Whether the mesh runtime was started.
    pub fn is_running(state: &RuntimeState) -> (r: bool)
        ensures
            r == state@.mesh_started,
    {
        has_mesh_runtime(state)
    }
}

/// What starting the mesh node with `tag` does to the runtime state, and
/// whether a runtime is to be spawned.
pub open spec fn spec_start(s: RuntimeView, tag: Seq<char>) -> (RuntimeView, bool) {
    if s.mesh_started {
        (s, false)
    } else {
        (RuntimeView { tag: Some(tag), mesh_started: true }, true)
    }
}

/// Starting the mesh node is idempotent: once started, a second start
/// changes nothing and asks for no second runtime.
pub proof fn lemma_start_idempotent(s: RuntimeView, first: Seq<char>, second: Seq<char>)
    ensures
        spec_start(spec_start(s, first).0, second) == (spec_start(s, first).0, false),
{
}

} // verus!

//! Process-wide runtime status: the node's tag and whether the mesh runtime
//! was started. The caller owns the one instance of this state; once the
//! runtime is marked started, no operation unmarks it.
use vstd::prelude::*;

verus! {

/// What the runtime status holds: the node's tag, if recorded, and whether
/// the mesh runtime was started.
pub struct RuntimeView {
    pub tag: Option<Seq<char>>,
    pub mesh_started: bool,
}

/// The node's runtime status.
pub struct RuntimeState {
    tag: Option<String>,
    mesh_started: bool,
}

impl View for RuntimeState {
    type V = RuntimeView;

    closed spec fn view(&self) -> RuntimeView {
        RuntimeView {
            tag: match self.tag {
                Some(t) => Some(t@),
                None => None,
            },
            mesh_started: self.mesh_started,
        }
    }
}

impl RuntimeState {
    /// No tag, mesh not started.
    pub fn new() -> (s: RuntimeState)
        ensures
            s@.tag is None,
            !s@.mesh_started,
    {
        RuntimeState { tag: None, mesh_started: false }
    }
}

/// Records the node's tag.
pub fn set_runtime_tag(state: &mut RuntimeState, tag: String)
    ensures
        final(state)@.tag == Some(tag@),
        final(state)@.mesh_started == old(state)@.mesh_started,
{
    state.tag = Some(tag);
}

/// The node's tag, if one was recorded.
pub fn get_runtime_tag(state: &RuntimeState) -> (r: Option<String>)
    ensures
        match r {
            Some(t) => state@.tag == Some(t@),
            None => state@.tag is None,
        },
{
    match &state.tag {
        Some(t) => Some(t.clone()),
        None => None,
    }
}

/// Records that the mesh runtime was started (once and for all).
pub fn mark_mesh_started(state: &mut RuntimeState)
    ensures
        final(state)@.mesh_started,
        final(state)@.tag == old(state)@.tag,
{
    state.mesh_started = true;
}

/// Whether the mesh runtime was started.
pub fn has_mesh_runtime(state: &RuntimeState) -> (r: bool)
    ensures
        r == state@.mesh_started,
{
    state.mesh_started
}

} // verus!

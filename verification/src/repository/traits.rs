//! The repository interface.
use vstd::prelude::*;
use crate::error::MeshResult;

verus! {

/// Create, read, list and delete operations on entities of type `T` with
/// identifiers of type `ID`.
pub trait Repository<T, ID> {
    /// Saves an entity.
    fn save(&mut self, entity: &T) -> MeshResult<()>;

    /// The entity with the given identifier, if any.
    fn find_by_id(&self, id: &ID) -> MeshResult<Option<T>>;

    /// All entities.
    fn list_all(&self) -> MeshResult<Vec<T>>;

    /// Removes the entity with the given identifier.
    fn remove(&mut self, id: &ID) -> MeshResult<()>;

    /// Removes all entities.
    fn clear(&mut self) -> MeshResult<()>;
}

} // verus!

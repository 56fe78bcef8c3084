use crate::resource::ResourceHandle;
use vstd::prelude::*;

verus! {

/// The ways in which building or running a frame's graph can fail.
#[derive(Clone, Copy, Debug, PartialEq, Eq, Structural)]
pub enum RenderGraphError {
    /// The handle's epoch is not the table's, or its index is out of range.
    InvalidHandle,
    /// The handle was made in an earlier, closed frame.
    StaleHandle,
    /// No order satisfies the declared dependencies. `node` cannot run before
    /// another waiting node that writes `resource`.
    DependencyCycle { node: usize, resource: ResourceHandle },
    /// A pass resolved a handle that it did not declare.
    UndeclaredAccess,
    /// The table cannot hold a resource of this description.
    UnsupportedResource,
}

} // verus!

use vstd::prelude::*;

verus! {

/// The shape of an operating mode, without its payload. Used to report which
/// mode a guard expected and which it observed.
#[derive(Clone, Copy, Debug, PartialEq, Eq, Structural)]
pub enum ModeKind {
    InWorkspace,
    OutsideWorkspace,
    Edit,
}

/// What can go wrong in the mode machinery. Each variant names the step that
/// failed, so a caller can pinpoint where a multi-step transition stopped.
#[derive(Clone, Copy, Debug, PartialEq, Eq, Structural)]
pub enum Error {
    /// HEAD's symbolic target could not be resolved to a commit.
    HeadNotFound,
    /// A commit identifier was not present in the object store.
    CommitNotFound,
    /// The editee has no parent to detach onto.
    MissingParent,
    /// A named reference was absent.
    RefNotFound,
    /// The uncommitted-snapshot reference was absent.
    SnapshotNotFound,
    /// The integration branch reference was absent.
    IntegrationNotFound,
    /// No persisted edit metadata was present.
    MetadataMissing,
    /// Persisted edit metadata was present but unreadable.
    MetadataMalformed,
    /// Replaying the editee's descendants failed: the editee is not an
    /// ancestor of its branch tip.
    ReplayFailed,
    /// A guard was called while the workspace was in the wrong mode.
    PreconditionViolated { expected: ModeKind, observed: ModeKind },
}

} // verus!

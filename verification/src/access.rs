use vstd::prelude::*;

verus! {

/// An exclusive capability to mutate the working directory, index, HEAD and
/// references. The core performs no locking of its own; both mode transitions
/// take this token by mutable reference so that they cannot be entered
/// without it, and so that at most one transition can run per token at a
/// time.
pub struct WorktreeWritePermission {
    _private: (),
}

impl WorktreeWritePermission {
    /// Issues a permit. Callers are responsible for holding at most one per
    /// working tree; the issuing policy itself is outside this core.
    pub fn new() -> WorktreeWritePermission {
        WorktreeWritePermission { _private: () }
    }
}

} // verus!

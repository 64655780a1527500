use vstd::prelude::*;

verus! {

/// Identifies an immutable commit object. A commit is never mutated: every
/// rewrite produces a new commit under a fresh identifier.
///
/// Identifiers are drawn from a 64-bit space; the persisted string form is
/// sixteen lowercase hexadecimal digits.
#[derive(Clone, Copy, Debug, PartialEq, Eq, Structural, Hash)]
pub struct CommitId(pub u64);

/// Identifies a tree: one snapshot of directory content. Tree content is not
/// interpreted by the model; two trees hold the same content exactly when
/// their identifiers are equal.
#[derive(Clone, Copy, Debug, PartialEq, Eq, Structural, Hash)]
pub struct TreeId(pub u64);

} // verus!

use crate::error::{Error, ModeKind};
use crate::metadata::{
    decode_edit_mode_metadata, spec_decode_metadata, EditModeMetadata, EditModeMetadataView,
};
use crate::refname::{edit_branch_ref, edit_ref_bytes, integration_branch_ref,
    integration_ref_bytes};
use crate::repo::Repository;
use vstd::prelude::*;

verus! {

/// Which of the three mutually exclusive modes the workspace is in. Derived,
/// never stored: it is recomputed from HEAD and the persisted metadata on
/// every query.
pub enum OperatingMode {
    /// HEAD is on the integration branch: normal operations apply.
    InWorkspace,
    /// HEAD is on the edit branch and the persisted metadata is readable: a
    /// single commit is detached for editing.
    Edit(EditModeMetadata),
    /// Anything else, including an edit branch whose metadata is absent or
    /// unreadable.
    OutsideWorkspace,
}

/// The mathematical content of an [`OperatingMode`].
pub enum OperatingModeView {
    InWorkspace,
    Edit(EditModeMetadataView),
    OutsideWorkspace,
}

impl View for OperatingMode {
    type V = OperatingModeView;

    open spec fn view(&self) -> OperatingModeView {
        match self {
            OperatingMode::InWorkspace => OperatingModeView::InWorkspace,
            OperatingMode::Edit(m) => OperatingModeView::Edit(m@),
            OperatingMode::OutsideWorkspace => OperatingModeView::OutsideWorkspace,
        }
    }
}

/// The shape of a mode, without its payload.
pub open spec fn mode_kind(m: OperatingModeView) -> ModeKind {
    match m {
        OperatingModeView::InWorkspace => ModeKind::InWorkspace,
        OperatingModeView::Edit(_) => ModeKind::Edit,
        OperatingModeView::OutsideWorkspace => ModeKind::OutsideWorkspace,
    }
}

/// The mode a repository is in, as a function of HEAD's symbolic target and
/// the raw persisted metadata alone. The integration branch means the
/// workspace mode; the edit branch means edit mode when the metadata reads
/// back, and the outside mode when it does not (that downgrade is deliberate
/// and silent); any other HEAD target means the outside mode.
pub open spec fn spec_operating_mode(head: Seq<u8>, metadata: Option<Seq<u8>>) -> OperatingModeView {
    if head == integration_ref_bytes() {
        OperatingModeView::InWorkspace
    } else if head == edit_ref_bytes() {
        match metadata {
            Some(bytes) => match spec_decode_metadata(bytes) {
                Some(m) => OperatingModeView::Edit(m),
                None => OperatingModeView::OutsideWorkspace,
            },
            None => OperatingModeView::OutsideWorkspace,
        }
    } else {
        OperatingModeView::OutsideWorkspace
    }
}

/// Classifies the workspace. Pure: the result is a function of the current
/// repository state alone, with no caching and no staleness window.
pub fn operating_mode(repo: &Repository) -> (r: OperatingMode)
    ensures
        r@ == spec_operating_mode(repo@.head, repo@.metadata),
{
    if repo.head() == &integration_branch_ref() {
        OperatingMode::InWorkspace
    } else if repo.head() == &edit_branch_ref() {
        match repo.metadata_file() {
            Some(bytes) => match decode_edit_mode_metadata(bytes) {
                Some(m) => OperatingMode::Edit(m),
                None => OperatingMode::OutsideWorkspace,
            },
            None => OperatingMode::OutsideWorkspace,
        }
    } else {
        OperatingMode::OutsideWorkspace
    }
}

/// Resolving the mode twice without an intervening mutation yields the same
/// answer, and the answer depends on nothing but HEAD's target and the raw
/// metadata: two repositories agreeing on those two agree on their mode,
/// whatever else differs between them.
pub proof fn lemma_operating_mode_pure(a: crate::repo::RepoView, b: crate::repo::RepoView)
    requires
        a.head == b.head,
        a.metadata == b.metadata,
    ensures
        spec_operating_mode(a.head, a.metadata) == spec_operating_mode(b.head, b.metadata),
{
}

/// While HEAD is on the edit branch with absent or unreadable metadata, the
/// resolved mode is the outside mode: the failure is downgraded, never
/// surfaced as an error.
pub proof fn lemma_unreadable_metadata_degrades(head: Seq<u8>, metadata: Option<Seq<u8>>)
    requires
        head == edit_ref_bytes(),
        metadata is None || spec_decode_metadata(metadata->Some_0) is None,
    ensures
        spec_operating_mode(head, metadata) == OperatingModeView::OutsideWorkspace,
{
    crate::refname::lemma_well_known_refs_distinct();
}

/// Whether the workspace is in the open (integration) workspace mode.
pub fn in_open_workspace_mode(repo: &Repository) -> (r: bool)
    ensures
        r == (spec_operating_mode(repo@.head, repo@.metadata) is InWorkspace),
{
    match operating_mode(repo) {
        OperatingMode::InWorkspace => true,
        _ => false,
    }
}

/// Fails unless the workspace is in the open workspace mode.
pub fn assure_open_workspace_mode(repo: &Repository) -> (r: Result<(), Error>)
    ensures
        ({
            let m = spec_operating_mode(repo@.head, repo@.metadata);
            match r {
                Ok(_) => m is InWorkspace,
                Err(e) => !(m is InWorkspace) && e == (Error::PreconditionViolated {
                    expected: ModeKind::InWorkspace,
                    observed: mode_kind(m),
                }),
            }
        }),
{
    match operating_mode(repo) {
        OperatingMode::InWorkspace => Ok(()),
        m => Err(
            Error::PreconditionViolated {
                expected: ModeKind::InWorkspace,
                observed: mode_kind_of(&m),
            },
        ),
    }
}

/// Whether the workspace is in edit mode.
pub fn in_edit_mode(repo: &Repository) -> (r: bool)
    ensures
        r == (spec_operating_mode(repo@.head, repo@.metadata) is Edit),
{
    match operating_mode(repo) {
        OperatingMode::Edit(_) => true,
        _ => false,
    }
}

/// Returns the in-flight edit metadata, failing unless the workspace is in
/// edit mode.
pub fn assure_edit_mode(repo: &Repository) -> (r: Result<EditModeMetadata, Error>)
    ensures
        ({
            let m = spec_operating_mode(repo@.head, repo@.metadata);
            match r {
                Ok(md) => m == OperatingModeView::Edit(md@),
                Err(e) => !(m is Edit) && e == (Error::PreconditionViolated {
                    expected: ModeKind::Edit,
                    observed: mode_kind(m),
                }),
            }
        }),
{
    match operating_mode(repo) {
        OperatingMode::Edit(md) => Ok(md),
        m => Err(
            Error::PreconditionViolated { expected: ModeKind::Edit, observed: mode_kind_of(&m) },
        ),
    }
}

/// Whether the workspace is outside both the workspace and edit modes.
pub fn in_outside_workspace_mode(repo: &Repository) -> (r: bool)
    ensures
        r == (spec_operating_mode(repo@.head, repo@.metadata) is OutsideWorkspace),
{
    match operating_mode(repo) {
        OperatingMode::OutsideWorkspace => true,
        _ => false,
    }
}

/// Fails unless the workspace is outside both other modes.
pub fn assure_outside_workspace_mode(repo: &Repository) -> (r: Result<(), Error>)
    ensures
        ({
            let m = spec_operating_mode(repo@.head, repo@.metadata);
            match r {
                Ok(_) => m is OutsideWorkspace,
                Err(e) => !(m is OutsideWorkspace) && e == (Error::PreconditionViolated {
                    expected: ModeKind::OutsideWorkspace,
                    observed: mode_kind(m),
                }),
            }
        }),
{
    match operating_mode(repo) {
        OperatingMode::OutsideWorkspace => Ok(()),
        m => Err(
            Error::PreconditionViolated {
                expected: ModeKind::OutsideWorkspace,
                observed: mode_kind_of(&m),
            },
        ),
    }
}

/// The shape of a resolved mode, for error reports.
pub fn mode_kind_of(m: &OperatingMode) -> (r: ModeKind)
    ensures
        r == mode_kind(m@),
{
    match m {
        OperatingMode::InWorkspace => ModeKind::InWorkspace,
        OperatingMode::Edit(_) => ModeKind::Edit,
        OperatingMode::OutsideWorkspace => ModeKind::OutsideWorkspace,
    }
}

} // verus!

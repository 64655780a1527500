use crate::access::WorktreeWritePermission;
use crate::error::Error;
use crate::ids::{CommitId, TreeId};
use crate::metadata::{
    read_edit_mode_metadata, spec_encode_metadata, write_edit_mode_metadata, EditModeMetadata,
    EditModeMetadataView,
};
use crate::modes::{spec_operating_mode, OperatingModeView};
use crate::refname::{
    edit_branch_ref, edit_ref_bytes, edit_uncommited_files_ref, edit_uncommited_files_ref_bytes,
    integration_branch_ref, integration_ref_bytes, lemma_well_known_refs_distinct, valid_ref_name,
    RefName,
};
use crate::repo::{
    repo_view_wf, CommitView, Provenance, ProvenanceView, RepoView, Repository,
};
use vstd::prelude::*;
use vstd::slice::slice_to_vec;
use vstd::string::StringSliceAdditionalSpecFns;

verus! {

/// The author and committer recorded on the uncommitted-snapshot commit.
pub open spec fn bot_signature_bytes() -> Seq<u8> {
    "GitButler <gitbutler@gitbutler.com>".spec_bytes()
}

/// The message recorded on the uncommitted-snapshot commit.
pub open spec fn bot_message_bytes() -> Seq<u8> {
    "Edit mode saved changes".spec_bytes()
}

/// The provenance of the uncommitted-snapshot commit: bot-authored, no
/// custom headers.
pub open spec fn bot_provenance_view() -> ProvenanceView {
    ProvenanceView {
        author: bot_signature_bytes(),
        committer: bot_signature_bytes(),
        message: bot_message_bytes(),
        headers: None,
    }
}

/// The provenance of the uncommitted-snapshot commit, as a value.
pub fn bot_provenance() -> (r: Provenance)
    ensures
        r@ == bot_provenance_view(),
{
    Provenance {
        author: slice_to_vec("GitButler <gitbutler@gitbutler.com>".as_bytes()),
        committer: slice_to_vec("GitButler <gitbutler@gitbutler.com>".as_bytes()),
        message: slice_to_vec("Edit mode saved changes".as_bytes()),
        headers: None,
    }
}

/// The first step of entering edit mode: the working tree content is
/// committed (bot-authored) on top of the current HEAD commit, and the
/// uncommitted-snapshot reference is pointed at that commit. The commit is
/// never merged into reachable history; it exists only as a stash handle.
pub open spec fn spec_save_uncommitted_files(rv: RepoView, head_commit: CommitId) -> RepoView {
    let id = CommitId(rv.next_commit as u64);
    RepoView {
        commits: rv.commits.insert(
            id,
            CommitView {
                parent: Some(head_commit),
                tree: rv.worktree,
                provenance: bot_provenance_view(),
            },
        ),
        refs: rv.refs.insert(edit_uncommited_files_ref_bytes(), id),
        next_commit: rv.next_commit + 1,
        ..rv
    }
}

/// Entering edit mode, step by step on the abstract state; the second
/// component classifies the outcome. The steps are strictly ordered and a
/// failure stops the sequence where it stands, with no rollback of the steps
/// already taken: a failure after the snapshot step leaves the snapshot
/// written.
pub open spec fn spec_enter(rv: RepoView, editee: CommitId, branch: Seq<u8>) -> (
    RepoView,
    Result<EditModeMetadataView, Error>,
) {
    if !rv.refs.dom().contains(rv.head) {
        (rv, Err(Error::HeadNotFound))
    } else {
        let rv1 = spec_save_uncommitted_files(rv, rv.refs[rv.head]);
        if !rv1.commits.dom().contains(editee) {
            (rv1, Err(Error::CommitNotFound))
        } else {
            match rv1.commits[editee].parent {
                None => (rv1, Err(Error::MissingParent)),
                Some(p) => {
                    let m = EditModeMetadataView { editee_commit_sha: editee, editee_branch: branch };
                    let rv2 = RepoView {
                        refs: rv1.refs.insert(edit_ref_bytes(), p),
                        head: edit_ref_bytes(),
                        worktree: rv1.commits[editee].tree,
                        metadata: Some(spec_encode_metadata(m)),
                        ..rv1
                    };
                    (rv2, Ok(m))
                },
            }
        }
    }
}

/// The commits strictly between `base` (exclusive) and `tip` (inclusive),
/// oldest first: the descendants that were built on top of `base`. Nothing
/// when `base` is not an ancestor of `tip` along first parents.
pub open spec fn spec_chain(
    commits: Map<CommitId, CommitView>,
    tip: CommitId,
    base: CommitId,
) -> Option<Seq<CommitId>>
    decreases tip.0,
{
    if tip == base {
        Some(Seq::empty())
    } else if !commits.dom().contains(tip) {
        None
    } else {
        match commits[tip].parent {
            None => None,
            Some(p) => {
                if p.0 < tip.0 {
                    match spec_chain(commits, p, base) {
                        None => None,
                        Some(s) => Some(s.push(tip)),
                    }
                } else {
                    None
                }
            },
        }
    }
}

/// A descendant chain is no longer than its tip's identifier.
pub proof fn lemma_chain_len(commits: Map<CommitId, CommitView>, tip: CommitId, base: CommitId)
    requires
        spec_chain(commits, tip, base) is Some,
    ensures
        spec_chain(commits, tip, base)->Some_0.len() <= tip.0 + 1,
    decreases tip.0,
{
    if tip == base {
    } else {
        let p = commits[tip].parent->Some_0;
        lemma_chain_len(commits, p, base);
    }
}

/// Inserting a commit at or above the allocation frontier does not change
/// any chain drawn among the existing commits.
pub proof fn lemma_chain_insert(
    commits: Map<CommitId, CommitView>,
    tip: CommitId,
    base: CommitId,
    nid: CommitId,
    cv: CommitView,
    bound: int,
)
    requires
        forall|id: CommitId| commits.dom().contains(id) ==> (#[trigger] id.0) < bound,
        forall|id: CommitId|
            commits.dom().contains(id) ==> match (#[trigger] commits[id]).parent {
                Some(p) => p.0 < id.0,
                None => true,
            },
        nid.0 >= bound,
        tip.0 < bound,
    ensures
        spec_chain(commits.insert(nid, cv), tip, base) == spec_chain(commits, tip, base),
    decreases tip.0,
{
    let m2 = commits.insert(nid, cv);
    if tip == base {
    } else if !commits.dom().contains(tip) {
        assert(!m2.dom().contains(tip));
    } else {
        match commits[tip].parent {
            None => {},
            Some(p) => {
                if p.0 < tip.0 {
                    lemma_chain_insert(commits, p, base, nid, cv, bound);
                }
            },
        }
    }
}

/// Every chain member exists, each member's parent is the member before it
/// (the oldest member's parent is `base`), and members grow strictly in
/// identifier order.
pub proof fn lemma_chain_members(
    commits: Map<CommitId, CommitView>,
    tip: CommitId,
    base: CommitId,
)
    requires
        spec_chain(commits, tip, base) is Some,
    ensures
        ({
            let ids = spec_chain(commits, tip, base)->Some_0;
            &&& ids.len() > 0 ==> ids.last() == tip && tip != base
            &&& ids.len() == 0 ==> tip == base
            &&& forall|j: int|
                0 <= j < ids.len() ==> commits.dom().contains(#[trigger] ids[j])
            &&& forall|j: int|
                0 <= j < ids.len() ==> (#[trigger] commits[ids[j]]).parent == Some(
                    if j == 0 {
                        base
                    } else {
                        ids[j - 1]
                    },
                )
            &&& forall|j: int| 0 <= j < ids.len() ==> (#[trigger] ids[j]).0 <= tip.0
        }),
    decreases tip.0,
{
    if tip == base {
    } else {
        let p = commits[tip].parent->Some_0;
        lemma_chain_members(commits, p, base);
        let rest = spec_chain(commits, p, base)->Some_0;
        let ids = spec_chain(commits, tip, base)->Some_0;
        assert(ids =~= rest.push(tip));
        assert(forall|j: int| 0 <= j < rest.len() ==> ids[j] == rest[j]);
    }
}

/// Replaying a run of commits onto a new base, one at a time, oldest first:
/// each replayed commit is recreated under a fresh identifier with its
/// provenance copied verbatim and its parent pointing at the previous
/// replayed commit (the first at the new base). A commit whose original
/// parent's tree equals the tree it is replayed onto keeps its own tree;
/// otherwise the replay materializes a fresh tree for it. Returns the grown
/// commit map, the new tip, and the advanced allocation frontiers.
pub open spec fn spec_replay(
    commits: Map<CommitId, CommitView>,
    base: CommitId,
    base_tree: TreeId,
    base_old_tree: TreeId,
    items: Seq<CommitView>,
    next_commit: int,
    next_tree: int,
) -> (Map<CommitId, CommitView>, CommitId, int, int)
    decreases items.len(),
{
    if items.len() == 0 {
        (commits, base, next_commit, next_tree)
    } else {
        let c = items[0];
        let same = base_old_tree == base_tree;
        let ntree = if same {
            c.tree
        } else {
            TreeId(next_tree as u64)
        };
        let nid = CommitId(next_commit as u64);
        spec_replay(
            commits.insert(nid, CommitView { parent: Some(base), tree: ntree, provenance: c.provenance }),
            nid,
            ntree,
            c.tree,
            items.drop_first(),
            next_commit + 1,
            if same {
                next_tree
            } else {
                next_tree + 1
            },
        )
    }
}

/// A commit that existed before a replay is untouched by it.
proof fn lemma_replay_preserves_old(
    commits: Map<CommitId, CommitView>,
    base: CommitId,
    base_tree: TreeId,
    base_old_tree: TreeId,
    items: Seq<CommitView>,
    nc: int,
    nt: int,
    id: CommitId,
)
    requires
        0 <= nc,
        nc + items.len() <= u64::MAX + 1,
        forall|i: CommitId| commits.dom().contains(i) ==> (#[trigger] i.0) < nc,
        commits.dom().contains(id),
    ensures
        ({
            let rep = spec_replay(commits, base, base_tree, base_old_tree, items, nc, nt);
            &&& rep.0.dom().contains(id)
            &&& rep.0[id] == commits[id]
        }),
    decreases items.len(),
{
    if items.len() > 0 {
        let c = items[0];
        let same = base_old_tree == base_tree;
        let ntree = if same {
            c.tree
        } else {
            TreeId(nt as u64)
        };
        let nid = CommitId(nc as u64);
        let cv0 = CommitView { parent: Some(base), tree: ntree, provenance: c.provenance };
        let m1 = commits.insert(nid, cv0);
        let nt1 = if same {
            nt
        } else {
            nt + 1
        };
        assert(forall|i: CommitId| m1.dom().contains(i) ==> (#[trigger] i.0) < nc + 1);
        lemma_replay_preserves_old(m1, nid, ntree, c.tree, items.drop_first(), nc + 1, nt1, id);
        let rep = spec_replay(commits, base, base_tree, base_old_tree, items, nc, nt);
        assert(rep == spec_replay(m1, nid, ntree, c.tree, items.drop_first(), nc + 1, nt1));
        assert(id.0 < nc);
        assert(m1[id] == commits[id]);
    }
}

/// One recreated commit of a replay, by its position in the run.
proof fn replay_step_facts(
    commits: Map<CommitId, CommitView>,
    base: CommitId,
    base_tree: TreeId,
    base_old_tree: TreeId,
    items: Seq<CommitView>,
    nc: int,
    nt: int,
    j: int,
)
    requires
        0 <= nc,
        nc + items.len() <= u64::MAX + 1,
        forall|id: CommitId| commits.dom().contains(id) ==> (#[trigger] id.0) < nc,
        0 <= j < items.len(),
    ensures
        ({
            let rep = spec_replay(commits, base, base_tree, base_old_tree, items, nc, nt);
            &&& rep.0.dom().contains(CommitId((nc + j) as u64))
            &&& rep.0[CommitId((nc + j) as u64)].provenance == items[j].provenance
            &&& rep.0[CommitId((nc + j) as u64)].parent == Some(
                if j == 0 {
                    base
                } else {
                    CommitId((nc + j - 1) as u64)
                },
            )
        }),
    decreases j,
{
    let c = items[0];
    let same = base_old_tree == base_tree;
    let ntree = if same {
        c.tree
    } else {
        TreeId(nt as u64)
    };
    let nid = CommitId(nc as u64);
    let cv0 = CommitView { parent: Some(base), tree: ntree, provenance: c.provenance };
    let m1 = commits.insert(nid, cv0);
    let nt1 = if same {
        nt
    } else {
        nt + 1
    };
    let rest = items.drop_first();
    let rep = spec_replay(commits, base, base_tree, base_old_tree, items, nc, nt);
    assert(rep == spec_replay(m1, nid, ntree, c.tree, rest, nc + 1, nt1));
    assert(forall|id: CommitId| m1.dom().contains(id) ==> (#[trigger] id.0) < nc + 1);
    if j == 0 {
        assert(m1.dom().contains(nid));
        lemma_replay_preserves_old(m1, nid, ntree, c.tree, rest, nc + 1, nt1, nid);
        assert(rep.0[nid] == cv0);
    } else {
        replay_step_facts(m1, nid, ntree, c.tree, rest, nc + 1, nt1, j - 1);
        assert(rest[j - 1] == items[j]);
        assert(CommitId(((nc + 1) + (j - 1)) as u64) == CommitId((nc + j) as u64));
        if j == 1 {
            assert(CommitId(((nc + 1) + (j - 1) - 1) as u64) == nid);
        }
    }
}

/// What a replay produces, commit by commit: the run is recreated in its
/// original order under consecutive fresh identifiers, the first commit
/// re-parented on the new base and each later one on its predecessor, every
/// commit keeping its own provenance verbatim; every commit that existed
/// before the replay is left untouched; the returned tip is the last
/// recreated commit, or the base itself when there was nothing to replay.
pub proof fn lemma_replay_facts(
    commits: Map<CommitId, CommitView>,
    base: CommitId,
    base_tree: TreeId,
    base_old_tree: TreeId,
    items: Seq<CommitView>,
    nc: int,
    nt: int,
)
    requires
        0 <= nc,
        nc + items.len() <= u64::MAX + 1,
        forall|id: CommitId| commits.dom().contains(id) ==> (#[trigger] id.0) < nc,
    ensures
        ({
            let rep = spec_replay(commits, base, base_tree, base_old_tree, items, nc, nt);
            &&& rep.2 == nc + items.len()
            &&& nt <= rep.3 <= nt + items.len()
            &&& rep.1 == (if items.len() == 0 {
                base
            } else {
                CommitId((nc + items.len() - 1) as u64)
            })
            &&& forall|id: CommitId|
                #[trigger] commits.dom().contains(id) ==> rep.0.dom().contains(id) && rep.0[id]
                    == commits[id]
            &&& forall|j: int|
                0 <= j < items.len() ==> #[trigger] rep.0.dom().contains(CommitId((nc + j) as u64))
            &&& forall|j: int|
                0 <= j < items.len() ==> (#[trigger] rep.0[CommitId((nc + j) as u64)]).provenance
                    == items[j].provenance
            &&& forall|j: int|
                0 <= j < items.len() ==> (#[trigger] rep.0[CommitId((nc + j) as u64)]).parent
                    == Some(
                    if j == 0 {
                        base
                    } else {
                        CommitId((nc + j - 1) as u64)
                    },
                )
        }),
    decreases items.len(),
{
    if items.len() == 0 {
    } else {
        let c = items[0];
        let same = base_old_tree == base_tree;
        let ntree = if same {
            c.tree
        } else {
            TreeId(nt as u64)
        };
        let nid = CommitId(nc as u64);
        let cv0 = CommitView { parent: Some(base), tree: ntree, provenance: c.provenance };
        let m1 = commits.insert(nid, cv0);
        let nt1 = if same {
            nt
        } else {
            nt + 1
        };
        assert(forall|id: CommitId| m1.dom().contains(id) ==> (#[trigger] id.0) < nc + 1);
        lemma_replay_facts(m1, nid, ntree, c.tree, items.drop_first(), nc + 1, nt1);
        let rep = spec_replay(commits, base, base_tree, base_old_tree, items, nc, nt);
        let rest = items.drop_first();
        assert(rep == spec_replay(m1, nid, ntree, c.tree, rest, nc + 1, nt1));
        assert(m1.dom().contains(nid));
        assert(rep.0[nid] == cv0);
        assert forall|id: CommitId|
            #[trigger] commits.dom().contains(id) implies rep.0.dom().contains(id) && rep.0[id]
            == commits[id] by {
            assert(id.0 < nc);
            assert(m1.dom().contains(id));
            assert(m1[id] == commits[id]);
        }
        assert forall|j: int|
            0 <= j < items.len() implies #[trigger] rep.0.dom().contains(CommitId((nc + j) as u64))
            by {
            replay_step_facts(commits, base, base_tree, base_old_tree, items, nc, nt, j);
        }
        assert forall|j: int|
            0 <= j < items.len() implies (#[trigger] rep.0[CommitId((nc + j) as u64)]).provenance
            == items[j].provenance by {
            replay_step_facts(commits, base, base_tree, base_old_tree, items, nc, nt, j);
        }
        assert forall|j: int|
            0 <= j < items.len() implies (#[trigger] rep.0[CommitId((nc + j) as u64)]).parent
            == Some(
            if j == 0 {
                base
            } else {
                CommitId((nc + j - 1) as u64)
            },
        ) by {
            replay_step_facts(commits, base, base_tree, base_old_tree, items, nc, nt, j);
        }
    }
}

/// A replay whose new base carries the very tree the run was built on
/// reapplies every commit onto the content it originally stood on: each
/// recreated commit keeps its original tree, and no fresh tree is
/// materialized.
pub proof fn lemma_replay_preserves_trees(
    commits: Map<CommitId, CommitView>,
    base: CommitId,
    base_tree: TreeId,
    items: Seq<CommitView>,
    nc: int,
    nt: int,
)
    requires
        0 <= nc,
        nc + items.len() <= u64::MAX + 1,
        forall|id: CommitId| commits.dom().contains(id) ==> (#[trigger] id.0) < nc,
    ensures
        ({
            let rep = spec_replay(commits, base, base_tree, base_tree, items, nc, nt);
            &&& rep.3 == nt
            &&& forall|j: int|
                0 <= j < items.len() ==> (#[trigger] rep.0[CommitId((nc + j) as u64)]).tree
                    == items[j].tree
        }),
    decreases items.len(),
{
    if items.len() == 0 {
    } else {
        let c = items[0];
        let nid = CommitId(nc as u64);
        let cv0 = CommitView { parent: Some(base), tree: c.tree, provenance: c.provenance };
        let m1 = commits.insert(nid, cv0);
        assert(forall|id: CommitId| m1.dom().contains(id) ==> (#[trigger] id.0) < nc + 1);
        lemma_replay_preserves_trees(m1, nid, c.tree, items.drop_first(), nc + 1, nt);
        lemma_replay_facts(m1, nid, c.tree, c.tree, items.drop_first(), nc + 1, nt);
        let rep = spec_replay(commits, base, base_tree, base_tree, items, nc, nt);
        let rest = items.drop_first();
        assert(rep == spec_replay(m1, nid, c.tree, c.tree, rest, nc + 1, nt));
        assert(m1.dom().contains(nid));
        assert(rep.0[nid] == cv0);
        assert forall|j: int|
            0 <= j < items.len() implies (#[trigger] rep.0[CommitId((nc + j) as u64)]).tree
            == items[j].tree by {
            if j == 0 {
                assert(rep.0[nid] == cv0);
            } else {
                assert(rest[j - 1] == items[j]);
                assert(CommitId(((nc + 1) + (j - 1)) as u64) == CommitId((nc + j) as u64));
            }
        }
    }
}

/// The lookups the exit transition makes before it mutates anything: the
/// metadata reads back as `m`, the editee's branch resolves to `old_tip`,
/// the editee exists with parent `ep` and tree `etree`, and the
/// uncommitted-snapshot reference resolves to a commit with tree
/// `snap_tree`.
pub open spec fn exit_lookups(
    rv: RepoView,
    m: EditModeMetadataView,
    old_tip: CommitId,
    ep: CommitId,
    etree: TreeId,
    snap_tree: TreeId,
) -> bool {
    &&& rv.metadata is Some
    &&& crate::metadata::spec_decode_metadata(rv.metadata->Some_0) == Some(m)
    &&& rv.refs.dom().contains(m.editee_branch)
    &&& rv.refs[m.editee_branch] == old_tip
    &&& rv.commits.dom().contains(m.editee_commit_sha)
    &&& rv.commits[m.editee_commit_sha].parent == Some(ep)
    &&& rv.commits[m.editee_commit_sha].tree == etree
    &&& rv.refs.dom().contains(edit_uncommited_files_ref_bytes())
    &&& rv.commits.dom().contains(rv.refs[edit_uncommited_files_ref_bytes()])
    &&& rv.commits[rv.refs[edit_uncommited_files_ref_bytes()]].tree == snap_tree
}

/// Leaving edit mode, step by step on the abstract state; the second
/// component classifies the outcome. The persisted metadata is read first;
/// the edited working tree is recommitted with the editee's provenance onto
/// the editee's parent; the editee's descendants are replayed onto that new
/// commit; the branch is updated to the new tip before HEAD moves back to
/// the integration branch; and the stashed uncommitted state is restored
/// last. The metadata file is left in place: it is consumed logically, not
/// deleted. As in entering, a failure stops the sequence where it stands.
pub open spec fn spec_exit(rv: RepoView) -> (RepoView, Result<(), Error>) {
    match rv.metadata {
        None => (rv, Err(Error::MetadataMissing)),
        Some(bytes) => match crate::metadata::spec_decode_metadata(bytes) {
            None => (rv, Err(Error::MetadataMalformed)),
            Some(m) => {
                if !rv.refs.dom().contains(m.editee_branch) {
                    (rv, Err(Error::RefNotFound))
                } else if !rv.commits.dom().contains(m.editee_commit_sha) {
                    (rv, Err(Error::CommitNotFound))
                } else {
                    let old_tip = rv.refs[m.editee_branch];
                    let editee = rv.commits[m.editee_commit_sha];
                    match editee.parent {
                        None => (rv, Err(Error::MissingParent)),
                        Some(ep) => {
                            if !rv.refs.dom().contains(edit_uncommited_files_ref_bytes()) {
                                (rv, Err(Error::SnapshotNotFound))
                            } else {
                                let snap_tree =
                                    rv.commits[rv.refs[edit_uncommited_files_ref_bytes()]].tree;
                                let new_id = CommitId(rv.next_commit as u64);
                                let rv1 = RepoView {
                                    commits: rv.commits.insert(
                                        new_id,
                                        CommitView {
                                            parent: Some(ep),
                                            tree: rv.worktree,
                                            provenance: editee.provenance,
                                        },
                                    ),
                                    next_commit: rv.next_commit + 1,
                                    ..rv
                                };
                                match spec_chain(rv.commits, old_tip, m.editee_commit_sha) {
                                    None => (rv1, Err(Error::ReplayFailed)),
                                    Some(ids) => {
                                        let items = ids.map(
                                            |j: int, cid: CommitId| rv.commits[cid],
                                        );
                                        let rep = spec_replay(
                                            rv1.commits,
                                            new_id,
                                            rv.worktree,
                                            editee.tree,
                                            items,
                                            rv1.next_commit,
                                            rv1.next_tree,
                                        );
                                        let rv3 = RepoView {
                                            commits: rep.0,
                                            refs: rv.refs.insert(m.editee_branch, rep.1),
                                            head: integration_ref_bytes(),
                                            next_commit: rep.2,
                                            next_tree: rep.3,
                                            ..rv1
                                        };
                                        if !rv3.refs.dom().contains(integration_ref_bytes()) {
                                            (rv3, Err(Error::IntegrationNotFound))
                                        } else {
                                            (RepoView { worktree: snap_tree, ..rv3 }, Ok(()))
                                        }
                                    },
                                }
                            }
                        },
                    }
                }
            },
        },
    }
}

impl Repository {
    /// Enters edit mode on `editee`, a historical commit taken from
    /// `editee_branch`. Snapshots uncommitted work behind the
    /// uncommitted-snapshot reference, detaches the edit branch onto the
    /// editee's parent, exposes the editee's content as uncommitted changes
    /// in the working tree, and persists the edit metadata as the final
    /// step, after which the workspace resolves to edit mode.
    pub fn transition_from_in_workspace_to_edit_mode(
        &mut self,
        editee: CommitId,
        editee_branch: &RefName,
        _perm: &mut WorktreeWritePermission,
    ) -> (r: Result<EditModeMetadata, Error>)
        requires
            old(self).wf(),
            old(self)@.next_commit < u64::MAX,
            valid_ref_name(editee_branch@),
        ensures
            final (self).wf(),
            ({
                let (rv2, res) = spec_enter(old(self)@, editee, editee_branch@);
                &&& final (self)@ =~= rv2
                &&& match r {
                    Ok(m) => res == Ok::<EditModeMetadataView, Error>(m@),
                    Err(e) => res == Err::<EditModeMetadataView, Error>(e),
                }
            }),
            r is Ok ==> spec_operating_mode(final (self)@.head, final (self)@.metadata)
                == OperatingModeView::Edit(r->Ok_0@) && final (self)@.commits.dom().contains(editee)
                && final (self)@.worktree == final (self)@.commits[editee].tree,
    {
        let ghost rv0 = self@;
        // Step 1: snapshot the uncommitted working tree state.
        let head_name = self.head().duplicate();
        let head_commit = match self.find_reference(&head_name) {
            Some(c) => c,
            None => {
                return Err(Error::HeadNotFound);
            },
        };
        let snap_tree = self.worktree();
        let snap_id = self.push_commit(Some(head_commit), snap_tree, bot_provenance());
        let snap_ref = edit_uncommited_files_ref();
        self.set_ref_raw(&snap_ref, snap_id);
        proof {
            assert(self@ =~= spec_save_uncommitted_files(rv0, rv0.refs[rv0.head]));
        }
        let ghost rv1 = self@;
        // Step 2: detach the edit branch onto the editee's parent.
        let editee_commit = match self.find_commit(editee) {
            Some(c) => c,
            None => {
                return Err(Error::CommitNotFound);
            },
        };
        let parent = match editee_commit.parent {
            Some(p) => p,
            None => {
                return Err(Error::MissingParent);
            },
        };
        let editee_tree = editee_commit.tree;
        let edit_ref = edit_branch_ref();
        self.set_ref_raw(&edit_ref, parent);
        self.set_head(&edit_ref);
        let parent_commit = match self.find_commit(parent) {
            Some(c) => c,
            None => {
                proof {
                    assert(false);
                }
                return Err(Error::CommitNotFound);
            },
        };
        // Force-checkout HEAD (the editee's parent), discarding the prior
        // working tree, which step 1 preserved.
        let parent_tree = parent_commit.tree;
        self.set_worktree(parent_tree);
        // Step 3: expose the editee's content as unstaged edits, without
        // moving HEAD.
        self.set_worktree(editee_tree);
        // Step 4: persist the metadata; this step alone makes the workspace
        // resolve to edit mode.
        let m = EditModeMetadata { editee_commit_sha: editee, editee_branch: editee_branch.duplicate() };
        write_edit_mode_metadata(self, &m);
        proof {
            let (rv2, res) = spec_enter(rv0, editee, editee_branch@);
            assert(self@ =~= rv2);
            crate::metadata::lemma_metadata_round_trip(m@);
            lemma_well_known_refs_distinct();
        }
        Ok(m)
    }

    /// Leaves edit mode: reads the persisted metadata, recommits the edited
    /// working tree with the editee's provenance onto the editee's parent,
    /// replays the editee's descendants onto the new commit, updates the
    /// editee's branch to the new tip, returns HEAD to the integration
    /// branch, and restores the stashed uncommitted state.
    pub fn transition_from_edit_to_in_workspace_mode(
        &mut self,
        _perm: &mut WorktreeWritePermission,
    ) -> (r: Result<(), Error>)
        requires
            old(self).wf(),
            old(self)@.next_commit * 2 <= u64::MAX,
            old(self)@.next_tree + old(self)@.next_commit <= u64::MAX,
        ensures
            final (self).wf(),
            ({
                let (rv_end, res) = spec_exit(old(self)@);
                &&& final (self)@ =~= rv_end
                &&& r == res
            }),
    {
        let ghost rv0 = self@;
        // Step 1: read the metadata and resolve everything the exit needs.
        let md = match read_edit_mode_metadata(self) {
            Ok(m) => m,
            Err(e) => {
                return Err(e);
            },
        };
        let old_tip = match self.find_reference(&md.editee_branch) {
            Some(t) => t,
            None => {
                return Err(Error::RefNotFound);
            },
        };
        let (editee_tree, editee_parent, editee_prov) = match self.find_commit(
            md.editee_commit_sha,
        ) {
            Some(c) => {
                match c.parent {
                    Some(p) => (c.tree, p, c.provenance.duplicate()),
                    None => {
                        return Err(Error::MissingParent);
                    },
                }
            },
            None => {
                return Err(Error::CommitNotFound);
            },
        };
        let snap_ref = edit_uncommited_files_ref();
        let snap_id = match self.find_reference(&snap_ref) {
            Some(s) => s,
            None => {
                return Err(Error::SnapshotNotFound);
            },
        };
        let snap_tree = match self.find_commit(snap_id) {
            Some(c) => c.tree,
            None => {
                proof {
                    assert(false);
                }
                return Err(Error::SnapshotNotFound);
            },
        };
        proof {
            assert(exit_lookups(rv0, md@, old_tip, editee_parent, editee_tree, snap_tree));
        }
        // Step 2: recommit the edited working tree with the editee's own
        // provenance, onto the editee's parent.
        let wt0 = self.worktree();
        let new_id = self.push_commit(Some(editee_parent), wt0, editee_prov);
        let ghost rv1 = self@;
        let ghost nc0 = rv0.next_commit;
        proof {
            lemma_chain_insert(
                rv0.commits,
                old_tip,
                md@.editee_commit_sha,
                new_id,
                CommitView {
                    parent: Some(editee_parent),
                    tree: wt0,
                    provenance: rv0.commits[md@.editee_commit_sha].provenance,
                },
                nc0,
            );
            assert(rv1.commits =~= rv0.commits.insert(
                new_id,
                CommitView {
                    parent: Some(editee_parent),
                    tree: wt0,
                    provenance: rv0.commits[md@.editee_commit_sha].provenance,
                },
            ));
            assert(spec_chain(rv1.commits, old_tip, md@.editee_commit_sha) == spec_chain(
                rv0.commits,
                old_tip,
                md@.editee_commit_sha,
            ));
        }
        // Step 3: walk the descendants of the editee, newest first.
        let mut rev_ids: Vec<CommitId> = Vec::new();
        let mut cur: CommitId = old_tip;
        while cur != md.editee_commit_sha
            invariant
                self.wf(),
                self@ == rv1,
                rv0 == old(self)@,
                nc0 == rv0.next_commit,
                exit_lookups(rv0, md@, old_tip, editee_parent, editee_tree, snap_tree),
                wt0 == rv0.worktree,
                new_id == CommitId(nc0 as u64),
                rv1 == (RepoView {
                    commits: rv0.commits.insert(
                        new_id,
                        CommitView {
                            parent: Some(editee_parent),
                            tree: wt0,
                            provenance: rv0.commits[md@.editee_commit_sha].provenance,
                        },
                    ),
                    next_commit: nc0 + 1,
                    ..rv0
                }),
                spec_chain(rv1.commits, old_tip, md@.editee_commit_sha) == spec_chain(
                    rv0.commits,
                    old_tip,
                    md@.editee_commit_sha,
                ),
                cur.0 <= old_tip.0,
                old_tip.0 < nc0,
                forall|j: int|
                    0 <= j < rev_ids@.len() ==> rv0.commits.dom().contains(
                        #[trigger] rev_ids@[j],
                    ) && rev_ids@[j].0 <= old_tip.0,
                ({
                    let full = spec_chain(rv1.commits, old_tip, md@.editee_commit_sha);
                    match spec_chain(rv1.commits, cur, md@.editee_commit_sha) {
                        Some(rest) => full == Some(rest + rev_ids@.reverse()),
                        None => full is None,
                    }
                }),
            decreases cur.0,
        {
            let ghost full = spec_chain(rv1.commits, old_tip, md@.editee_commit_sha);
            let p = match self.find_commit(cur) {
                Some(c) => {
                    match c.parent {
                        Some(p) => p,
                        None => {
                            proof {
                                assert(spec_chain(rv1.commits, cur, md@.editee_commit_sha)
                                    is None);
                                assert(full is None);
                                assert(spec_exit(rv0) == (rv1, Err::<(), Error>(
                                    Error::ReplayFailed,
                                )));
                            }
                            return Err(Error::ReplayFailed);
                        },
                    }
                },
                None => {
                    proof {
                        assert(spec_chain(rv1.commits, cur, md@.editee_commit_sha) is None);
                        assert(full is None);
                        assert(spec_exit(rv0) == (rv1, Err::<(), Error>(Error::ReplayFailed)));
                    }
                    return Err(Error::ReplayFailed);
                },
            };
            let ghost old_rev = rev_ids@;
            rev_ids.push(cur);
            proof {
                assert(self@.commits.dom().contains(cur));
                assert(p.0 < cur.0);
                assert(rv0.commits.dom().contains(cur)) by {
                    assert(cur.0 < nc0);
                    assert(cur != new_id);
                }
                let rest_cur = spec_chain(rv1.commits, cur, md@.editee_commit_sha);
                let rest_p = spec_chain(rv1.commits, p, md@.editee_commit_sha);
                match rest_p {
                    Some(s) => {
                        assert(rest_cur == Some(s.push(cur)));
                        assert(rev_ids@.reverse() =~= seq![cur] + old_rev.reverse());
                        assert(s.push(cur) + old_rev.reverse() =~= s + rev_ids@.reverse());
                    },
                    None => {
                        assert(rest_cur is None);
                    },
                }
            }
            cur = p;
        }
        let ghost ids = spec_chain(rv1.commits, old_tip, md@.editee_commit_sha)->Some_0;
        proof {
            assert(spec_chain(rv1.commits, cur, md@.editee_commit_sha) == Some(
                Seq::<CommitId>::empty(),
            ));
            assert(Seq::<CommitId>::empty() + rev_ids@.reverse() =~= rev_ids@.reverse());
            assert(ids == rev_ids@.reverse());
            assert(ids.len() == rev_ids@.len());
        }
        let ghost items = ids.map(|j: int, cid: CommitId| rv0.commits[cid]);
        let ghost rep = spec_replay(
            rv1.commits,
            new_id,
            rv0.worktree,
            rv0.commits[md@.editee_commit_sha].tree,
            items,
            rv1.next_commit,
            rv1.next_tree,
        );
        // Step 4: replay the descendants, oldest first, onto the new commit.
        let k = rev_ids.len();
        proof {
            lemma_chain_len(rv1.commits, old_tip, md@.editee_commit_sha);
            assert(k <= nc0);
            assert(items.skip(0) =~= items);
            assert forall|j: int|
                0 <= j < k implies rv0.commits.dom().contains(#[trigger] ids[j]) && ids[j].0 < nc0
                && items[j] == rv0.commits[ids[j]] by {
                assert(ids[j] == rev_ids@[k - 1 - j]);
            }
            assert(editee_tree == rv0.commits[md@.editee_commit_sha].tree);
        }
        let mut i: usize = 0;
        let mut base: CommitId = new_id;
        let mut base_tree: TreeId = wt0;
        let mut base_old_tree: TreeId = editee_tree;
        while i < k
            invariant
                self.wf(),
                0 <= i <= k,
                k == rev_ids@.len(),
                k == ids.len(),
                k == items.len(),
                k <= nc0,
                ids == rev_ids@.reverse(),
                rv0 == old(self)@,
                nc0 == rv0.next_commit,
                exit_lookups(rv0, md@, old_tip, editee_parent, editee_tree, snap_tree),
                wt0 == rv0.worktree,
                new_id == CommitId(nc0 as u64),
                nc0 * 2 <= u64::MAX,
                rv0.next_tree + nc0 <= u64::MAX,
                rv1.next_commit == nc0 + 1,
                rv1.next_tree == rv0.next_tree,
                rv1.refs == rv0.refs,
                rv1.head == rv0.head,
                rv1.worktree == rv0.worktree,
                rv1.metadata == rv0.metadata,
                spec_chain(rv0.commits, old_tip, md@.editee_commit_sha) == Some(ids),
                items == ids.map(|j: int, cid: CommitId| rv0.commits[cid]),
                rep == spec_replay(
                    rv1.commits,
                    new_id,
                    rv0.worktree,
                    rv0.commits[md@.editee_commit_sha].tree,
                    items,
                    rv1.next_commit,
                    rv1.next_tree,
                ),
                forall|j: int|
                    0 <= j < k ==> rv0.commits.dom().contains(#[trigger] ids[j]) && ids[j].0 < nc0,
                forall|j: int| 0 <= j < k ==> #[trigger] items[j] == rv0.commits[ids[j]],
                forall|id: CommitId|
                    #[trigger] rv1.commits.dom().contains(id) ==> self@.commits.dom().contains(id)
                        && self@.commits[id] == rv1.commits[id],
                rv1.commits == rv0.commits.insert(
                    new_id,
                    CommitView {
                        parent: Some(editee_parent),
                        tree: wt0,
                        provenance: rv0.commits[md@.editee_commit_sha].provenance,
                    },
                ),
                forall|id: CommitId|
                    #[trigger] rv1.commits.dom().contains(id) ==> id.0 < rv1.next_commit,
                self@.commits.dom().contains(base),
                self@.next_commit == rv1.next_commit + i,
                rv1.next_tree <= self@.next_tree <= rv1.next_tree + i,
                self@.refs == rv1.refs,
                self@.head == rv1.head,
                self@.worktree == rv1.worktree,
                self@.metadata == rv1.metadata,
                rep == spec_replay(
                    self@.commits,
                    base,
                    base_tree,
                    base_old_tree,
                    items.skip(i as int),
                    self@.next_commit,
                    self@.next_tree,
                ),
            decreases k - i,
        {
            let id_i = rev_ids[k - 1 - i];
            proof {
                assert(ids[i as int] == rev_ids@[k - 1 - i as int]);
                assert(id_i == ids[i as int]);
                assert(rv0.commits.dom().contains(id_i));
                assert(id_i != new_id);
                assert(rv1.commits.dom().contains(id_i));
                assert(rv1.commits[id_i] == rv0.commits[id_i]);
                assert(self@.commits[id_i] == rv0.commits[id_i]);
            }
            let (item_tree, item_prov) = match self.find_commit(id_i) {
                Some(c) => (c.tree, c.provenance.duplicate()),
                None => {
                    proof {
                        assert(false);
                    }
                    return Err(Error::ReplayFailed);
                },
            };
            let same = base_old_tree == base_tree;
            let ntree = if same {
                item_tree
            } else {
                self.alloc_tree()
            };
            let ghost pre = self@;
            let nid = self.push_commit(Some(base), ntree, item_prov);
            proof {
                let rem = items.skip(i as int);
                assert(rem[0] == items[i as int]);
                assert(rem.drop_first() =~= items.skip(i as int + 1));
                assert(items[i as int].tree == rv0.commits[ids[i as int]].tree);
                assert(item_tree == items[i as int].tree);
                assert(item_prov@ == items[i as int].provenance);
                assert(self@.commits =~= pre.commits.insert(
                    nid,
                    CommitView {
                        parent: Some(base),
                        tree: ntree,
                        provenance: items[i as int].provenance,
                    },
                ));
            }
            base = nid;
            base_tree = ntree;
            base_old_tree = item_tree;
            i += 1;
        }
        proof {
            assert(items.skip(k as int) =~= Seq::<CommitView>::empty());
            assert(rep == (self@.commits, base, self@.next_commit, self@.next_tree));
        }
        // Step 5: update the editee's branch to the new tip, before HEAD
        // moves: later steps read the branch only by name.
        self.set_ref_raw(&md.editee_branch, base);
        // Step 6: return to the integration workspace. HEAD moves first;
        // resolving it may still fail, which leaves HEAD moved, as a forced
        // checkout that fails would.
        let integration_ref = integration_branch_ref();
        self.set_head(&integration_ref);
        match self.find_reference(&integration_ref) {
            Some(_) => {},
            None => {
                proof {
                    let (rv_end, res) = spec_exit(rv0);
                    assert(self@ =~= rv_end);
                }
                return Err(Error::IntegrationNotFound);
            },
        }
        // The forced checkout of the integration head is immediately covered
        // by checking out the stashed tree on top: the net working tree is
        // the stashed uncommitted state from entry.
        self.set_worktree(snap_tree);
        proof {
            let (rv_end, res) = spec_exit(rv0);
            assert(self@ =~= rv_end);
        }
        Ok(())
    }
}

/// After a successful exit, every commit that was a descendant of the
/// original editee on its branch is present again, in the same relative
/// order, atop the rewritten editee, each preserving its own provenance;
/// every commit that existed before is untouched; the rewritten editee
/// carries the editee's provenance and parent with the edited content; and
/// the editee's branch points at the new tip.
pub proof fn lemma_exit_preserves_descendants(rv: RepoView)
    requires
        repo_view_wf(rv),
        rv.next_commit * 2 <= u64::MAX,
        spec_exit(rv).1 is Ok,
    ensures
        ({
            let fin = spec_exit(rv).0;
            let m = crate::metadata::spec_decode_metadata(rv.metadata->Some_0)->Some_0;
            let old_tip = rv.refs[m.editee_branch];
            let ids = spec_chain(rv.commits, old_tip, m.editee_commit_sha)->Some_0;
            let k = ids.len() as int;
            let new_id = CommitId(rv.next_commit as u64);
            &&& rv.metadata is Some
            &&& spec_chain(rv.commits, old_tip, m.editee_commit_sha) is Some
            &&& fin.commits.dom().contains(new_id)
            &&& fin.commits[new_id].provenance == rv.commits[m.editee_commit_sha].provenance
            &&& fin.commits[new_id].parent == rv.commits[m.editee_commit_sha].parent
            &&& fin.commits[new_id].tree == rv.worktree
            &&& forall|id: CommitId|
                #[trigger] rv.commits.dom().contains(id) ==> fin.commits.dom().contains(id)
                    && fin.commits[id] == rv.commits[id]
            &&& forall|j: int|
                0 <= j < k ==> #[trigger] fin.commits.dom().contains(
                    CommitId((rv.next_commit + 1 + j) as u64),
                )
            &&& forall|j: int|
                0 <= j < k ==> (#[trigger] fin.commits[CommitId(
                    (rv.next_commit + 1 + j) as u64,
                )]).provenance == rv.commits[ids[j]].provenance
            &&& forall|j: int|
                0 <= j < k ==> (#[trigger] fin.commits[CommitId(
                    (rv.next_commit + 1 + j) as u64,
                )]).parent == Some(
                    if j == 0 {
                        new_id
                    } else {
                        CommitId((rv.next_commit + j) as u64)
                    },
                )
            &&& fin.refs.dom().contains(m.editee_branch)
            &&& fin.refs[m.editee_branch] == (if k == 0 {
                new_id
            } else {
                CommitId((rv.next_commit + k) as u64)
            })
        }),
{
    let m = crate::metadata::spec_decode_metadata(rv.metadata->Some_0)->Some_0;
    let old_tip = rv.refs[m.editee_branch];
    let editee = rv.commits[m.editee_commit_sha];
    let ep = editee.parent->Some_0;
    let nc = rv.next_commit;
    let new_id = CommitId(nc as u64);
    let cv0 = CommitView { parent: Some(ep), tree: rv.worktree, provenance: editee.provenance };
    let m1 = rv.commits.insert(new_id, cv0);
    let ids = spec_chain(rv.commits, old_tip, m.editee_commit_sha)->Some_0;
    let k = ids.len() as int;
    let items = ids.map(|j: int, cid: CommitId| rv.commits[cid]);
    lemma_chain_len(rv.commits, old_tip, m.editee_commit_sha);
    assert(old_tip.0 < nc);
    assert(k <= nc);
    assert(forall|id: CommitId| m1.dom().contains(id) ==> (#[trigger] id.0) < nc + 1);
    lemma_replay_facts(m1, new_id, rv.worktree, editee.tree, items, nc + 1, rv.next_tree);
    let rep = spec_replay(m1, new_id, rv.worktree, editee.tree, items, nc + 1, rv.next_tree);
    let fin = spec_exit(rv).0;
    assert(fin.commits == rep.0);
    assert(m1.dom().contains(new_id));
    assert(fin.commits[new_id] == cv0);
    assert forall|id: CommitId|
        #[trigger] rv.commits.dom().contains(id) implies fin.commits.dom().contains(id)
        && fin.commits[id] == rv.commits[id] by {
        assert(id.0 < nc);
        assert(m1.dom().contains(id));
        assert(m1[id] == rv.commits[id]);
    }
    assert forall|j: int|
        0 <= j < k implies #[trigger] fin.commits.dom().contains(
            CommitId((rv.next_commit + 1 + j) as u64),
        ) by {
        assert(rep.0.dom().contains(CommitId(((nc + 1) + j) as u64)));
    }
    assert forall|j: int|
        0 <= j < k implies (#[trigger] fin.commits[CommitId(
            (rv.next_commit + 1 + j) as u64,
        )]).provenance == rv.commits[ids[j]].provenance by {
        assert(rep.0.dom().contains(CommitId(((nc + 1) + j) as u64)));
        assert((rep.0[CommitId(((nc + 1) + j) as u64)]).provenance == items[j].provenance);
        assert(items[j] == rv.commits[ids[j]]);
    }
    assert forall|j: int|
        0 <= j < k implies (#[trigger] fin.commits[CommitId(
            (rv.next_commit + 1 + j) as u64,
        )]).parent == Some(
            if j == 0 {
                new_id
            } else {
                CommitId((rv.next_commit + j) as u64)
            },
        ) by {
        assert(rep.0.dom().contains(CommitId(((nc + 1) + j) as u64)));
        assert((rep.0[CommitId(((nc + 1) + j) as u64)]).parent == Some(
            if j == 0 {
                new_id
            } else {
                CommitId(((nc + 1) + j - 1) as u64)
            },
        ));
        if j > 0 {
            assert(CommitId(((nc + 1) + j - 1) as u64) == CommitId((rv.next_commit + j) as u64));
        }
    }
    if k != 0 {
        assert(rep.1 == CommitId(((nc + 1) + k - 1) as u64));
        assert(CommitId(((nc + 1) + k - 1) as u64) == CommitId((rv.next_commit + k) as u64));
    }
}

/// Entering edit mode and leaving it again at once, with no user edits in
/// between, rebuilds the editee's branch with the tip content it had: the
/// new tip carries the old tip's tree even though the commit identifiers
/// change, the pre-edit uncommitted working tree state is restored exactly,
/// and HEAD is back on the integration branch.
pub proof fn lemma_enter_exit_restores_content(rv: RepoView, editee: CommitId, branch: Seq<u8>)
    requires
        repo_view_wf(rv),
        valid_ref_name(branch),
        branch != edit_ref_bytes(),
        branch != edit_uncommited_files_ref_bytes(),
        rv.refs.dom().contains(rv.head),
        rv.commits.dom().contains(editee),
        rv.commits[editee].parent is Some,
        rv.refs.dom().contains(branch),
        spec_chain(rv.commits, rv.refs[branch], editee) is Some,
        rv.refs.dom().contains(integration_ref_bytes()),
        (rv.next_commit + 1) * 2 <= u64::MAX,
        rv.next_tree + rv.next_commit + 1 <= u64::MAX,
    ensures
        ({
            let (rv2, res) = spec_enter(rv, editee, branch);
            let (fin, res2) = spec_exit(rv2);
            &&& res is Ok
            &&& res2 is Ok
            &&& fin.worktree == rv.worktree
            &&& fin.head == integration_ref_bytes()
            &&& fin.refs.dom().contains(branch)
            &&& fin.commits.dom().contains(fin.refs[branch])
            &&& fin.commits[fin.refs[branch]].tree == rv.commits[rv.refs[branch]].tree
        }),
{
    lemma_well_known_refs_distinct();
    let nc = rv.next_commit;
    let snap_id = CommitId(nc as u64);
    let (rv2, res) = spec_enter(rv, editee, branch);
    let mv = EditModeMetadataView { editee_commit_sha: editee, editee_branch: branch };
    crate::metadata::lemma_metadata_round_trip(mv);
    assert(res == Ok::<EditModeMetadataView, Error>(mv));
    let old_tip = rv.refs[branch];
    assert(rv2.refs.dom().contains(branch));
    assert(rv2.refs[branch] == old_tip);
    assert(editee.0 < nc);
    assert(rv2.commits.dom().contains(editee));
    assert(rv2.commits[editee] == rv.commits[editee]);
    let ep = rv.commits[editee].parent->Some_0;
    let etree = rv.commits[editee].tree;
    assert(rv2.refs.dom().contains(edit_uncommited_files_ref_bytes()));
    assert(rv2.refs[edit_uncommited_files_ref_bytes()] == snap_id);
    assert(rv2.commits[snap_id].tree == rv.worktree);
    // The chain among the original commits is untouched by the snapshot.
    let snapcv = CommitView {
        parent: Some(rv.refs[rv.head]),
        tree: rv.worktree,
        provenance: bot_provenance_view(),
    };
    lemma_chain_insert(rv.commits, old_tip, editee, snap_id, snapcv, nc);
    assert(rv2.commits == rv.commits.insert(snap_id, snapcv));
    let ids = spec_chain(rv.commits, old_tip, editee)->Some_0;
    assert(spec_chain(rv2.commits, old_tip, editee) == Some(ids));
    let k = ids.len() as int;
    lemma_chain_len(rv.commits, old_tip, editee);
    lemma_chain_members(rv.commits, old_tip, editee);
    assert(old_tip.0 < nc);
    assert(k <= nc + 1);
    // The items replayed are original commits: chain members are older than
    // the snapshot commit.
    let items = ids.map(|j: int, cid: CommitId| rv2.commits[cid]);
    assert forall|j: int| 0 <= j < k implies #[trigger] items[j] == rv.commits[ids[j]] by {
        assert(rv.commits.dom().contains(ids[j]));
        assert(ids[j].0 < nc);
        assert(rv2.commits[ids[j]] == rv.commits[ids[j]]);
    }
    // Exit from the entered state.
    let new_id = CommitId((nc + 1) as u64);
    let cv0 = CommitView { parent: Some(ep), tree: rv2.worktree, provenance: rv.commits[editee].provenance };
    let m1 = rv2.commits.insert(new_id, cv0);
    assert(rv2.worktree == etree);
    assert(forall|id: CommitId| m1.dom().contains(id) ==> (#[trigger] id.0) < nc + 2);
    lemma_replay_facts(m1, new_id, etree, etree, items, nc + 2, rv.next_tree);
    lemma_replay_preserves_trees(m1, new_id, etree, items, nc + 2, rv.next_tree);
    let rep = spec_replay(m1, new_id, etree, etree, items, nc + 2, rv.next_tree);
    let (fin, res2) = spec_exit(rv2);
    assert(res2 is Ok);
    assert(fin.commits == rep.0);
    assert(fin.refs == rv2.refs.insert(branch, rep.1));
    assert(fin.worktree == rv.worktree);
    if k == 0 {
        assert(old_tip == editee);
        assert(rep.1 == new_id);
        assert(m1.dom().contains(new_id));
        assert(fin.commits[new_id] == cv0);
        assert(fin.commits[rep.1].tree == rv.commits[old_tip].tree);
    } else {
        assert(rep.1 == CommitId(((nc + 2) + k - 1) as u64));
        assert(rep.0.dom().contains(CommitId(((nc + 2) + (k - 1)) as u64)));
        assert(CommitId(((nc + 2) + (k - 1)) as u64) == rep.1);
        assert((rep.0[CommitId(((nc + 2) + (k - 1)) as u64)]).tree == items[k - 1].tree);
        assert(ids[k - 1] == ids.last());
        assert(ids.last() == old_tip);
        assert(items[k - 1] == rv.commits[old_tip]);
        assert(fin.commits[rep.1].tree == rv.commits[old_tip].tree);
    }
}

/// Leaving edit mode demands the persisted metadata of a matching entry:
/// with none present the exit fails, names the missing precondition, and
/// changes nothing, rather than silently doing no work.
pub proof fn lemma_exit_without_metadata_fails(rv: RepoView)
    requires
        rv.metadata is None,
    ensures
        spec_exit(rv) == (rv, Err::<(), Error>(Error::MetadataMissing)),
{
}

} // verus!

use gitbutler_edit_mode::access::WorktreeWritePermission;
use gitbutler_edit_mode::error::Error;
use gitbutler_edit_mode::ids::{CommitId, TreeId};
use gitbutler_edit_mode::modes::{in_edit_mode, in_open_workspace_mode, operating_mode, OperatingMode};
use gitbutler_edit_mode::refname::{
    edit_uncommited_files_ref, integration_branch_ref, RefName,
};
use gitbutler_edit_mode::repo::{Commit, Provenance, Repository};

fn name(s: &str) -> RefName {
    RefName::from_str(s).expect("valid reference name")
}

fn prov(who: &str, message: &str) -> Provenance {
    Provenance {
        author: who.as_bytes().to_vec(),
        committer: who.as_bytes().to_vec(),
        message: message.as_bytes().to_vec(),
        headers: Some(format!("change-id: {}", message).into_bytes()),
    }
}

fn same_provenance(a: &Provenance, b: &Provenance) -> bool {
    a.author == b.author && a.committer == b.committer && a.message == b.message
        && a.headers == b.headers
}

/// A workspace whose branch holds root <- editee <- c1 <- c2, with HEAD on
/// the integration branch and some uncommitted work in the working tree.
/// Returns the repository and (root, editee, c1, c2).
fn workspace() -> (Repository, CommitId, CommitId, CommitId, CommitId) {
    let mut repo = Repository::new(integration_branch_ref());
    let root = repo.create_commit(None, TreeId(101), prov("alice", "root")).unwrap();
    let editee = repo.create_commit(Some(root), TreeId(102), prov("bob", "editee")).unwrap();
    let c1 = repo.create_commit(Some(editee), TreeId(103), prov("carol", "first on top")).unwrap();
    let c2 = repo.create_commit(Some(c1), TreeId(104), prov("dave", "second on top")).unwrap();
    repo.set_reference(&name("refs/heads/topic"), c2).unwrap();
    repo.set_reference(&integration_branch_ref(), root).unwrap();
    repo.set_worktree(TreeId(900));
    (repo, root, editee, c1, c2)
}

fn commit_of(repo: &Repository, id: CommitId) -> Commit {
    let c = repo.find_commit(id).expect("commit present");
    Commit {
        id: c.id,
        parent: c.parent,
        tree: c.tree,
        provenance: Provenance {
            author: c.provenance.author.clone(),
            committer: c.provenance.committer.clone(),
            message: c.provenance.message.clone(),
            headers: c.provenance.headers.clone(),
        },
    }
}

#[test]
fn enter_exposes_editee_and_resolves_to_edit_mode() {
    let (mut repo, _root, editee, _c1, _c2) = workspace();
    let mut perm = WorktreeWritePermission::new();
    let m = repo
        .transition_from_in_workspace_to_edit_mode(editee, &name("refs/heads/topic"), &mut perm)
        .expect("enter succeeds");
    assert_eq!(m.editee_commit_sha, editee);
    // The working tree shows exactly the editee's content.
    assert_eq!(repo.worktree(), TreeId(102));
    // The mode derives to edit mode with the requested editee.
    match operating_mode(&repo) {
        OperatingMode::Edit(read_back) => assert_eq!(read_back.editee_commit_sha, editee),
        _ => panic!("expected edit mode after entering"),
    }
    // The stash handle points at a bot-authored commit of the old worktree,
    // parented on the old integration head.
    let snap = repo.find_reference(&edit_uncommited_files_ref()).expect("snapshot ref exists");
    let snap_commit = commit_of(&repo, snap);
    assert_eq!(snap_commit.tree, TreeId(900));
    assert_eq!(snap_commit.provenance.message, b"Edit mode saved changes".to_vec());
}

#[test]
fn enter_then_exit_restores_content_and_workspace() {
    let (mut repo, root, editee, _c1, c2) = workspace();
    let old_tip_tree = commit_of(&repo, c2).tree;
    let mut perm = WorktreeWritePermission::new();
    repo.transition_from_in_workspace_to_edit_mode(editee, &name("refs/heads/topic"), &mut perm)
        .expect("enter succeeds");
    // No user edits in between.
    repo.transition_from_edit_to_in_workspace_mode(&mut perm).expect("exit succeeds");
    // The uncommitted working tree state is back.
    assert_eq!(repo.worktree(), TreeId(900));
    // HEAD is back on the integration branch.
    assert!(in_open_workspace_mode(&repo));
    // The branch tip is a new commit with the old tip's content.
    let new_tip = repo.find_reference(&name("refs/heads/topic")).expect("branch exists");
    assert_ne!(new_tip, c2);
    let tip = commit_of(&repo, new_tip);
    assert_eq!(tip.tree, old_tip_tree);
    // The old commits are all still present, untouched.
    assert_eq!(commit_of(&repo, c2).tree, TreeId(104));
    assert_eq!(commit_of(&repo, editee).parent, Some(root));
}

#[test]
fn edited_exit_replays_descendants_with_provenance() {
    let (mut repo, root, editee, c1, c2) = workspace();
    let editee_before = commit_of(&repo, editee);
    let c1_before = commit_of(&repo, c1);
    let c2_before = commit_of(&repo, c2);
    let mut perm = WorktreeWritePermission::new();
    repo.transition_from_in_workspace_to_edit_mode(editee, &name("refs/heads/topic"), &mut perm)
        .expect("enter succeeds");
    // The user edits the editee's content.
    repo.set_worktree(TreeId(901));
    repo.transition_from_edit_to_in_workspace_mode(&mut perm).expect("exit succeeds");
    // Branch tip: a new second descendant, then a new first descendant, then
    // the rewritten editee, all in the original order with their own
    // provenance.
    let tip = repo.find_reference(&name("refs/heads/topic")).expect("branch exists");
    let c2_new = commit_of(&repo, tip);
    assert_ne!(tip, c2);
    assert!(same_provenance(&c2_new.provenance, &c2_before.provenance));
    let c1_new = commit_of(&repo, c2_new.parent.expect("has parent"));
    assert_ne!(c1_new.id, c1);
    assert!(same_provenance(&c1_new.provenance, &c1_before.provenance));
    let editee_new = commit_of(&repo, c1_new.parent.expect("has parent"));
    assert_ne!(editee_new.id, editee);
    assert!(same_provenance(&editee_new.provenance, &editee_before.provenance));
    // Only the editee's content changed by the user's hand; the rewritten
    // editee sits on the original parent.
    assert_eq!(editee_new.tree, TreeId(901));
    assert_eq!(editee_new.parent, Some(root));
    // The originals are untouched.
    assert_eq!(commit_of(&repo, editee).tree, TreeId(102));
    assert_eq!(commit_of(&repo, c1).tree, TreeId(103));
    assert_eq!(commit_of(&repo, c2).tree, TreeId(104));
}

#[test]
fn exit_without_enter_fails_on_missing_metadata() {
    let (mut repo, _root, _editee, _c1, _c2) = workspace();
    let mut perm = WorktreeWritePermission::new();
    assert!(matches!(
        repo.transition_from_edit_to_in_workspace_mode(&mut perm),
        Err(Error::MetadataMissing),
    ));
}

#[test]
fn exit_with_corrupt_metadata_fails_as_malformed() {
    let (mut repo, _root, _editee, _c1, _c2) = workspace();
    repo.set_metadata_file(Some(b"not a record".to_vec()));
    let mut perm = WorktreeWritePermission::new();
    assert!(matches!(
        repo.transition_from_edit_to_in_workspace_mode(&mut perm),
        Err(Error::MetadataMalformed),
    ));
}

#[test]
fn enter_fails_without_resolvable_head() {
    let mut repo = Repository::new(name("refs/heads/unborn"));
    let mut perm = WorktreeWritePermission::new();
    let r = repo.transition_from_in_workspace_to_edit_mode(
        CommitId(0),
        &name("refs/heads/topic"),
        &mut perm,
    );
    assert!(matches!(r, Err(Error::HeadNotFound)));
}

#[test]
fn enter_fails_on_unknown_editee() {
    let (mut repo, _root, _editee, _c1, _c2) = workspace();
    let mut perm = WorktreeWritePermission::new();
    let r = repo.transition_from_in_workspace_to_edit_mode(
        CommitId(12345),
        &name("refs/heads/topic"),
        &mut perm,
    );
    assert!(matches!(r, Err(Error::CommitNotFound)));
    // The snapshot had already been taken when the lookup failed: the
    // half-done transition is observable, and the mode resolver still
    // reports a defined state.
    assert!(repo.find_reference(&edit_uncommited_files_ref()).is_some());
    assert!(in_open_workspace_mode(&repo));
}

#[test]
fn enter_fails_on_root_editee() {
    let (mut repo, root, _editee, _c1, _c2) = workspace();
    let mut perm = WorktreeWritePermission::new();
    let r = repo.transition_from_in_workspace_to_edit_mode(
        root,
        &name("refs/heads/topic"),
        &mut perm,
    );
    assert!(matches!(r, Err(Error::MissingParent)));
}

#[test]
fn exit_fails_when_branch_is_gone() {
    let (mut repo, _root, editee, _c1, _c2) = workspace();
    let mut perm = WorktreeWritePermission::new();
    repo.transition_from_in_workspace_to_edit_mode(editee, &name("refs/heads/vanished"), &mut perm)
        .expect("enter does not check the branch");
    let r = repo.transition_from_edit_to_in_workspace_mode(&mut perm);
    assert!(matches!(r, Err(Error::RefNotFound)));
}

#[test]
fn exit_fails_when_editee_is_not_an_ancestor() {
    let (mut repo, _root, _editee, _c1, _c2) = workspace();
    // A second rooted lineage: its tip does not descend from the editee.
    let other_root = repo.create_commit(None, TreeId(201), prov("eve", "elsewhere")).unwrap();
    let stray = repo.create_commit(Some(other_root), TreeId(202), prov("eve", "stray")).unwrap();
    repo.set_reference(&name("refs/heads/stray"), stray).unwrap();
    let mut perm = WorktreeWritePermission::new();
    repo.transition_from_in_workspace_to_edit_mode(stray, &name("refs/heads/topic"), &mut perm)
        .expect("enter succeeds");
    let r = repo.transition_from_edit_to_in_workspace_mode(&mut perm);
    assert!(matches!(r, Err(Error::ReplayFailed)));
}

#[test]
fn exit_fails_without_snapshot_ref() {
    // Metadata written by hand, without the enter transition that would
    // have created the uncommitted-snapshot reference.
    let (mut repo, _root, editee, _c1, _c2) = workspace();
    let md = gitbutler_edit_mode::metadata::EditModeMetadata {
        editee_commit_sha: editee,
        editee_branch: name("refs/heads/topic"),
    };
    let copy = md.duplicate();
    assert_eq!(copy.editee_commit_sha, md.editee_commit_sha);
    gitbutler_edit_mode::metadata::write_edit_mode_metadata(&mut repo, &md);
    let mut perm = WorktreeWritePermission::new();
    let r = repo.transition_from_edit_to_in_workspace_mode(&mut perm);
    assert!(matches!(r, Err(Error::SnapshotNotFound)));
}

#[test]
fn exit_fails_without_integration_branch() {
    let mut repo = Repository::new(name("refs/heads/main"));
    let root = repo.create_commit(None, TreeId(1), prov("alice", "root")).unwrap();
    let editee = repo.create_commit(Some(root), TreeId(2), prov("bob", "editee")).unwrap();
    repo.set_reference(&name("refs/heads/main"), editee).unwrap();
    let mut perm = WorktreeWritePermission::new();
    repo.transition_from_in_workspace_to_edit_mode(editee, &name("refs/heads/main"), &mut perm)
        .expect("enter succeeds");
    let r = repo.transition_from_edit_to_in_workspace_mode(&mut perm);
    assert!(matches!(r, Err(Error::IntegrationNotFound)));
}

#[test]
fn snapshot_ref_is_single_use_per_cycle() {
    let (mut repo, _root, editee, c1, _c2) = workspace();
    let mut perm = WorktreeWritePermission::new();
    repo.transition_from_in_workspace_to_edit_mode(editee, &name("refs/heads/topic"), &mut perm)
        .expect("first enter succeeds");
    let first_snap = repo.find_reference(&edit_uncommited_files_ref()).unwrap();
    // A second enter before the matching exit overwrites the stash handle.
    repo.set_head(&integration_branch_ref());
    repo.set_worktree(TreeId(902));
    repo.transition_from_in_workspace_to_edit_mode(c1, &name("refs/heads/topic"), &mut perm)
        .expect("second enter succeeds");
    let second_snap = repo.find_reference(&edit_uncommited_files_ref()).unwrap();
    assert_ne!(first_snap, second_snap);
    assert_eq!(commit_of(&repo, second_snap).tree, TreeId(902));
    assert!(in_edit_mode(&repo));
}

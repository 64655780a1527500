use gitbutler_edit_mode::error::{Error, ModeKind};
use gitbutler_edit_mode::ids::{CommitId, TreeId};
use gitbutler_edit_mode::metadata::{write_edit_mode_metadata, EditModeMetadata};
use gitbutler_edit_mode::modes::{
    assure_edit_mode, assure_open_workspace_mode, assure_outside_workspace_mode, in_edit_mode,
    in_open_workspace_mode, in_outside_workspace_mode, operating_mode, OperatingMode,
};
use gitbutler_edit_mode::refname::{edit_branch_ref, integration_branch_ref, RefName};
use gitbutler_edit_mode::repo::{Provenance, Repository};
use gitbutler_edit_mode::watcher::Watcher;

fn name(s: &str) -> RefName {
    RefName::from_str(s).expect("valid reference name")
}

fn prov(who: &str) -> Provenance {
    Provenance {
        author: who.as_bytes().to_vec(),
        committer: who.as_bytes().to_vec(),
        message: format!("by {}", who).into_bytes(),
        headers: None,
    }
}

fn metadata(id: u64, branch_name: &str) -> EditModeMetadata {
    EditModeMetadata { editee_commit_sha: CommitId(id), editee_branch: name(branch_name) }
}

#[test]
fn head_on_integration_is_in_workspace() {
    let repo = Repository::new(integration_branch_ref());
    assert!(in_open_workspace_mode(&repo));
    assert!(!in_edit_mode(&repo));
    assert!(!in_outside_workspace_mode(&repo));
}

#[test]
fn head_elsewhere_is_outside_workspace() {
    let repo = Repository::new(name("refs/heads/main"));
    assert!(!in_open_workspace_mode(&repo));
    assert!(!in_edit_mode(&repo));
    assert!(in_outside_workspace_mode(&repo));
}

#[test]
fn edit_head_with_readable_metadata_is_edit_mode() {
    let mut repo = Repository::new(edit_branch_ref());
    write_edit_mode_metadata(&mut repo, &metadata(9, "refs/heads/topic"));
    match operating_mode(&repo) {
        OperatingMode::Edit(m) => {
            assert_eq!(m.editee_commit_sha, CommitId(9));
            assert!(m.editee_branch == name("refs/heads/topic"));
        },
        _ => panic!("expected edit mode"),
    }
}

#[test]
fn edit_head_without_metadata_degrades_to_outside() {
    let repo = Repository::new(edit_branch_ref());
    assert!(in_outside_workspace_mode(&repo));
}

#[test]
fn edit_head_with_corrupt_metadata_degrades_to_outside() {
    let mut repo = Repository::new(edit_branch_ref());
    repo.set_metadata_file(Some(b"### not the schema ###".to_vec()));
    assert!(in_outside_workspace_mode(&repo));
}

#[test]
fn resolution_is_stable_without_mutation() {
    let mut repo = Repository::new(edit_branch_ref());
    write_edit_mode_metadata(&mut repo, &metadata(3, "refs/heads/b"));
    let first = in_edit_mode(&repo);
    let second = in_edit_mode(&repo);
    assert_eq!(first, second);
    assert!(first);
    let first_kind = matches!(operating_mode(&repo), OperatingMode::Edit(_));
    let second_kind = matches!(operating_mode(&repo), OperatingMode::Edit(_));
    assert_eq!(first_kind, second_kind);
}

#[test]
fn guards_in_workspace_mode() {
    let repo = Repository::new(integration_branch_ref());
    assert!(assure_open_workspace_mode(&repo).is_ok());
    assert_eq!(
        assure_edit_mode(&repo).err(),
        Some(Error::PreconditionViolated {
            expected: ModeKind::Edit,
            observed: ModeKind::InWorkspace,
        }),
    );
    assert_eq!(
        assure_outside_workspace_mode(&repo),
        Err(Error::PreconditionViolated {
            expected: ModeKind::OutsideWorkspace,
            observed: ModeKind::InWorkspace,
        }),
    );
}

#[test]
fn guards_in_edit_mode() {
    let mut repo = Repository::new(edit_branch_ref());
    write_edit_mode_metadata(&mut repo, &metadata(5, "refs/heads/b"));
    assert_eq!(
        assure_open_workspace_mode(&repo),
        Err(Error::PreconditionViolated {
            expected: ModeKind::InWorkspace,
            observed: ModeKind::Edit,
        }),
    );
    let m = assure_edit_mode(&repo).expect("edit mode holds");
    assert_eq!(m.editee_commit_sha, CommitId(5));
    assert_eq!(
        assure_outside_workspace_mode(&repo),
        Err(Error::PreconditionViolated {
            expected: ModeKind::OutsideWorkspace,
            observed: ModeKind::Edit,
        }),
    );
}

#[test]
fn guards_outside_workspace() {
    let repo = Repository::new(name("refs/heads/main"));
    assert_eq!(
        assure_open_workspace_mode(&repo),
        Err(Error::PreconditionViolated {
            expected: ModeKind::InWorkspace,
            observed: ModeKind::OutsideWorkspace,
        }),
    );
    assert!(assure_edit_mode(&repo).is_err());
    assert!(assure_outside_workspace_mode(&repo).is_ok());
}

#[test]
fn repository_plumbing_round_trips() {
    let mut repo = Repository::new(integration_branch_ref());
    let root = repo.create_commit(None, TreeId(1), prov("alice")).expect("root commit");
    let child = repo.create_commit(Some(root), TreeId(2), prov("bob")).expect("child commit");
    assert!(matches!(
        repo.create_commit(Some(CommitId(999)), TreeId(3), prov("mallory")),
        Err(Error::CommitNotFound),
    ));
    repo.set_reference(&name("refs/heads/main"), child).expect("target exists");
    assert_eq!(repo.find_reference(&name("refs/heads/main")), Some(child));
    assert_eq!(repo.find_reference(&name("refs/heads/other")), None);
    repo.set_reference(&name("refs/heads/main"), root).expect("target exists");
    assert_eq!(repo.find_reference(&name("refs/heads/main")), Some(root));
    let c = repo.find_commit(child).expect("present");
    assert_eq!(c.parent, Some(root));
    assert_eq!(c.tree, TreeId(2));
    assert_eq!(c.provenance.author, b"bob".to_vec());
}

#[test]
fn watcher_registry_tracks_projects() {
    let mut w = Watcher::new();
    assert!(!w.is_watched(1));
    w.watch(1);
    w.watch(2);
    w.watch(1);
    assert!(w.is_watched(1));
    assert!(w.is_watched(2));
    w.unwatch(1);
    assert!(!w.is_watched(1));
    assert!(w.is_watched(2));
    w.unwatch(2);
    assert!(!w.is_watched(2));
}

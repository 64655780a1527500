use gitbutler_edit_mode::ids::CommitId;
use gitbutler_edit_mode::metadata::{
    decode_edit_mode_metadata, encode_edit_mode_metadata, read_edit_mode_metadata,
    write_edit_mode_metadata, EditModeMetadata,
};
use gitbutler_edit_mode::error::Error;
use gitbutler_edit_mode::refname::RefName;
use gitbutler_edit_mode::repo::Repository;

fn branch(name: &str) -> RefName {
    RefName::from_str(name).expect("valid reference name")
}

#[test]
fn encoding_has_exact_persisted_form() {
    let m = EditModeMetadata {
        editee_commit_sha: CommitId(255),
        editee_branch: branch("refs/heads/x"),
    };
    let bytes = encode_edit_mode_metadata(&m);
    let expected = "editee_commit_sha = \"00000000000000ff\"\neditee_branch = \"refs/heads/x\"\n";
    assert_eq!(bytes, expected.as_bytes().to_vec());
}

#[test]
fn round_trip_small_id() {
    let m = EditModeMetadata {
        editee_commit_sha: CommitId(0),
        editee_branch: branch("refs/heads/main"),
    };
    let bytes = encode_edit_mode_metadata(&m);
    let back = decode_edit_mode_metadata(&bytes).expect("decodes");
    assert_eq!(back.editee_commit_sha, CommitId(0));
    assert!(back.editee_branch == m.editee_branch);
}

#[test]
fn round_trip_large_id() {
    let m = EditModeMetadata {
        editee_commit_sha: CommitId(u64::MAX),
        editee_branch: branch("refs/heads/feature/deep-dir_1.2"),
    };
    let bytes = encode_edit_mode_metadata(&m);
    let back = decode_edit_mode_metadata(&bytes).expect("decodes");
    assert_eq!(back.editee_commit_sha, CommitId(u64::MAX));
    assert!(back.editee_branch == m.editee_branch);
}

#[test]
fn garbage_does_not_decode() {
    assert!(decode_edit_mode_metadata(&b"not metadata at all".to_vec()).is_none());
    assert!(decode_edit_mode_metadata(&Vec::new()).is_none());
    let almost = "editee_commit_sha = \"00000000000000zz\"\neditee_branch = \"refs/heads/x\"\n";
    assert!(decode_edit_mode_metadata(&almost.as_bytes().to_vec()).is_none());
}

#[test]
fn truncated_document_does_not_decode() {
    let m = EditModeMetadata {
        editee_commit_sha: CommitId(7),
        editee_branch: branch("refs/heads/y"),
    };
    let mut bytes = encode_edit_mode_metadata(&m);
    bytes.pop();
    assert!(decode_edit_mode_metadata(&bytes).is_none());
}

#[test]
fn store_round_trip_through_repository() {
    let mut repo = Repository::new(branch("refs/heads/gitbutler/integration"));
    let m = EditModeMetadata {
        editee_commit_sha: CommitId(42),
        editee_branch: branch("refs/heads/topic"),
    };
    write_edit_mode_metadata(&mut repo, &m);
    let back = read_edit_mode_metadata(&repo).expect("present and well formed");
    assert_eq!(back.editee_commit_sha, CommitId(42));
    assert!(back.editee_branch == m.editee_branch);
}

#[test]
fn missing_store_reads_as_missing() {
    let repo = Repository::new(branch("refs/heads/gitbutler/integration"));
    assert!(matches!(read_edit_mode_metadata(&repo), Err(Error::MetadataMissing)));
}

#[test]
fn malformed_store_reads_as_malformed() {
    let mut repo = Repository::new(branch("refs/heads/gitbutler/integration"));
    repo.set_metadata_file(Some(b"editee_commit_sha = oops".to_vec()));
    assert!(matches!(read_edit_mode_metadata(&repo), Err(Error::MetadataMalformed)));
}

#[test]
fn invalid_branch_names_are_refused() {
    assert!(RefName::from_str("").is_none());
    assert!(RefName::from_str("refs/heads/has space").is_none());
    assert!(RefName::from_str("refs/heads/has\"quote").is_none());
    assert!(RefName::from_str("refs/heads/has^caret").is_none());
    assert!(RefName::from_str("refs/heads/ok-name_1.2/deep").is_some());
}

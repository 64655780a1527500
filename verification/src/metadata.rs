use crate::hex::{
    hex_digits, hex_digits_of, hex_value, is_hex_byte, lemma_hex_digits_shape,
    lemma_hex_digits_value, lemma_p16_16, parse_hex16,
};
use vstd::arithmetic::div_mod::lemma_small_mod;
use crate::error::Error;
use crate::ids::CommitId;
use crate::repo::{RepoView, Repository};
use crate::refname::{valid_ref_name, RefName};
use vstd::prelude::*;
use vstd::slice::slice_to_vec;
use vstd::string::StringSliceAdditionalSpecFns;

verus! {

/// The record persisted while an edit is in flight: which commit is being
/// edited, and which branch it was taken from (and must be written back to).
///
/// It exists on persistent storage exactly while the workspace is in edit
/// mode; its absence or unreadability is never a hard error on its own, it
/// only degrades the resolved mode.
pub struct EditModeMetadata {
    /// The commit being edited.
    pub editee_commit_sha: CommitId,
    /// The branch the editee was taken from.
    pub editee_branch: RefName,
}

/// The mathematical content of an [`EditModeMetadata`].
pub struct EditModeMetadataView {
    pub editee_commit_sha: CommitId,
    pub editee_branch: Seq<u8>,
}

impl View for EditModeMetadata {
    type V = EditModeMetadataView;

    open spec fn view(&self) -> EditModeMetadataView {
        EditModeMetadataView {
            editee_commit_sha: self.editee_commit_sha,
            editee_branch: self.editee_branch@,
        }
    }
}

impl EditModeMetadata {
    /// A copy of this record.
    pub fn duplicate(&self) -> (r: EditModeMetadata)
        ensures
            r@ == self@,
    {
        EditModeMetadata {
            editee_commit_sha: self.editee_commit_sha,
            editee_branch: self.editee_branch.duplicate(),
        }
    }
}

/// A well-formed metadata record: its branch is a valid reference name.
pub open spec fn metadata_wf(m: EditModeMetadataView) -> bool {
    valid_ref_name(m.editee_branch)
}

/// The bytes before the commit identifier in the persisted form.
pub open spec fn key_head() -> Seq<u8> {
    "editee_commit_sha = \"".spec_bytes()
}

/// The bytes between the commit identifier and the branch name.
pub open spec fn key_mid() -> Seq<u8> {
    "\"\neditee_branch = \"".spec_bytes()
}

/// The bytes after the branch name.
pub open spec fn key_tail() -> Seq<u8> {
    "\"\n".spec_bytes()
}

/// The persisted form of a metadata record: a two-line key/value document,
/// the commit identifier as sixteen lowercase hexadecimal digits and the
/// branch name quoted verbatim.
pub open spec fn spec_encode_metadata(m: EditModeMetadataView) -> Seq<u8> {
    key_head() + hex_digits(m.editee_commit_sha.0 as int, 16) + key_mid() + m.editee_branch
        + key_tail()
}

/// Reads a persisted document back, or nothing when the document does not
/// have exactly the persisted shape.
pub open spec fn spec_decode_metadata(s: Seq<u8>) -> Option<EditModeMetadataView> {
    let hl = key_head().len() as int;
    let ml = key_mid().len() as int;
    let tl = key_tail().len() as int;
    let branch_start = hl + 16 + ml;
    let branch_end = s.len() - tl;
    if s.len() >= hl + 16 + ml + tl && s.subrange(0, hl) == key_head() && (forall|i: int|
        hl <= i < hl + 16 ==> is_hex_byte(#[trigger] s[i])) && s.subrange(hl + 16, branch_start)
        == key_mid() && s.subrange(branch_end, s.len() as int) == key_tail() && valid_ref_name(
        s.subrange(branch_start, branch_end),
    ) {
        Some(
            EditModeMetadataView {
                editee_commit_sha: CommitId(hex_value(s.subrange(hl, hl + 16)) as u64),
                editee_branch: s.subrange(branch_start, branch_end),
            },
        )
    } else {
        None
    }
}

/// Writing a well-formed record and reading it back yields the record
/// unchanged.
pub proof fn lemma_metadata_round_trip(m: EditModeMetadataView)
    requires
        metadata_wf(m),
    ensures
        spec_decode_metadata(spec_encode_metadata(m)) == Some(m),
{
    let n = m.editee_commit_sha.0 as int;
    let digits = hex_digits(n, 16);
    lemma_hex_digits_shape(n, 16);
    let e = spec_encode_metadata(m);
    let hl = key_head().len() as int;
    let ml = key_mid().len() as int;
    let tl = key_tail().len() as int;
    let bl = m.editee_branch.len() as int;
    assert(e.len() == hl + 16 + ml + bl + tl);
    assert(bl >= 1);
    assert(e.subrange(0, hl) =~= key_head());
    assert(e.subrange(hl, hl + 16) =~= digits);
    assert(forall|i: int| hl <= i < hl + 16 ==> is_hex_byte(#[trigger] e[i])) by {
        assert(forall|i: int|
            hl <= i < hl + 16 ==> e[i] == digits[i - hl] && is_hex_byte(#[trigger] digits[i - hl]));
    }
    assert(e.subrange(hl + 16, hl + 16 + ml) =~= key_mid());
    assert(e.subrange(e.len() - tl, e.len() as int) =~= key_tail());
    assert(e.subrange(hl + 16 + ml, e.len() - tl) =~= m.editee_branch);
    lemma_hex_digits_value(n, 16);
    lemma_p16_16();
    lemma_small_mod(m.editee_commit_sha.0 as nat, 0x1_0000_0000_0000_0000);
    assert(hex_value(e.subrange(hl, hl + 16)) == n);
    assert(CommitId(hex_value(e.subrange(hl, hl + 16)) as u64) == m.editee_commit_sha);
}

/// Persists a metadata record, replacing any previous record. The store
/// write is atomic in the model: a reader sees either the old record or the
/// new one, never a partial write.
pub fn write_edit_mode_metadata(repo: &mut Repository, m: &EditModeMetadata)
    requires
        old(repo).wf(),
    ensures
        final (repo).wf(),
        final (repo)@ =~= (RepoView {
            metadata: Some(spec_encode_metadata(m@)),
            ..old(repo)@
        }),
{
    let bytes = encode_edit_mode_metadata(m);
    repo.set_metadata_file(Some(bytes));
}

/// Reads the persisted metadata record back, distinguishing an absent
/// record from a malformed one. Callers that only resolve the mode treat
/// both cases as "no edit in progress".
pub fn read_edit_mode_metadata(repo: &Repository) -> (r: Result<EditModeMetadata, Error>)
    ensures
        match r {
            Ok(m) => {
                &&& repo@.metadata is Some
                &&& spec_decode_metadata(repo@.metadata->Some_0) == Some(m@)
                &&& metadata_wf(m@)
            },
            Err(e) => match repo@.metadata {
                None => e == Error::MetadataMissing,
                Some(b) => spec_decode_metadata(b) is None && e == Error::MetadataMalformed,
            },
        },
{
    match repo.metadata_file() {
        None => Err(Error::MetadataMissing),
        Some(bytes) => match decode_edit_mode_metadata(bytes) {
            Some(m) => Ok(m),
            None => Err(Error::MetadataMalformed),
        },
    }
}

/// Appends all bytes of `add` to `out`.
pub fn append_bytes(out: &mut Vec<u8>, add: &Vec<u8>)
    ensures
        final (out)@ == old(out)@ + add@,
{
    let n = add.len();
    let mut i: usize = 0;
    while i < n
        invariant
            n == add@.len(),
            0 <= i <= n,
            out@ =~= old(out)@ + add@.take(i as int),
        decreases n - i,
    {
        out.push(add[i]);
        assert(out@ =~= old(out)@ + add@.take(i + 1int));
        i += 1;
    }
    assert(out@ =~= old(out)@ + add@);
}

/// The bytes of a string literal, as a vector.
fn str_bytes(s: &str) -> (r: Vec<u8>)
    ensures
        r@ == s.spec_bytes(),
{
    slice_to_vec(s.as_bytes())
}

/// Whether the bytes of `v` starting at `start` are exactly `pat`.
fn region_eq(v: &Vec<u8>, start: usize, pat: &Vec<u8>) -> (r: bool)
    requires
        start + pat@.len() <= v@.len(),
    ensures
        r == (v@.subrange(start as int, start as int + pat@.len() as int) == pat@),
{
    let n = v.len();
    let m = pat.len();
    let ghost w = v@.subrange(start as int, start as int + pat@.len() as int);
    let mut i: usize = 0;
    while i < m
        invariant
            n == v@.len(),
            m == pat@.len(),
            start + m <= n,
            w == v@.subrange(start as int, start as int + pat@.len() as int),
            0 <= i <= m,
            forall|j: int| 0 <= j < i ==> w[j] == pat@[j],
        decreases m - i,
    {
        if v[start + i] != pat[i] {
            assert(w[i as int] != pat@[i as int]);
            assert(!(w =~= pat@));
            return false;
        }
        i += 1;
    }
    assert(w =~= pat@);
    true
}

/// The bytes of `v` from `start` (inclusive) to `end` (exclusive).
fn sub_vec(v: &Vec<u8>, start: usize, end: usize) -> (r: Vec<u8>)
    requires
        start <= end,
        end <= v@.len(),
    ensures
        r@ == v@.subrange(start as int, end as int),
{
    let n = v.len();
    let mut out: Vec<u8> = Vec::new();
    let mut i: usize = start;
    while i < end
        invariant
            n == v@.len(),
            start <= i <= end <= n,
            out@ =~= v@.subrange(start as int, i as int),
        decreases end - i,
    {
        out.push(v[i]);
        assert(out@ =~= v@.subrange(start as int, i + 1int));
        i += 1;
    }
    out
}

/// Serializes a metadata record to its persisted two-line key/value form.
pub fn encode_edit_mode_metadata(m: &EditModeMetadata) -> (r: Vec<u8>)
    ensures
        r@ == spec_encode_metadata(m@),
{
    let mut out = str_bytes("editee_commit_sha = \"");
    let digits = hex_digits_of(m.editee_commit_sha.0, 16);
    append_bytes(&mut out, &digits);
    let mid = str_bytes("\"\neditee_branch = \"");
    append_bytes(&mut out, &mid);
    append_bytes(&mut out, m.editee_branch.bytes());
    let tail = str_bytes("\"\n");
    append_bytes(&mut out, &tail);
    assert(out@ =~= spec_encode_metadata(m@));
    out
}

/// Parses a persisted document, or reports nothing when it is malformed.
pub fn decode_edit_mode_metadata(bytes: &Vec<u8>) -> (r: Option<EditModeMetadata>)
    ensures
        match r {
            Some(m) => spec_decode_metadata(bytes@) == Some(m@) && metadata_wf(m@),
            None => spec_decode_metadata(bytes@) is None,
        },
{
    let head = str_bytes("editee_commit_sha = \"");
    let mid = str_bytes("\"\neditee_branch = \"");
    let tail = str_bytes("\"\n");
    let hl = head.len();
    let ml = mid.len();
    let tl = tail.len();
    let n = bytes.len();
    if n < tl {
        return None;
    }
    let branch_end = n - tl;
    if branch_end < hl {
        return None;
    }
    if branch_end - hl < 16 {
        return None;
    }
    if branch_end - hl - 16 < ml {
        return None;
    }
    let branch_start = hl + 16 + ml;
    assert(branch_start <= branch_end);
    if !region_eq(bytes, 0, &head) {
        return None;
    }
    let id_val = match parse_hex16(bytes, hl) {
        Some(v) => v,
        None => {
            return None;
        },
    };
    if !region_eq(bytes, hl + 16, &mid) {
        return None;
    }
    if !region_eq(bytes, branch_end, &tail) {
        return None;
    }
    let branch_bytes = sub_vec(bytes, branch_start, branch_end);
    if !crate::refname::ref_name_bytes_ok(&branch_bytes) {
        return None;
    }
    let m = EditModeMetadata {
        editee_commit_sha: CommitId(id_val),
        editee_branch: RefName::from_valid_bytes(branch_bytes),
    };
    proof {
        let s = bytes@;
        let hli = key_head().len() as int;
        let mli = key_mid().len() as int;
        let tli = key_tail().len() as int;
        let w = s.subrange(hli, hli + 16);
        assert(s.len() >= hli + 16 + mli + tli);
        assert(s.subrange(0, hli) == key_head());
        assert forall|i: int| hli <= i < hli + 16 implies is_hex_byte(#[trigger] s[i]) by {
            assert(s[i] == w[i - hli]);
            assert(is_hex_byte(w[i - hli]));
        }
        assert(s.subrange(hli + 16, hli + 16 + mli) == key_mid());
        assert(s.subrange(s.len() - tli, s.len() as int) == key_tail());
        assert(valid_ref_name(s.subrange(hli + 16 + mli, s.len() - tli)));
        assert(id_val as int == hex_value(w));
        assert(m@.editee_commit_sha == CommitId(hex_value(w) as u64));
        assert(m@.editee_branch == s.subrange(hli + 16 + mli, s.len() - tli));
        assert(spec_decode_metadata(bytes@) == Some(m@));
    }
    Some(m)
}

} // verus!

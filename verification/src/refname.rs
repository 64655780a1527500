use vstd::prelude::*;
use vstd::slice::slice_to_vec;
use vstd::string::StringSliceAdditionalSpecFns;

verus! {

/// A byte this library accepts inside a reference name: printable ASCII
/// without space, without the characters git forbids in reference names
/// (`~ ^ : ? * [ \`, control bytes, DEL) and without `"`, which the
/// persisted metadata format uses as its string delimiter.
pub open spec fn valid_ref_name_byte(b: u8) -> bool {
    &&& 0x21 <= b <= 0x7d
    &&& b != 0x22  // '"'
    &&& b != 0x2a  // '*'
    &&& b != 0x3a  // ':'
    &&& b != 0x3f  // '?'
    &&& b != 0x5b  // '['
    &&& b != 0x5c  // '\'
    &&& b != 0x5e  // '^'
}

/// A fully-qualified reference name the library accepts: non-empty, made of
/// acceptable bytes only.
pub open spec fn valid_ref_name(s: Seq<u8>) -> bool {
    &&& s.len() > 0
    &&& forall|i: int| 0 <= i < s.len() ==> valid_ref_name_byte(#[trigger] s[i])
}

/// A named, mutable pointer into the commit graph, held as the raw bytes of
/// its fully-qualified name (for example `refs/heads/gitbutler/integration`).
pub struct RefName {
    bytes: Vec<u8>,
}

impl View for RefName {
    type V = Seq<u8>;

    closed spec fn view(&self) -> Seq<u8> {
        self.bytes@
    }
}

impl PartialEq for RefName {
    fn eq(&self, other: &RefName) -> (r: bool) {
        bytes_eq(&self.bytes, &other.bytes)
    }
}

impl Eq for RefName {
}

impl vstd::std_specs::cmp::PartialEqSpecImpl for RefName {
    open spec fn obeys_eq_spec() -> bool {
        true
    }

    open spec fn eq_spec(&self, other: &RefName) -> bool {
        self@ == other@
    }
}

impl RefName {
    /// Whether this name meets the library's reference-name rules.
    pub open spec fn wf(&self) -> bool {
        valid_ref_name(self@)
    }

    /// Builds a reference name from a string, refusing any string that
    /// breaks the library's reference-name rules.
    pub fn from_str(s: &str) -> (r: Option<RefName>)
        ensures
            match r {
                Some(n) => n@ == s.spec_bytes() && valid_ref_name(s.spec_bytes()),
                None => !valid_ref_name(s.spec_bytes()),
            },
    {
        let bytes = slice_to_vec(s.as_bytes());
        if ref_name_bytes_ok(&bytes) {
            Some(RefName { bytes })
        } else {
            None
        }
    }

    /// Builds a reference name from raw bytes already known to be valid.
    pub(crate) fn from_valid_bytes(bytes: Vec<u8>) -> (r: RefName)
        requires
            valid_ref_name(bytes@),
        ensures
            r@ == bytes@,
            r.wf(),
    {
        RefName { bytes }
    }

    /// A copy of this name.
    pub fn duplicate(&self) -> (r: RefName)
        ensures
            r@ == self@,
    {
        RefName { bytes: copy_bytes(&self.bytes) }
    }

    /// The raw bytes of the name.
    pub fn bytes(&self) -> (r: &Vec<u8>)
        ensures
            r@ == self@,
    {
        &self.bytes
    }
}

/// Compares two byte vectors for content equality.
pub fn bytes_eq(a: &Vec<u8>, b: &Vec<u8>) -> (r: bool)
    ensures
        r == (a@ == b@),
{
    if a.len() != b.len() {
        assert(a@ !~= b@);
        return false;
    }
    let n = a.len();
    let mut i: usize = 0;
    while i < n
        invariant
            n == a@.len() == b@.len(),
            0 <= i <= n,
            forall|j: int| 0 <= j < i ==> a@[j] == b@[j],
        decreases n - i,
    {
        if a[i] != b[i] {
            assert(a@ !~= b@);
            return false;
        }
        i += 1;
    }
    assert(a@ =~= b@);
    true
}

/// A copy of a byte vector.
pub fn copy_bytes(v: &Vec<u8>) -> (r: Vec<u8>)
    ensures
        r@ == v@,
{
    let mut out: Vec<u8> = Vec::new();
    let n = v.len();
    let mut i: usize = 0;
    while i < n
        invariant
            n == v@.len(),
            0 <= i <= n,
            out@ =~= v@.take(i as int),
        decreases n - i,
    {
        out.push(v[i]);
        assert(out@ =~= v@.take(i + 1 as int));
        i += 1;
    }
    assert(out@ =~= v@);
    out
}

/// Whether a byte may stand in a reference name.
pub fn is_valid_ref_name_byte(b: u8) -> (r: bool)
    ensures
        r == valid_ref_name_byte(b),
{
    0x21 <= b && b <= 0x7d && b != 0x22 && b != 0x2a && b != 0x3a && b != 0x3f && b != 0x5b
        && b != 0x5c && b != 0x5e
}

/// Whether a byte vector holds a valid reference name.
pub fn ref_name_bytes_ok(v: &Vec<u8>) -> (r: bool)
    ensures
        r == valid_ref_name(v@),
{
    if v.len() == 0 {
        return false;
    }
    let n = v.len();
    let mut i: usize = 0;
    while i < n
        invariant
            n == v@.len(),
            0 <= i <= n,
            forall|j: int| 0 <= j < i ==> valid_ref_name_byte(#[trigger] v@[j]),
        decreases n - i,
    {
        if !is_valid_ref_name_byte(v[i]) {
            return false;
        }
        i += 1;
    }
    true
}

/// The name of the integration branch: HEAD's target while the workspace is
/// in its normal, aggregated mode.
pub open spec fn integration_ref_bytes() -> Seq<u8> {
    seq![
        114u8, 101, 102, 115, 47, 104, 101, 97, 100, 115, 47, 103, 105, 116, 98, 117, 116, 108,
        101, 114, 47, 105, 110, 116, 101, 103, 114, 97, 116, 105, 111, 110,
    ]
}

/// The name of the transient edit branch: HEAD's target while a single
/// commit is detached for editing.
pub open spec fn edit_ref_bytes() -> Seq<u8> {
    seq![
        114u8, 101, 102, 115, 47, 104, 101, 97, 100, 115, 47, 103, 105, 116, 98, 117, 116, 108,
        101, 114, 47, 101, 100, 105, 116,
    ]
}

/// The name of the reference holding the stash-like snapshot of uncommitted
/// work taken when edit mode is entered.
pub open spec fn edit_uncommited_files_ref_bytes() -> Seq<u8> {
    seq![
        114u8, 101, 102, 115, 47, 103, 105, 116, 98, 117, 116, 108, 101, 114, 47, 101, 100, 105,
        116, 95, 117, 110, 99, 111, 109, 109, 105, 116, 101, 100, 95, 102, 105, 108, 101, 115,
    ]
}

/// The integration branch reference name as a value.
pub fn integration_branch_ref() -> (r: RefName)
    ensures
        r@ == integration_ref_bytes(),
{
    let bytes: Vec<u8> = vec![
        114u8, 101, 102, 115, 47, 104, 101, 97, 100, 115, 47, 103, 105, 116, 98, 117, 116, 108,
        101, 114, 47, 105, 110, 116, 101, 103, 114, 97, 116, 105, 111, 110,
    ];
    assert(bytes@ =~= integration_ref_bytes());
    RefName { bytes }
}

/// The edit branch reference name as a value.
pub fn edit_branch_ref() -> (r: RefName)
    ensures
        r@ == edit_ref_bytes(),
{
    let bytes: Vec<u8> = vec![
        114u8, 101, 102, 115, 47, 104, 101, 97, 100, 115, 47, 103, 105, 116, 98, 117, 116, 108,
        101, 114, 47, 101, 100, 105, 116,
    ];
    assert(bytes@ =~= edit_ref_bytes());
    RefName { bytes }
}

/// The uncommitted-snapshot reference name as a value.
pub fn edit_uncommited_files_ref() -> (r: RefName)
    ensures
        r@ == edit_uncommited_files_ref_bytes(),
{
    let bytes: Vec<u8> = vec![
        114u8, 101, 102, 115, 47, 103, 105, 116, 98, 117, 116, 108, 101, 114, 47, 101, 100, 105,
        116, 95, 117, 110, 99, 111, 109, 109, 105, 116, 101, 100, 95, 102, 105, 108, 101, 115,
    ];
    assert(bytes@ =~= edit_uncommited_files_ref_bytes());
    RefName { bytes }
}

/// The three well-known reference names are pairwise distinct (their lengths
/// already differ).
pub proof fn lemma_well_known_refs_distinct()
    ensures
        integration_ref_bytes() != edit_ref_bytes(),
        integration_ref_bytes() != edit_uncommited_files_ref_bytes(),
        edit_ref_bytes() != edit_uncommited_files_ref_bytes(),
{
    assert(integration_ref_bytes().len() == 32);
    assert(edit_ref_bytes().len() == 25);
    assert(edit_uncommited_files_ref_bytes().len() == 36);
}

} // verus!

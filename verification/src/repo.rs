use crate::error::Error;
use crate::ids::{CommitId, TreeId};
use crate::refname::{copy_bytes, RefName};
use vstd::prelude::*;

verus! {

/// The immutable payload a commit carries besides its place in the graph:
/// author, committer, message and opaque custom headers. A rewrite copies
/// this payload verbatim onto the new commit.
pub struct Provenance {
    pub author: Vec<u8>,
    pub committer: Vec<u8>,
    pub message: Vec<u8>,
    pub headers: Option<Vec<u8>>,
}

/// The mathematical content of a [`Provenance`].
pub struct ProvenanceView {
    pub author: Seq<u8>,
    pub committer: Seq<u8>,
    pub message: Seq<u8>,
    pub headers: Option<Seq<u8>>,
}

impl View for Provenance {
    type V = ProvenanceView;

    open spec fn view(&self) -> ProvenanceView {
        ProvenanceView {
            author: self.author@,
            committer: self.committer@,
            message: self.message@,
            headers: match self.headers {
                Some(ref h) => Some(h@),
                None => None,
            },
        }
    }
}

impl Provenance {
    /// A verbatim copy of the payload.
    pub fn duplicate(&self) -> (r: Provenance)
        ensures
            r@ == self@,
    {
        Provenance {
            author: copy_bytes(&self.author),
            committer: copy_bytes(&self.committer),
            message: copy_bytes(&self.message),
            headers: match self.headers {
                Some(ref h) => Some(copy_bytes(h)),
                None => None,
            },
        }
    }
}

/// A commit object: its identifier, its first parent (the only parent this
/// core reads), its tree, and its provenance payload.
pub struct Commit {
    pub id: CommitId,
    pub parent: Option<CommitId>,
    pub tree: TreeId,
    pub provenance: Provenance,
}

/// The mathematical content of a commit, keyed elsewhere by its identifier.
pub struct CommitView {
    pub parent: Option<CommitId>,
    pub tree: TreeId,
    pub provenance: ProvenanceView,
}

impl View for Commit {
    type V = CommitView;

    open spec fn view(&self) -> CommitView {
        CommitView { parent: self.parent, tree: self.tree, provenance: self.provenance@ }
    }
}

pub(crate) struct RefEntry {
    pub(crate) name: RefName,
    pub(crate) target: CommitId,
}

/// The abstract state of a repository: the commit objects by identifier, the
/// references by name, HEAD's symbolic target, the working tree content, the
/// raw bytes of the persisted metadata file (absent when no file exists),
/// and the allocation frontiers for fresh commit and tree identifiers.
#[verifier::ext_equal]
pub struct RepoView {
    pub commits: Map<CommitId, CommitView>,
    pub refs: Map<Seq<u8>, CommitId>,
    pub head: Seq<u8>,
    pub worktree: TreeId,
    pub metadata: Option<Seq<u8>>,
    pub next_commit: int,
    pub next_tree: int,
}

/// Well-formedness of the abstract state: commit identifiers lie below the
/// allocation frontier, every parent exists and precedes its child, and
/// every reference targets an existing commit.
pub open spec fn repo_view_wf(rv: RepoView) -> bool {
    &&& forall|id: CommitId|
        rv.commits.dom().contains(id) ==> (#[trigger] id.0) < rv.next_commit
    &&& forall|id: CommitId|
        rv.commits.dom().contains(id) ==> match (#[trigger] rv.commits[id]).parent {
            Some(p) => rv.commits.dom().contains(p) && p.0 < id.0,
            None => true,
        }
    &&& forall|n: Seq<u8>|
        rv.refs.dom().contains(n) ==> rv.commits.dom().contains(#[trigger] rv.refs[n])
    &&& 0 <= rv.next_commit <= u64::MAX
    &&& 0 <= rv.next_tree <= u64::MAX
}

/// The commit map described by a vector of commit objects (later entries
/// win, though the representation keeps identifiers unique).
pub open spec fn commits_view(s: Seq<Commit>) -> Map<CommitId, CommitView>
    decreases s.len(),
{
    if s.len() == 0 {
        Map::empty()
    } else {
        commits_view(s.drop_last()).insert(s.last().id, s.last()@)
    }
}

/// The reference map described by a vector of reference entries.
pub(crate) open spec fn refs_view(s: Seq<RefEntry>) -> Map<Seq<u8>, CommitId>
    decreases s.len(),
{
    if s.len() == 0 {
        Map::empty()
    } else {
        refs_view(s.drop_last()).insert(s.last().name@, s.last().target)
    }
}

/// A model of the repository a mode transition mutates. Everything the mode
/// machinery reads or writes is part of this state; everything else about a
/// real repository is outside the model.
pub struct Repository {
    pub(crate) commits: Vec<Commit>,
    pub(crate) refs: Vec<RefEntry>,
    pub(crate) head: RefName,
    pub(crate) worktree: TreeId,
    pub(crate) metadata_file: Option<Vec<u8>>,
    pub(crate) next_commit: u64,
    pub(crate) next_tree: u64,
}

impl View for Repository {
    type V = RepoView;

    closed spec fn view(&self) -> RepoView {
        RepoView {
            commits: commits_view(self.commits@),
            refs: refs_view(self.refs@),
            head: self.head@,
            worktree: self.worktree,
            metadata: match self.metadata_file {
                Some(ref v) => Some(v@),
                None => None,
            },
            next_commit: self.next_commit as int,
            next_tree: self.next_tree as int,
        }
    }
}

proof fn lemma_commits_view_push(s: Seq<Commit>, c: Commit)
    ensures
        commits_view(s.push(c)) == commits_view(s).insert(c.id, c@),
{
    assert(s.push(c).drop_last() =~= s);
    assert(s.push(c).last() == c);
}

proof fn lemma_refs_view_push(s: Seq<RefEntry>, e: RefEntry)
    ensures
        refs_view(s.push(e)) == refs_view(s).insert(e.name@, e.target),
{
    assert(s.push(e).drop_last() =~= s);
    assert(s.push(e).last() == e);
}

proof fn lemma_commits_view_get(s: Seq<Commit>, i: int)
    requires
        0 <= i < s.len(),
        forall|j: int| i < j < s.len() ==> s[j].id != s[i].id,
    ensures
        commits_view(s).dom().contains(s[i].id),
        commits_view(s)[s[i].id] == s[i]@,
    decreases s.len(),
{
    if i == s.len() - 1 {
    } else {
        let d = s.drop_last();
        assert(d[i] == s[i]);
        lemma_commits_view_get(d, i);
        assert(s.last().id != s[i].id);
    }
}

proof fn lemma_commits_view_absent(s: Seq<Commit>, id: CommitId)
    requires
        forall|j: int| 0 <= j < s.len() ==> s[j].id != id,
    ensures
        !commits_view(s).dom().contains(id),
    decreases s.len(),
{
    if s.len() > 0 {
        let d = s.drop_last();
        assert(forall|j: int| 0 <= j < d.len() ==> d[j] == s[j] && s[j].id != id);
        lemma_commits_view_absent(d, id);
    }
}

proof fn lemma_refs_view_get(s: Seq<RefEntry>, i: int)
    requires
        0 <= i < s.len(),
        forall|j: int| i < j < s.len() ==> s[j].name@ != s[i].name@,
    ensures
        refs_view(s).dom().contains(s[i].name@),
        refs_view(s)[s[i].name@] == s[i].target,
    decreases s.len(),
{
    if i == s.len() - 1 {
    } else {
        let d = s.drop_last();
        assert(d[i] == s[i]);
        lemma_refs_view_get(d, i);
        assert(s.last().name@ != s[i].name@);
    }
}

proof fn lemma_refs_view_absent(s: Seq<RefEntry>, n: Seq<u8>)
    requires
        forall|j: int| 0 <= j < s.len() ==> s[j].name@ != n,
    ensures
        !refs_view(s).dom().contains(n),
    decreases s.len(),
{
    if s.len() > 0 {
        let d = s.drop_last();
        assert(forall|j: int| 0 <= j < d.len() ==> d[j] == s[j] && s[j].name@ != n);
        lemma_refs_view_absent(d, n);
    }
}

proof fn lemma_commits_view_covers(s: Seq<Commit>)
    ensures
        forall|j: int|
            0 <= j < s.len() ==> commits_view(s).dom().contains((#[trigger] s[j]).id),
    decreases s.len(),
{
    if s.len() > 0 {
        let d = s.drop_last();
        lemma_commits_view_covers(d);
        assert(forall|j: int| 0 <= j < d.len() ==> d[j] == s[j]);
    }
}

proof fn lemma_refs_view_covers(s: Seq<RefEntry>)
    ensures
        forall|j: int|
            0 <= j < s.len() ==> refs_view(s).dom().contains((#[trigger] s[j]).name@),
    decreases s.len(),
{
    if s.len() > 0 {
        let d = s.drop_last();
        lemma_refs_view_covers(d);
        assert(forall|j: int| 0 <= j < d.len() ==> d[j] == s[j]);
    }
}

proof fn lemma_refs_view_update(s: Seq<RefEntry>, i: int, e: RefEntry)
    requires
        0 <= i < s.len(),
        s[i].name@ == e.name@,
        forall|a: int, b: int| 0 <= a < b < s.len() ==> s[a].name@ != s[b].name@,
    ensures
        refs_view(s.update(i, e)) =~= refs_view(s).insert(e.name@, e.target),
    decreases s.len(),
{
    let u = s.update(i, e);
    if i == s.len() - 1 {
        assert(u.drop_last() =~= s.drop_last());
        assert(u.last() == e);
    } else {
        let d = s.drop_last();
        assert(d[i] == s[i]);
        lemma_refs_view_update(d, i, e);
        assert(u.drop_last() =~= d.update(i, e));
        assert(u.last() == s.last());
        assert(s.last().name@ != e.name@);
        assert(refs_view(u) =~= refs_view(d.update(i, e)).insert(s.last().name@, s.last().target));
        assert(refs_view(d.update(i, e)).insert(s.last().name@, s.last().target) =~= refs_view(
            s,
        ).insert(e.name@, e.target));
    }
}

/// The position of the commit with identifier `id`, scanning newest entries
/// first so that the match agrees with the commit map.
pub(crate) fn commit_index(commits: &Vec<Commit>, id: CommitId) -> (r: Option<usize>)
    ensures
        match r {
            Some(i) => i < commits@.len() && commits@[i as int].id == id && commits_view(
                commits@,
            ).dom().contains(id) && commits_view(commits@)[id] == commits@[i as int]@,
            None => !commits_view(commits@).dom().contains(id),
        },
{
    let n = commits.len();
    let mut i: usize = n;
    while i > 0
        invariant
            n == commits@.len(),
            0 <= i <= n,
            forall|j: int| i <= j < n ==> commits@[j].id != id,
        decreases i,
    {
        i = i - 1;
        if commits[i].id == id {
            proof {
                lemma_commits_view_get(commits@, i as int);
            }
            return Some(i);
        }
    }
    proof {
        lemma_commits_view_absent(commits@, id);
    }
    None
}

/// The position of the reference named `n`, scanning newest entries first so
/// that the match agrees with the reference map.
pub(crate) fn ref_index(refs: &Vec<RefEntry>, name: &RefName) -> (r: Option<usize>)
    ensures
        match r {
            Some(i) => i < refs@.len() && refs@[i as int].name@ == name@ && refs_view(
                refs@,
            ).dom().contains(name@) && refs_view(refs@)[name@] == refs@[i as int].target,
            None => !refs_view(refs@).dom().contains(name@),
        },
{
    let n = refs.len();
    let mut i: usize = n;
    while i > 0
        invariant
            n == refs@.len(),
            0 <= i <= n,
            forall|j: int| i <= j < n ==> refs@[j].name@ != name@,
        decreases i,
    {
        i = i - 1;
        if &refs[i].name == name {
            proof {
                lemma_refs_view_get(refs@, i as int);
            }
            return Some(i);
        }
    }
    proof {
        lemma_refs_view_absent(refs@, name@);
    }
    None
}

impl Repository {
    /// Representation invariants of the concrete state: identifiers and
    /// names are stored without duplicates.
    pub closed spec fn inv(self) -> bool {
        &&& forall|a: int, b: int|
            0 <= a < b < self.commits@.len() ==> (#[trigger] self.commits@[a]).id
                != (#[trigger] self.commits@[b]).id
        &&& forall|a: int, b: int|
            0 <= a < b < self.refs@.len() ==> (#[trigger] self.refs@[a]).name@
                != (#[trigger] self.refs@[b]).name@
    }

    /// A well-formed repository: sound representation and a well-formed
    /// abstract state.
    pub open spec fn wf(self) -> bool {
        &&& self.inv()
        &&& repo_view_wf(self@)
    }

    /// An empty repository whose HEAD points at `head`: no commits, no
    /// references, an empty working tree, no persisted metadata.
    pub fn new(head: RefName) -> (r: Repository)
        ensures
            r.wf(),
            r@ =~= (RepoView {
                commits: Map::empty(),
                refs: Map::empty(),
                head: head@,
                worktree: TreeId(0),
                metadata: None,
                next_commit: 0,
                next_tree: 0,
            }),
    {
        let r = Repository {
            commits: Vec::new(),
            refs: Vec::new(),
            head,
            worktree: TreeId(0),
            metadata_file: None,
            next_commit: 0,
            next_tree: 0,
        };
        proof {
            assert(commits_view(r.commits@) =~= Map::empty());
            assert(refs_view(r.refs@) =~= Map::empty());
        }
        r
    }

    /// Appends a commit under a fresh identifier. Internal: the caller has
    /// already checked that the parent exists.
    pub(crate) fn push_commit(&mut self, parent: Option<CommitId>, tree: TreeId, prov: Provenance)
        -> (r: CommitId)
        requires
            old(self).wf(),
            old(self)@.next_commit < u64::MAX,
            match parent {
                Some(p) => old(self)@.commits.dom().contains(p),
                None => true,
            },
        ensures
            final (self).wf(),
            r == CommitId(old(self)@.next_commit as u64),
            final (self)@ =~= (RepoView {
                commits: old(self)@.commits.insert(
                    r,
                    CommitView { parent, tree, provenance: prov@ },
                ),
                next_commit: old(self)@.next_commit + 1,
                ..old(self)@
            }),
    {
        let id = CommitId(self.next_commit);
        let ghost prev = self.commits@;
        let c = Commit { id, parent, tree, provenance: prov };
        let ghost cg = c;
        self.commits.push(c);
        self.next_commit = self.next_commit + 1;
        proof {
            lemma_commits_view_push(prev, cg);
            lemma_commits_view_covers(prev);
            assert forall|j: int| 0 <= j < prev.len() implies (#[trigger] prev[j]).id != id by {
                assert(commits_view(prev).dom().contains(prev[j].id));
                assert(prev[j].id.0 < old(self)@.next_commit);
            }
            assert(self.commits@ =~= prev.push(cg));
            assert forall|a: int, b: int|
                0 <= a < b < self.commits@.len() implies (#[trigger] self.commits@[a]).id
                != (#[trigger] self.commits@[b]).id by {
                if b < prev.len() as int {
                    assert(prev[a].id != prev[b].id);
                } else {
                    assert(self.commits@[b] == cg);
                    assert(prev[a].id != id);
                }
            }
            assert(repo_view_wf(self@));
        }
        id
    }

    /// Allocates a fresh tree identifier, as materializing new content does.
    pub(crate) fn alloc_tree(&mut self) -> (r: TreeId)
        requires
            old(self).wf(),
            old(self)@.next_tree < u64::MAX,
        ensures
            final (self).wf(),
            r == TreeId(old(self)@.next_tree as u64),
            final (self)@ =~= (RepoView { next_tree: old(self)@.next_tree + 1, ..old(self)@ }),
    {
        let t = TreeId(self.next_tree);
        self.next_tree = self.next_tree + 1;
        t
    }

    /// Creates a commit whose parent, tree and provenance are given, under a
    /// fresh identifier, or reports that the named parent does not exist.
    pub fn create_commit(&mut self, parent: Option<CommitId>, tree: TreeId, prov: Provenance) -> (r:
        Result<CommitId, Error>)
        requires
            old(self).wf(),
            old(self)@.next_commit < u64::MAX,
        ensures
            final (self).wf(),
            match r {
                Ok(id) => {
                    &&& match parent {
                        Some(p) => old(self)@.commits.dom().contains(p),
                        None => true,
                    }
                    &&& id == CommitId(old(self)@.next_commit as u64)
                    &&& final (self)@ =~= (RepoView {
                        commits: old(self)@.commits.insert(
                            id,
                            CommitView { parent, tree, provenance: prov@ },
                        ),
                        next_commit: old(self)@.next_commit + 1,
                        ..old(self)@
                    })
                },
                Err(e) => {
                    &&& e == Error::CommitNotFound
                    &&& parent is Some
                    &&& !old(self)@.commits.dom().contains(parent->Some_0)
                    &&& final (self)@ == old(self)@
                },
            },
    {
        match parent {
            Some(p) => {
                if commit_index(&self.commits, p).is_none() {
                    return Err(Error::CommitNotFound);
                }
            },
            None => {},
        }
        Ok(self.push_commit(parent, tree, prov))
    }

    /// Points the reference named `name` at `target`, creating or force-
    /// updating it, or reports that the target commit does not exist.
    pub fn set_reference(&mut self, name: &RefName, target: CommitId) -> (r: Result<(), Error>)
        requires
            old(self).wf(),
        ensures
            final (self).wf(),
            match r {
                Ok(_) => {
                    &&& old(self)@.commits.dom().contains(target)
                    &&& final (self)@ =~= (RepoView {
                        refs: old(self)@.refs.insert(name@, target),
                        ..old(self)@
                    })
                },
                Err(e) => {
                    &&& e == Error::CommitNotFound
                    &&& !old(self)@.commits.dom().contains(target)
                    &&& final (self)@ == old(self)@
                },
            },
    {
        if commit_index(&self.commits, target).is_none() {
            return Err(Error::CommitNotFound);
        }
        self.set_ref_raw(name, target);
        Ok(())
    }

    /// Points the reference named `name` at `target`. Internal: the caller
    /// has already checked that the target exists.
    pub(crate) fn set_ref_raw(&mut self, name: &RefName, target: CommitId)
        requires
            old(self).wf(),
            old(self)@.commits.dom().contains(target),
        ensures
            final (self).wf(),
            final (self)@ =~= (RepoView {
                refs: old(self)@.refs.insert(name@, target),
                ..old(self)@
            }),
    {
        let entry = RefEntry { name: name.duplicate(), target };
        let ghost prev = self.refs@;
        let ghost eg = entry;
        match ref_index(&self.refs, name) {
            Some(i) => {
                proof {
                    lemma_refs_view_update(prev, i as int, eg);
                }
                self.refs[i] = entry;
                proof {
                    assert(self.inv()) by {
                        assert(forall|a: int, b: int|
                            0 <= a < b < self.refs@.len() ==> (#[trigger] self.refs@[a]).name@
                                != (#[trigger] self.refs@[b]).name@) by {
                            assert(forall|j: int|
                                0 <= j < prev.len() && j != i ==> (#[trigger] self.refs@[j]).name@
                                    == prev[j].name@);
                        }
                    }
                    assert(repo_view_wf(self@));
                }
            },
            None => {
                self.refs.push(entry);
                proof {
                    lemma_refs_view_push(prev, eg);
                    lemma_refs_view_covers(prev);
                    assert(forall|j: int|
                        0 <= j < prev.len() ==> (#[trigger] prev[j]).name@ != eg.name@);
                    assert(self.refs@ =~= prev.push(eg));
                    assert forall|a: int, b: int|
                        0 <= a < b < self.refs@.len() implies (#[trigger] self.refs@[a]).name@
                        != (#[trigger] self.refs@[b]).name@ by {
                        if b < prev.len() as int {
                            assert(prev[a].name@ != prev[b].name@);
                        } else {
                            assert(self.refs@[b] == eg);
                            assert(prev[a].name@ != eg.name@);
                        }
                    }
                    assert(repo_view_wf(self@));
                }
            },
        }
    }

    /// Resolves a reference name to the commit it points at.
    pub fn find_reference(&self, name: &RefName) -> (r: Option<CommitId>)
        ensures
            r == (if self@.refs.dom().contains(name@) {
                Some(self@.refs[name@])
            } else {
                Option::<CommitId>::None
            }),
    {
        match ref_index(&self.refs, name) {
            Some(i) => Some(self.refs[i].target),
            None => None,
        }
    }

    /// Looks a commit up by identifier.
    pub fn find_commit(&self, id: CommitId) -> (r: Option<&Commit>)
        ensures
            match r {
                Some(c) => self@.commits.dom().contains(id) && c.id == id && c@
                    == self@.commits[id],
                None => !self@.commits.dom().contains(id),
            },
    {
        match commit_index(&self.commits, id) {
            Some(i) => Some(&self.commits[i]),
            None => None,
        }
    }

    /// Re-points HEAD's symbolic target. The target name need not resolve;
    /// a dangling symbolic HEAD is legal.
    pub fn set_head(&mut self, name: &RefName)
        requires
            old(self).wf(),
        ensures
            final (self).wf(),
            final (self)@ =~= (RepoView { head: name@, ..old(self)@ }),
    {
        self.head = name.duplicate();
    }

    /// Replaces the working tree content, as checking files out or editing
    /// them does.
    pub fn set_worktree(&mut self, tree: TreeId)
        requires
            old(self).wf(),
        ensures
            final (self).wf(),
            final (self)@ =~= (RepoView { worktree: tree, ..old(self)@ }),
    {
        self.worktree = tree;
    }

    /// Replaces the raw persisted metadata file: `None` removes it, `Some`
    /// writes the given bytes (possibly bytes no reader accepts).
    pub fn set_metadata_file(&mut self, contents: Option<Vec<u8>>)
        requires
            old(self).wf(),
        ensures
            final (self).wf(),
            final (self)@ =~= (RepoView {
                metadata: match contents {
                    Some(v) => Some(v@),
                    None => None,
                },
                ..old(self)@
            }),
    {
        self.metadata_file = contents;
    }

    /// HEAD's symbolic target.
    pub fn head(&self) -> (r: &RefName)
        ensures
            r@ == self@.head,
    {
        &self.head
    }

    /// The current working tree content.
    pub fn worktree(&self) -> (r: TreeId)
        ensures
            r == self@.worktree,
    {
        self.worktree
    }

    /// The raw persisted metadata file, when one exists.
    pub fn metadata_file(&self) -> (r: &Option<Vec<u8>>)
        ensures
            match r {
                Some(v) => self@.metadata == Some(v@),
                None => self@.metadata is None,
            },
    {
        &self.metadata_file
    }
}

} // verus!

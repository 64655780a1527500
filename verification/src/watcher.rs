use vstd::prelude::*;

verus! {

/// The registry of projects whose working directories are being watched for
/// changes. The watching itself (file-system notification, locking, session
/// and delta tracking) happens outside this core; the registry records which
/// projects are under watch so that watchers are started and stopped
/// consistently.
pub struct Watcher {
    watched: Vec<u64>,
}

impl View for Watcher {
    type V = Seq<u64>;

    closed spec fn view(&self) -> Seq<u64> {
        self.watched@
    }
}

impl Watcher {
    /// A registry with no projects under watch.
    pub fn new() -> (r: Watcher)
        ensures
            r@ == Seq::<u64>::empty(),
    {
        Watcher { watched: Vec::new() }
    }

    /// Starts watching a project, identified by its project identifier. A
    /// project may be registered more than once; each registration stands
    /// on its own until the project is unwatched.
    pub fn watch(&mut self, project: u64)
        ensures
            final (self)@ == old(self)@.push(project),
    {
        self.watched.push(project);
    }

    /// Stops watching a project: every registration of it is removed, and
    /// the others keep their order.
    pub fn unwatch(&mut self, project: u64)
        ensures
            final (self)@ == old(self)@.filter(|p: u64| p != project),
    {
        let n = self.watched.len();
        let mut kept: Vec<u64> = Vec::new();
        let mut i: usize = 0;
        while i < n
            invariant
                n == self.watched@.len(),
                0 <= i <= n,
                self.watched@ == old(self)@,
                kept@ == self.watched@.take(i as int).filter(|p: u64| p != project),
            decreases n - i,
        {
            let ghost prefix = self.watched@.take(i as int);
            let v = self.watched[i];
            if v != project {
                kept.push(v);
            }
            proof {
                reveal_with_fuel(Seq::filter, 2);
                assert(self.watched@.take(i + 1int).drop_last() =~= prefix);
                assert(self.watched@.take(i + 1int).last() == v);
            }
            i += 1;
        }
        proof {
            assert(self.watched@.take(n as int) =~= self.watched@);
        }
        self.watched = kept;
    }

    /// Whether a project is currently under watch.
    pub fn is_watched(&self, project: u64) -> (r: bool)
        ensures
            r == self@.contains(project),
    {
        let n = self.watched.len();
        let mut i: usize = 0;
        while i < n
            invariant
                n == self.watched@.len(),
                0 <= i <= n,
                forall|j: int| 0 <= j < i ==> self.watched@[j] != project,
            decreases n - i,
        {
            if self.watched[i] == project {
                return true;
            }
            i += 1;
        }
        proof {
            assert(!self.watched@.contains(project));
        }
        false
    }
}

} // verus!

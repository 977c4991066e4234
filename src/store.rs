use vstd::prelude::*;

use crate::model::{Commit, CommitView};

verus! {

/// Why an insert into a [`CommitStore`] was refused.
#[derive(PartialEq, Eq, Structural, Debug, Clone, Copy)]
pub enum InsertError {
    /// A record with the same hash is already stored.
    DuplicateCommit,
}

/// Persisted commit records, keyed by hash: at most one record per hash.
pub struct CommitStore {
    commits: Vec<Commit>,
    contents: Ghost<Map<Seq<char>, CommitView>>,
}

impl View for CommitStore {
    type V = Map<Seq<char>, CommitView>;

    closed spec fn view(&self) -> Map<Seq<char>, CommitView> {
        self.contents@
    }
}

impl CommitStore {
    /// The records are those of the map, one per hash, each under its own hash.
    pub closed spec fn wf(&self) -> bool {
        &&& self.contents@.dom().finite()
        &&& self.contents@.dom().len() == self.commits@.len()
        &&& forall|i: int|
            0 <= i < self.commits@.len() ==> {
                &&& #[trigger] self.contents@.contains_key(self.commits@[i].sha@)
                &&& self.contents@[self.commits@[i].sha@] == self.commits@[i]@
            }
        &&& forall|h: Seq<char>|
            #[trigger] self.contents@.contains_key(h) ==> exists|i: int|
                0 <= i < self.commits@.len() && #[trigger] self.commits@[i].sha@ == h
        &&& forall|i: int, j: int|
            0 <= i < self.commits@.len() && 0 <= j < self.commits@.len() && i != j
                ==> #[trigger] self.commits@[i].sha@ != #[trigger] self.commits@[j].sha@
    }

    /// An empty store.
    pub fn new() -> (s: CommitStore)
        ensures
            s.wf(),
            s@ == Map::<Seq<char>, CommitView>::empty(),
    {
        CommitStore { commits: Vec::new(), contents: Ghost(Map::empty()) }
    }

    /// The number of stored records.
    pub fn len(&self) -> (n: usize)
        requires
            self.wf(),
        ensures
            n == self@.dom().len(),
    {
        self.commits.len()
    }

    /// The record stored under `sha`, if any.
    pub fn find_by_hash(&self, sha: &String) -> (r: Option<&Commit>)
        requires
            self.wf(),
        ensures
            r is Some <==> self@.contains_key(sha@),
            r is Some ==> r->0@ == self@[sha@],
    {
        let mut i: usize = 0;
        while i < self.commits.len()
            invariant
                self.wf(),
                0 <= i <= self.commits@.len(),
                forall|k: int| 0 <= k < i ==> self.commits@[k].sha@ != sha@,
            decreases self.commits@.len() - i,
        {
            if self.commits[i].sha == *sha {
                assert(self.contents@.contains_key(self.commits@[i as int].sha@));
                return Some(&self.commits[i]);
            }
            i = i + 1;
        }
        None
    }

    /// Stores `c` unless a record with its hash is already there.
    pub fn insert(&mut self, c: Commit) -> (r: Result<(), InsertError>)
        requires
            old(self).wf(),
        ensures
            final(self).wf(),
            r is Err <==> old(self)@.contains_key(c.sha@),
            r is Err ==> r == Err::<(), InsertError>(InsertError::DuplicateCommit)
                && final(self)@ == old(self)@,
            r is Ok ==> final(self)@ == old(self)@.insert(c.sha@, c@),
            r is Ok ==> final(self)@.dom().len() == old(self)@.dom().len() + 1,
    {
        if self.find_by_hash(&c.sha).is_some() {
            return Err(InsertError::DuplicateCommit);
        }
        let ghost key = c.sha@;
        let ghost value = c@;
        let ghost old_commits = self.commits@;
        self.contents = Ghost(self.contents@.insert(key, value));
        self.commits.push(c);
        assert forall|h: Seq<char>| #[trigger] self.contents@.contains_key(h) implies exists|i: int|
            0 <= i < self.commits@.len() && #[trigger] self.commits@[i].sha@ == h by {
            if h == key {
                assert(self.commits@[old_commits.len() as int].sha@ == h);
            } else {
                let i = choose|i: int| 0 <= i < old_commits.len() && #[trigger] old_commits[i].sha@ == h;
                assert(self.commits@[i] == old_commits[i]);
            }
        }
        Ok(())
    }
}

} // verus!

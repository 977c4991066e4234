use vstd::prelude::*;

verus! {

/// A commit as the remote hosting service reports it.
pub struct RemoteCommit {
    pub sha: String,
    pub author_name: String,
    pub author_email: String,
}

/// The mathematical content of a [`RemoteCommit`].
pub struct RemoteView {
    pub sha: Seq<char>,
    pub author_name: Seq<char>,
    pub author_email: Seq<char>,
}

impl View for RemoteCommit {
    type V = RemoteView;

    open spec fn view(&self) -> RemoteView {
        RemoteView { sha: self.sha@, author_name: self.author_name@, author_email: self.author_email@ }
    }
}

impl RemoteCommit {
    pub fn new(sha: String, author_name: String, author_email: String) -> (r: RemoteCommit)
        ensures
            r.sha == sha,
            r.author_name == author_name,
            r.author_email == author_email,
    {
        RemoteCommit { sha, author_name, author_email }
    }
}

/// A tracked repository.
pub struct Project {
    pub id: i32,
    pub name: String,
    /// The owner/repo slug under which the hosting service knows the project.
    pub github_name: String,
}

/// A named line of development of a project, to which commits are attributed.
pub struct Release {
    pub id: i32,
    pub project_id: i32,
    pub version: String,
}

/// A persisted commit record.
pub struct Commit {
    pub sha: String,
    pub author_name: String,
    pub author_email: String,
    pub release_id: i32,
}

/// The mathematical content of a [`Commit`].
pub struct CommitView {
    pub sha: Seq<char>,
    pub author_name: Seq<char>,
    pub author_email: Seq<char>,
    pub release_id: i32,
}

impl View for Commit {
    type V = CommitView;

    open spec fn view(&self) -> CommitView {
        CommitView {
            sha: self.sha@,
            author_name: self.author_name@,
            author_email: self.author_email@,
            release_id: self.release_id,
        }
    }
}

/// The record that ingesting remote commit `r` into release `release_id` creates.
pub open spec fn record_of(r: RemoteView, release_id: i32) -> CommitView {
    CommitView {
        sha: r.sha,
        author_name: r.author_name,
        author_email: r.author_email,
        release_id,
    }
}

/// The views of a sequence of remote commits.
pub open spec fn remote_views(s: Seq<RemoteCommit>) -> Seq<RemoteView> {
    s.map_values(|r: RemoteCommit| r@)
}

/// Builds the record for a remote commit that the store does not know yet,
/// attributed to `release`.
pub fn new_commit_for(remote: &RemoteCommit, release: &Release) -> (c: Commit)
    ensures
        c@ == record_of(remote@, release.id),
{
    Commit {
        sha: remote.sha.clone(),
        author_name: remote.author_name.clone(),
        author_email: remote.author_email.clone(),
        release_id: release.id,
    }
}

/// What to do with one remote commit, given whether the store already holds a
/// record with its hash: nothing when it does, else insert the returned record.
pub fn plan_ingest(remote: &RemoteCommit, found: bool, release: &Release) -> (r: Option<Commit>)
    ensures
        found ==> r is None,
        !found ==> r is Some && r->0@ == record_of(remote@, release.id),
{
    if found {
        None
    } else {
        Some(new_commit_for(remote, release))
    }
}

} // verus!

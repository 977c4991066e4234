use vstd::prelude::*;

use crate::laws::lemma_reconciled_keeps;
use crate::model::{remote_views, CommitView, Project, Release, RemoteCommit};
use crate::reconcile::{reconcile, reconciled, ReconcileReport};
use crate::store::CommitStore;

verus! {

/// Why the synchronisation of one project failed.
#[derive(PartialEq, Eq, Structural, Debug, Clone, Copy)]
pub enum SyncError {
    /// The remote commit list could not be fetched or read.
    FetchError,
    /// The project has no release under the ongoing label.
    ReleaseNotFound,
    /// The commit store failed on a lookup or an insert.
    StoreError,
}

/// `r` is the release of project `project_id` named `label`.
pub open spec fn is_ongoing(r: Release, project_id: i32, label: Seq<char>) -> bool {
    r.project_id == project_id && r.version@ == label
}

/// Some release of `releases` is the project's ongoing one.
pub open spec fn has_ongoing(releases: Seq<Release>, project_id: i32, label: Seq<char>) -> bool {
    exists|i: int| 0 <= i < releases.len() && is_ongoing(#[trigger] releases[i], project_id, label)
}

/// `i` is the first index of `releases` that holds the project's ongoing release.
pub open spec fn first_ongoing(releases: Seq<Release>, project_id: i32, label: Seq<char>, i: int) -> bool {
    &&& 0 <= i < releases.len()
    &&& is_ongoing(releases[i], project_id, label)
    &&& forall|k: int| 0 <= k < i ==> !is_ongoing(#[trigger] releases[k], project_id, label)
}

/// Finds the release of project `project_id` whose version is `label`; the
/// first one where several match.
pub fn resolve_ongoing_release<'a>(releases: &'a Vec<Release>, project_id: i32, label: &String) -> (r:
    Result<&'a Release, SyncError>)
    ensures
        r is Err <==> !has_ongoing(releases@, project_id, label@),
        r is Err ==> r == Err::<&Release, SyncError>(SyncError::ReleaseNotFound),
        r is Ok ==> exists|i: int| first_ongoing(releases@, project_id, label@, i) && releases@[i] == *r->Ok_0,
{
    let mut i: usize = 0;
    while i < releases.len()
        invariant
            0 <= i <= releases@.len(),
            forall|k: int| 0 <= k < i ==> !is_ongoing(#[trigger] releases@[k], project_id, label@),
        decreases releases@.len() - i,
    {
        let r = &releases[i];
        if r.project_id == project_id && r.version == *label {
            assert(first_ongoing(releases@, project_id, label@, i as int));
            return Ok(r);
        }
        i = i + 1;
    }
    Err(SyncError::ReleaseNotFound)
}

/// Every record of `before` is in `after`, unchanged.
pub open spec fn keeps_records(before: Map<Seq<char>, CommitView>, after: Map<Seq<char>, CommitView>) -> bool {
    forall|h: Seq<char>| #[trigger] before.contains_key(h) ==> after.contains_key(h) && after[h] == before[h]
}

/// Synchronises one project: resolves its ongoing release, then reconciles
/// the store with the fetched remote commits (`None` when the fetch failed).
/// A project without its release fails before the fetch result is looked at.
pub fn sync_project(
    project: &Project,
    releases: &Vec<Release>,
    label: &String,
    fetched: Option<&Vec<RemoteCommit>>,
    store: &mut CommitStore,
) -> (r: Result<ReconcileReport, SyncError>)
    requires
        old(store).wf(),
    ensures
        final(store).wf(),
        !has_ongoing(releases@, project.id, label@) ==> r == Err::<ReconcileReport, SyncError>(
            SyncError::ReleaseNotFound,
        ),
        has_ongoing(releases@, project.id, label@) && fetched is None ==> r == Err::<
            ReconcileReport,
            SyncError,
        >(SyncError::FetchError),
        r is Err ==> final(store)@ == old(store)@,
        has_ongoing(releases@, project.id, label@) && fetched is Some ==> r is Ok,
        r is Ok ==> fetched is Some && exists|i: int|
            first_ongoing(releases@, project.id, label@, i) && final(store)@ == reconciled(
                old(store)@,
                remote_views(fetched->0@),
                releases@[i].id,
            ),
        r is Ok ==> final(store)@.dom().len() == old(store)@.dom().len() + r->Ok_0.inserted,
        keeps_records(old(store)@, final(store)@),
{
    let release = match resolve_ongoing_release(releases, project.id, label) {
        Ok(rel) => rel,
        Err(e) => {
            return Err(e);
        },
    };
    match fetched {
        None => Err(SyncError::FetchError),
        Some(remote) => {
            let ghost start = store@;
            let report = reconcile(remote, release, store);
            proof {
                lemma_reconciled_keeps(start, remote_views(remote@), release.id);
            }
            Ok(report)
        },
    }
}

/// Synchronises each project in turn, with `fetched[k]` the fetch result of
/// `projects[k]`; a failure of one project does not stop the others.
pub fn sync_projects(
    projects: &Vec<Project>,
    releases: &Vec<Release>,
    label: &String,
    fetched: &Vec<Option<Vec<RemoteCommit>>>,
    store: &mut CommitStore,
) -> (r: Vec<Result<ReconcileReport, SyncError>>)
    requires
        old(store).wf(),
        fetched@.len() == projects@.len(),
    ensures
        final(store).wf(),
        keeps_records(old(store)@, final(store)@),
        r@.len() == projects@.len(),
        forall|k: int|
            0 <= k < projects@.len() ==> {
                &&& (r@[k] == Err::<ReconcileReport, SyncError>(SyncError::ReleaseNotFound)
                    <==> !has_ongoing(releases@, #[trigger] projects@[k].id, label@))
                &&& (r@[k] == Err::<ReconcileReport, SyncError>(SyncError::FetchError) <==> (
                has_ongoing(releases@, projects@[k].id, label@) && fetched@[k] is None))
                &&& (r@[k] is Ok <==> (has_ongoing(releases@, projects@[k].id, label@)
                    && fetched@[k] is Some))
            },
{
    let ghost start = store@;
    let mut out: Vec<Result<ReconcileReport, SyncError>> = Vec::new();
    let mut k: usize = 0;
    while k < projects.len()
        invariant
            store.wf(),
            keeps_records(start, store@),
            fetched@.len() == projects@.len(),
            0 <= k <= projects@.len(),
            out@.len() == k,
            forall|j: int|
                0 <= j < k ==> {
                    &&& (out@[j] == Err::<ReconcileReport, SyncError>(SyncError::ReleaseNotFound)
                        <==> !has_ongoing(releases@, #[trigger] projects@[j].id, label@))
                    &&& (out@[j] == Err::<ReconcileReport, SyncError>(SyncError::FetchError) <==> (
                    has_ongoing(releases@, projects@[j].id, label@) && fetched@[j] is None))
                    &&& (out@[j] is Ok <==> (has_ongoing(releases@, projects@[j].id, label@)
                        && fetched@[j] is Some))
                },
        decreases projects@.len() - k,
    {
        let remote = match &fetched[k] {
            Some(v) => Some(v),
            None => None,
        };
        let res = sync_project(&projects[k], releases, label, remote, store);
        out.push(res);
        k = k + 1;
    }
    out
}

} // verus!

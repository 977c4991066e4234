use vstd::prelude::*;

use crate::model::{plan_ingest, record_of, remote_views, CommitView, Release, RemoteCommit, RemoteView};
use crate::store::{CommitStore, InsertError};
use crate::sync::SyncError;

verus! {

/// The store after ingesting one remote commit: unchanged when its hash is
/// known, else with a new record attributed to `release_id`.
pub open spec fn ingest(m: Map<Seq<char>, CommitView>, r: RemoteView, release_id: i32) -> Map<
    Seq<char>,
    CommitView,
> {
    if m.contains_key(r.sha) {
        m
    } else {
        m.insert(r.sha, record_of(r, release_id))
    }
}

/// The store after ingesting the remote commits of `s` in order.
pub open spec fn reconciled(m: Map<Seq<char>, CommitView>, s: Seq<RemoteView>, release_id: i32) -> Map<
    Seq<char>,
    CommitView,
>
    decreases s.len(),
{
    if s.len() == 0 {
        m
    } else {
        ingest(reconciled(m, s.drop_last(), release_id), s.last(), release_id)
    }
}

/// The hashes that a remote fetch reported.
pub open spec fn remote_hashes(s: Seq<RemoteView>) -> Set<Seq<char>> {
    Set::new(|h: Seq<char>| exists|i: int| 0 <= i < s.len() && #[trigger] s[i].sha == h)
}

/// How one reconciliation went.
#[derive(PartialEq, Eq, Structural, Debug, Clone, Copy)]
pub struct ReconcileReport {
    /// Remote commits for which a new record was stored.
    pub inserted: usize,
    /// Remote commits whose hash the store already held.
    pub skipped: usize,
}

/// What became of one remote commit in a store.
#[derive(PartialEq, Eq, Structural, Debug, Clone, Copy)]
pub enum IngestOutcome {
    /// The lookup found a record with its hash.
    AlreadyStored,
    /// A new record was stored.
    Inserted,
    /// The insert met a record with the same hash, stored since the lookup.
    Duplicate,
    /// The lookup or the insert failed.
    Failed,
}

/// Counts the outcome of one remote commit into `report`. A duplicate counts as
/// already synchronised; a store failure ends the project's run.
pub fn tally(report: ReconcileReport, outcome: IngestOutcome) -> (r: Result<ReconcileReport, SyncError>)
    requires
        report.inserted + report.skipped < usize::MAX,
    ensures
        outcome == IngestOutcome::Failed ==> r == Err::<ReconcileReport, SyncError>(SyncError::StoreError),
        outcome == IngestOutcome::Inserted ==> r == Ok::<ReconcileReport, SyncError>(
            ReconcileReport { inserted: (report.inserted + 1) as usize, skipped: report.skipped },
        ),
        (outcome == IngestOutcome::AlreadyStored || outcome == IngestOutcome::Duplicate) ==> r == Ok::<
            ReconcileReport,
            SyncError,
        >(ReconcileReport { inserted: report.inserted, skipped: (report.skipped + 1) as usize }),
{
    match outcome {
        IngestOutcome::AlreadyStored | IngestOutcome::Duplicate => Ok(
            ReconcileReport { inserted: report.inserted, skipped: report.skipped + 1 },
        ),
        IngestOutcome::Inserted => Ok(ReconcileReport { inserted: report.inserted + 1, skipped: report.skipped }),
        IngestOutcome::Failed => Err(SyncError::StoreError),
    }
}

/// Records every commit of `remote` whose hash `store` does not hold yet,
/// attributed to `release`; known hashes are left alone.
pub fn reconcile(remote: &Vec<RemoteCommit>, release: &Release, store: &mut CommitStore) -> (r:
    ReconcileReport)
    requires
        old(store).wf(),
    ensures
        final(store).wf(),
        final(store)@ == reconciled(old(store)@, remote_views(remote@), release.id),
        final(store)@.dom().len() == old(store)@.dom().len() + r.inserted,
        r.inserted + r.skipped == remote@.len(),
{
    let ghost s = remote_views(remote@);
    let ghost start = store@;
    let mut report = ReconcileReport { inserted: 0, skipped: 0 };
    let mut i: usize = 0;
    while i < remote.len()
        invariant
            store.wf(),
            s == remote_views(remote@),
            0 <= i <= remote@.len(),
            report.inserted + report.skipped == i,
            store@ == reconciled(start, s.take(i as int), release.id),
            store@.dom().len() == start.dom().len() + report.inserted,
        decreases remote@.len() - i,
    {
        assert(s.take(i + 1).drop_last() =~= s.take(i as int));
        assert(s.take(i + 1).last() == remote@[i as int]@);
        let found = store.find_by_hash(&remote[i].sha).is_some();
        let outcome = match plan_ingest(&remote[i], found, release) {
            None => IngestOutcome::AlreadyStored,
            Some(c) => match store.insert(c) {
                Ok(()) => IngestOutcome::Inserted,
                Err(InsertError::DuplicateCommit) => IngestOutcome::Duplicate,
            },
        };
        assert(outcome != IngestOutcome::Duplicate);
        report = tally(report, outcome).unwrap();
        i = i + 1;
    }
    assert(s.take(remote@.len() as int) =~= s);
    report
}

} // verus!

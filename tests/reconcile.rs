use commit_sync::model::{new_commit_for, plan_ingest, Commit, Project, Release, RemoteCommit};
use commit_sync::reconcile::{reconcile, tally, IngestOutcome, ReconcileReport};
use commit_sync::store::{CommitStore, InsertError};
use commit_sync::sync::{resolve_ongoing_release, sync_project, sync_projects, SyncError};

fn remote(sha: &str, name: &str, email: &str) -> RemoteCommit {
    RemoteCommit::new(sha.to_string(), name.to_string(), email.to_string())
}

fn release(id: i32, project_id: i32, version: &str) -> Release {
    Release { id, project_id, version: version.to_string() }
}

fn project(id: i32, github_name: &str) -> Project {
    Project { id, name: github_name.to_string(), github_name: github_name.to_string() }
}

fn commit(sha: &str, name: &str, email: &str, release_id: i32) -> Commit {
    Commit {
        sha: sha.to_string(),
        author_name: name.to_string(),
        author_email: email.to_string(),
        release_id,
    }
}

fn stored(store: &CommitStore, sha: &str) -> Option<(String, String, String, i32)> {
    store
        .find_by_hash(&sha.to_string())
        .map(|c| (c.sha.clone(), c.author_name.clone(), c.author_email.clone(), c.release_id))
}

fn label() -> String {
    "master".to_string()
}

#[test]
fn new_commit_is_added_beside_known_one() {
    let mut store = CommitStore::new();
    assert!(store.insert(commit("abc123", "Old", "old@example.com", 1)).is_ok());
    let projects = vec![project(7, "org/repo")];
    let releases = vec![release(1, 3, "master"), release(9, 7, "1.0"), release(10, 7, "master")];
    let fetched = vec![remote("abc123", "Ann", "ann@example.com"), remote("def456", "Bob", "bob@example.com")];
    let r = sync_project(&projects[0], &releases, &label(), Some(&fetched), &mut store);
    assert_eq!(r, Ok(ReconcileReport { inserted: 1, skipped: 1 }));
    assert_eq!(store.len(), 2);
    assert_eq!(
        stored(&store, "abc123"),
        Some(("abc123".to_string(), "Old".to_string(), "old@example.com".to_string(), 1))
    );
    assert_eq!(
        stored(&store, "def456"),
        Some(("def456".to_string(), "Bob".to_string(), "bob@example.com".to_string(), 10))
    );
}

#[test]
fn missing_release_fails_only_its_project() {
    let mut store = CommitStore::new();
    let projects = vec![project(1, "org/missing"), project(2, "org/present")];
    let releases = vec![release(5, 2, "master"), release(6, 1, "0.9")];
    let fetched = vec![
        Some(vec![remote("aaa", "A", "a@example.com")]),
        Some(vec![remote("bbb", "B", "b@example.com")]),
    ];
    let r = sync_projects(&projects, &releases, &label(), &fetched, &mut store);
    assert_eq!(r.len(), 2);
    assert_eq!(r[0], Err(SyncError::ReleaseNotFound));
    assert_eq!(r[1], Ok(ReconcileReport { inserted: 1, skipped: 0 }));
    assert_eq!(store.len(), 1);
    assert!(stored(&store, "aaa").is_none());
    assert_eq!(stored(&store, "bbb").map(|c| c.3), Some(5));
}

#[test]
fn missing_release_is_reported_before_fetch_failure() {
    let mut store = CommitStore::new();
    let p = project(1, "org/missing");
    let r = sync_project(&p, &Vec::new(), &label(), None, &mut store);
    assert_eq!(r, Err(SyncError::ReleaseNotFound));
}

#[test]
fn fetch_failure_leaves_store_unchanged() {
    let mut store = CommitStore::new();
    assert!(store.insert(commit("abc", "A", "a@example.com", 4)).is_ok());
    let projects = vec![project(1, "org/down"), project(2, "org/up")];
    let releases = vec![release(4, 1, "master"), release(8, 2, "master")];
    let fetched = vec![None, Some(vec![remote("xyz", "X", "x@example.com")])];
    let r = sync_projects(&projects, &releases, &label(), &fetched, &mut store);
    assert_eq!(r[0], Err(SyncError::FetchError));
    assert_eq!(r[1], Ok(ReconcileReport { inserted: 1, skipped: 0 }));
    assert_eq!(store.len(), 2);
}

#[test]
fn empty_fetch_inserts_nothing() {
    let mut store = CommitStore::new();
    assert!(store.insert(commit("abc", "A", "a@example.com", 4)).is_ok());
    let r = reconcile(&Vec::new(), &release(4, 1, "master"), &mut store);
    assert_eq!(r, ReconcileReport { inserted: 0, skipped: 0 });
    assert_eq!(store.len(), 1);
}

#[test]
fn second_run_adds_nothing() {
    let mut store = CommitStore::new();
    let rel = release(3, 1, "master");
    let fetched = vec![
        remote("c1", "A", "a@example.com"),
        remote("c2", "B", "b@example.com"),
        remote("c3", "C", "c@example.com"),
    ];
    assert_eq!(reconcile(&fetched, &rel, &mut store), ReconcileReport { inserted: 3, skipped: 0 });
    assert_eq!(reconcile(&fetched, &rel, &mut store), ReconcileReport { inserted: 0, skipped: 3 });
    assert_eq!(store.len(), 3);
}

#[test]
fn store_ends_with_every_reported_hash() {
    let mut store = CommitStore::new();
    assert!(store.insert(commit("c2", "Kept", "kept@example.com", 1)).is_ok());
    let rel = release(2, 1, "master");
    let fetched = vec![
        remote("c1", "A", "a@example.com"),
        remote("c2", "B", "b@example.com"),
        remote("c3", "C", "c@example.com"),
    ];
    let r = reconcile(&fetched, &rel, &mut store);
    assert_eq!(r, ReconcileReport { inserted: 2, skipped: 1 });
    assert_eq!(store.len(), 3);
    assert_eq!(stored(&store, "c1").map(|c| c.3), Some(2));
    assert_eq!(stored(&store, "c3").map(|c| c.3), Some(2));
    assert_eq!(
        stored(&store, "c2"),
        Some(("c2".to_string(), "Kept".to_string(), "kept@example.com".to_string(), 1))
    );
    assert!(stored(&store, "c4").is_none());
}

#[test]
fn order_of_fetch_does_not_change_result() {
    let rel = release(2, 1, "master");
    let a = vec![
        remote("c1", "A", "a@example.com"),
        remote("c2", "B", "b@example.com"),
        remote("c3", "C", "c@example.com"),
    ];
    let b = vec![
        remote("c3", "C", "c@example.com"),
        remote("c1", "A", "a@example.com"),
        remote("c2", "B", "b@example.com"),
    ];
    let mut s1 = CommitStore::new();
    let mut s2 = CommitStore::new();
    reconcile(&a, &rel, &mut s1);
    reconcile(&b, &rel, &mut s2);
    assert_eq!(s1.len(), s2.len());
    for sha in ["c1", "c2", "c3"] {
        assert_eq!(stored(&s1, sha), stored(&s2, sha));
    }
}

#[test]
fn repeated_hash_in_fetch_is_stored_once() {
    let mut store = CommitStore::new();
    let rel = release(2, 1, "master");
    let fetched = vec![remote("c1", "First", "f@example.com"), remote("c1", "Second", "s@example.com")];
    let r = reconcile(&fetched, &rel, &mut store);
    assert_eq!(r, ReconcileReport { inserted: 1, skipped: 1 });
    assert_eq!(stored(&store, "c1").map(|c| c.1), Some("First".to_string()));
}

#[test]
fn new_records_carry_the_given_release() {
    let mut store = CommitStore::new();
    let fetched = vec![remote("p1", "A", "a@example.com")];
    reconcile(&fetched, &release(11, 1, "master"), &mut store);
    let other = vec![remote("q1", "B", "b@example.com")];
    reconcile(&other, &release(22, 2, "master"), &mut store);
    assert_eq!(stored(&store, "p1").map(|c| c.3), Some(11));
    assert_eq!(stored(&store, "q1").map(|c| c.3), Some(22));
}

#[test]
fn duplicate_insert_is_refused() {
    let mut store = CommitStore::new();
    assert_eq!(store.insert(commit("h", "A", "a@example.com", 1)), Ok(()));
    assert_eq!(store.insert(commit("h", "B", "b@example.com", 2)), Err(InsertError::DuplicateCommit));
    assert_eq!(store.len(), 1);
    assert_eq!(stored(&store, "h").map(|c| c.1), Some("A".to_string()));
}

#[test]
fn release_is_found_by_project_and_label() {
    let releases = vec![release(1, 1, "1.0"), release(2, 2, "master"), release(3, 1, "master"), release(4, 1, "master")];
    assert_eq!(resolve_ongoing_release(&releases, 1, &label()).map(|r| r.id), Ok(3));
    assert_eq!(resolve_ongoing_release(&releases, 2, &label()).map(|r| r.id), Ok(2));
    assert_eq!(resolve_ongoing_release(&releases, 3, &label()).map(|r| r.id), Err(SyncError::ReleaseNotFound));
    assert_eq!(resolve_ongoing_release(&releases, 1, &"2.0".to_string()).map(|r| r.id), Err(SyncError::ReleaseNotFound));
}

#[test]
fn plan_skips_known_and_builds_new() {
    let rel = release(5, 1, "master");
    let rc = remote("abc", "Ann", "ann@example.com");
    assert!(plan_ingest(&rc, true, &rel).is_none());
    let c = plan_ingest(&rc, false, &rel).unwrap();
    assert_eq!(c.sha, "abc");
    assert_eq!(c.author_name, "Ann");
    assert_eq!(c.author_email, "ann@example.com");
    assert_eq!(c.release_id, 5);
    let d = new_commit_for(&rc, &rel);
    assert_eq!((d.sha, d.release_id), ("abc".to_string(), 5));
}

#[test]
fn tally_counts_each_outcome() {
    let start = ReconcileReport { inserted: 2, skipped: 3 };
    assert_eq!(tally(start, IngestOutcome::Inserted), Ok(ReconcileReport { inserted: 3, skipped: 3 }));
    assert_eq!(tally(start, IngestOutcome::AlreadyStored), Ok(ReconcileReport { inserted: 2, skipped: 4 }));
    assert_eq!(tally(start, IngestOutcome::Duplicate), Ok(ReconcileReport { inserted: 2, skipped: 4 }));
    assert_eq!(tally(start, IngestOutcome::Failed), Err(SyncError::StoreError));
}

//! What holds of every reconciliation, stated over [`reconciled`], the
//! store that [`crate::reconcile::reconcile`] leaves behind.
use vstd::prelude::*;

use crate::model::{record_of, CommitView, RemoteView};
use crate::reconcile::{ingest, reconciled, remote_hashes};

verus! {

/// The hashes of the store after reconciliation are those it had and those
/// that the remote reported.
pub proof fn lemma_reconciled_domain(m: Map<Seq<char>, CommitView>, s: Seq<RemoteView>, release_id: i32)
    ensures
        reconciled(m, s, release_id).dom() == m.dom().union(remote_hashes(s)),
    decreases s.len(),
{
    if s.len() == 0 {
        assert(remote_hashes(s) =~= Set::empty());
        assert(m.dom().union(remote_hashes(s)) =~= m.dom());
    } else {
        let p = s.drop_last();
        lemma_reconciled_domain(m, p, release_id);
        assert forall|h: Seq<char>| #[trigger] remote_hashes(s).contains(h) <==> (remote_hashes(p).contains(h) || h == s.last().sha) by {
            if remote_hashes(s).contains(h) {
                let i = choose|i: int| 0 <= i < s.len() && #[trigger] s[i].sha == h;
                if i < p.len() {
                    assert(p[i].sha == h);
                }
            }
            if remote_hashes(p).contains(h) {
                let i = choose|i: int| 0 <= i < p.len() && #[trigger] p[i].sha == h;
                assert(s[i].sha == h);
            }
            if h == s.last().sha {
                assert(s[s.len() - 1].sha == h);
            }
        }
        assert(reconciled(m, s, release_id).dom() =~= m.dom().union(remote_hashes(s)));
    }
}

/// Records that the store held before reconciliation are still there, unchanged.
pub proof fn lemma_reconciled_keeps(m: Map<Seq<char>, CommitView>, s: Seq<RemoteView>, release_id: i32)
    ensures
        forall|h: Seq<char>| #[trigger] m.contains_key(h) ==> reconciled(m, s, release_id).contains_key(h)
            && reconciled(m, s, release_id)[h] == m[h],
    decreases s.len(),
{
    if s.len() > 0 {
        lemma_reconciled_keeps(m, s.drop_last(), release_id);
    }
}

/// Each record that reconciliation added is built from a remote commit with
/// its hash, attributed to `release_id`.
pub proof fn lemma_reconciled_new(m: Map<Seq<char>, CommitView>, s: Seq<RemoteView>, release_id: i32)
    ensures
        forall|h: Seq<char>|
            #[trigger] reconciled(m, s, release_id).contains_key(h) && !m.contains_key(h) ==> exists|i: int|
                0 <= i < s.len() && s[i].sha == h && reconciled(m, s, release_id)[h] == record_of(
                    #[trigger] s[i],
                    release_id,
                ),
    decreases s.len(),
{
    if s.len() > 0 {
        let p = s.drop_last();
        lemma_reconciled_new(m, p, release_id);
        assert forall|h: Seq<char>|
            #[trigger] reconciled(m, s, release_id).contains_key(h) && !m.contains_key(h) implies exists|i: int|
                0 <= i < s.len() && s[i].sha == h && reconciled(m, s, release_id)[h] == record_of(
                    #[trigger] s[i],
                    release_id,
                ) by {
            let before = reconciled(m, p, release_id);
            if before.contains_key(h) {
                let i = choose|i: int|
                    0 <= i < p.len() && p[i].sha == h && before[h] == record_of(#[trigger] p[i], release_id);
                assert(s[i] == p[i]);
            } else {
                assert(s[s.len() - 1] == s.last());
            }
        }
    }
}

/// Reconciling against remote commits whose hashes are all known changes nothing.
pub proof fn lemma_reconciled_all_known(m: Map<Seq<char>, CommitView>, s: Seq<RemoteView>, release_id: i32)
    requires
        forall|i: int| 0 <= i < s.len() ==> m.contains_key(#[trigger] s[i].sha),
    ensures
        reconciled(m, s, release_id) == m,
    decreases s.len(),
{
    if s.len() > 0 {
        let p = s.drop_last();
        assert forall|i: int| 0 <= i < p.len() implies m.contains_key(#[trigger] p[i].sha) by {
            assert(s[i] == p[i]);
        }
        lemma_reconciled_all_known(m, p, release_id);
        assert(m.contains_key(s[s.len() - 1].sha));
    }
}

/// Running reconciliation a second time on unchanged remote data leaves the
/// store as the first run left it.
pub proof fn law_idempotent(m: Map<Seq<char>, CommitView>, s: Seq<RemoteView>, release_id: i32)
    ensures
        reconciled(reconciled(m, s, release_id), s, release_id) == reconciled(m, s, release_id),
{
    let once = reconciled(m, s, release_id);
    lemma_reconciled_domain(m, s, release_id);
    assert forall|i: int| 0 <= i < s.len() implies once.contains_key(#[trigger] s[i].sha) by {
        assert(remote_hashes(s).contains(s[i].sha));
    }
    lemma_reconciled_all_known(once, s, release_id);
}

/// When the store holds only hashes that the remote reported, reconciliation
/// leaves it holding exactly the reported hashes: the old records unchanged,
/// the added ones attributed to `release_id`.
pub proof fn law_complete(m: Map<Seq<char>, CommitView>, s: Seq<RemoteView>, release_id: i32)
    requires
        m.dom().subset_of(remote_hashes(s)),
    ensures
        reconciled(m, s, release_id).dom() == remote_hashes(s),
        forall|h: Seq<char>| #[trigger] m.contains_key(h) ==> reconciled(m, s, release_id)[h] == m[h],
        forall|h: Seq<char>|
            #[trigger] reconciled(m, s, release_id).contains_key(h) && !m.contains_key(h)
                ==> reconciled(m, s, release_id)[h].release_id == release_id,
{
    lemma_reconciled_domain(m, s, release_id);
    lemma_reconciled_keeps(m, s, release_id);
    lemma_reconciled_new(m, s, release_id);
    assert(m.dom().union(remote_hashes(s)) =~= remote_hashes(s));
}

/// Reconciliation adds no record whose hash the remote did not report.
pub proof fn law_no_spurious(m: Map<Seq<char>, CommitView>, s: Seq<RemoteView>, release_id: i32)
    ensures
        forall|h: Seq<char>|
            #[trigger] reconciled(m, s, release_id).contains_key(h) && !m.contains_key(h)
                ==> remote_hashes(s).contains(h),
{
    lemma_reconciled_domain(m, s, release_id);
}

/// Every record that reconciliation adds carries the release it was given,
/// and the author of a remote commit with its hash.
pub proof fn law_attribution(m: Map<Seq<char>, CommitView>, s: Seq<RemoteView>, release_id: i32)
    ensures
        forall|h: Seq<char>|
            #[trigger] reconciled(m, s, release_id).contains_key(h) && !m.contains_key(h) ==> {
                &&& reconciled(m, s, release_id)[h].release_id == release_id
                &&& reconciled(m, s, release_id)[h].sha == h
                &&& exists|i: int|
                    0 <= i < s.len() && s[i].sha == h
                        && reconciled(m, s, release_id)[h].author_name == (#[trigger] s[i]).author_name
                        && reconciled(m, s, release_id)[h].author_email == s[i].author_email
            },
{
    lemma_reconciled_new(m, s, release_id);
}

/// No two remote commits that share a hash differ in anything else.
pub open spec fn consistent(s: Seq<RemoteView>) -> bool {
    forall|i: int, j: int|
        0 <= i < s.len() && 0 <= j < s.len() && (#[trigger] s[i]).sha == (#[trigger] s[j]).sha ==> s[i] == s[j]
}

/// The order of the remote commits does not change which hashes end up stored,
/// nor the release of each; where remote commits that share a hash agree in
/// everything, it does not change the stored records at all.
pub proof fn law_order_independent(
    m: Map<Seq<char>, CommitView>,
    s1: Seq<RemoteView>,
    s2: Seq<RemoteView>,
    release_id: i32,
)
    requires
        s1.to_multiset() == s2.to_multiset(),
    ensures
        reconciled(m, s1, release_id).dom() == reconciled(m, s2, release_id).dom(),
        forall|h: Seq<char>|
            #[trigger] reconciled(m, s1, release_id).contains_key(h) ==> reconciled(m, s1, release_id)[h].release_id
                == reconciled(m, s2, release_id)[h].release_id,
        consistent(s1) ==> reconciled(m, s1, release_id) == reconciled(m, s2, release_id),
{
    s1.to_multiset_ensures();
    s2.to_multiset_ensures();
    let r1 = reconciled(m, s1, release_id);
    let r2 = reconciled(m, s2, release_id);
    assert forall|x: RemoteView| s1.contains(x) <==> s2.contains(x) by {
        assert(s1.to_multiset().count(x) == s2.to_multiset().count(x));
        assert(s1.contains(x) <==> s1.to_multiset().count(x) > 0);
        assert(s2.contains(x) <==> s2.to_multiset().count(x) > 0);
    }
    assert forall|h: Seq<char>| #[trigger] remote_hashes(s1).contains(h) <==> remote_hashes(s2).contains(h) by {
        if remote_hashes(s1).contains(h) {
            let i = choose|i: int| 0 <= i < s1.len() && #[trigger] s1[i].sha == h;
            assert(s1.contains(s1[i]));
            let j = choose|j: int| 0 <= j < s2.len() && s2[j] == s1[i];
            assert(s2[j].sha == h);
        }
        if remote_hashes(s2).contains(h) {
            let i = choose|i: int| 0 <= i < s2.len() && #[trigger] s2[i].sha == h;
            assert(s2.contains(s2[i]));
            let j = choose|j: int| 0 <= j < s1.len() && s1[j] == s2[i];
            assert(s1[j].sha == h);
        }
    }
    assert(remote_hashes(s1) =~= remote_hashes(s2));
    lemma_reconciled_domain(m, s1, release_id);
    lemma_reconciled_domain(m, s2, release_id);
    lemma_reconciled_keeps(m, s1, release_id);
    lemma_reconciled_keeps(m, s2, release_id);
    lemma_reconciled_new(m, s1, release_id);
    lemma_reconciled_new(m, s2, release_id);
    if consistent(s1) {
        assert forall|h: Seq<char>| #[trigger] r1.contains_key(h) implies r1[h] == r2[h] by {
            if !m.contains_key(h) {
                assert(r2.contains_key(h));
                let i = choose|i: int| 0 <= i < s1.len() && s1[i].sha == h && r1[h] == record_of(#[trigger] s1[i], release_id);
                let k = choose|k: int| 0 <= k < s2.len() && s2[k].sha == h && r2[h] == record_of(#[trigger] s2[k], release_id);
                assert(s2.contains(s2[k]));
                let l = choose|l: int| 0 <= l < s1.len() && s1[l] == s2[k];
                assert(s1[l] == s1[i]);
            }
        }
        assert(r1 =~= r2);
    }
}

/// Reconciliation adds one record for each reported hash that the store did
/// not hold, and no more.
pub proof fn law_added_count(m: Map<Seq<char>, CommitView>, s: Seq<RemoteView>, release_id: i32)
    requires
        m.dom().finite(),
    ensures
        reconciled(m, s, release_id).dom().finite(),
        reconciled(m, s, release_id).dom().len() == m.dom().len() + remote_hashes(s).difference(
            m.dom(),
        ).len(),
{
    broadcast use {vstd::seq_lib::group_seq_properties, vstd::seq_lib::seq_to_set_is_finite};

    lemma_reconciled_domain(m, s, release_id);
    let hashes = s.map_values(|r: RemoteView| r.sha);
    assert forall|h: Seq<char>| #[trigger] remote_hashes(s).contains(h) <==> hashes.to_set().contains(h) by {
        if remote_hashes(s).contains(h) {
            let i = choose|i: int| 0 <= i < s.len() && #[trigger] s[i].sha == h;
            assert(hashes[i] == h);
        }
        if hashes.to_set().contains(h) {
            let i = choose|i: int| 0 <= i < hashes.len() && hashes[i] == h;
            assert(s[i].sha == h);
        }
    }
    assert(remote_hashes(s) =~= hashes.to_set());
    let added = remote_hashes(s).difference(m.dom());
    assert(added.finite());
    assert(m.dom().union(remote_hashes(s)) =~= m.dom() + added);
    vstd::set_lib::lemma_set_disjoint_lens(m.dom(), added);
}

} // verus!

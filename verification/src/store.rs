//! What is written to a snapshot: the active displays without their names,
//! in the canonical order.

use crate::sorting::{
    canonical_sort, identities, is_sorted, lemma_canonical_sort_properties, sort_heads,
};
use crate::types::{head_views, Head, HeadView};
use vstd::prelude::*;

verus! {

/// The display without its name.
pub open spec fn nameless(head: HeadView) -> HeadView {
    HeadView { name: None, identity: head.identity, config: head.config }
}

/// The displays without their names, in the order given.
pub open spec fn without_names(heads: Seq<HeadView>) -> Seq<HeadView> {
    heads.map_values(|h: HeadView| nameless(h))
}

/// The records of the snapshot for the displays `heads`.
pub open spec fn snapshot_spec(heads: Seq<HeadView>) -> Seq<HeadView> {
    canonical_sort(without_names(heads))
}

/// A snapshot stands in the canonical order, holds no name, and describes
/// exactly the displays it was taken of: for each record there is a display
/// with its identity and its geometry, and the identities are the same ones,
/// each as often.
pub proof fn lemma_snapshot_properties(heads: Seq<HeadView>)
    ensures
        is_sorted(snapshot_spec(heads)),
        snapshot_spec(heads).len() == heads.len(),
        identities(snapshot_spec(heads)).to_multiset() == identities(heads).to_multiset(),
        forall|i: int|
            0 <= i < heads.len() ==> exists|k: int|
                0 <= k < heads.len() && #[trigger] snapshot_spec(heads)[i] == nameless(heads[k]),
{
    let bare = without_names(heads);
    let snapshot = snapshot_spec(heads);
    lemma_canonical_sort_properties(bare);
    assert(identities(bare) =~= identities(heads));
    assert forall|i: int| 0 <= i < heads.len() implies exists|k: int|
        0 <= k < heads.len() && #[trigger] snapshot[i] == nameless(heads[k]) by {
        vstd::seq_lib::to_multiset_contains(snapshot, snapshot[i]);
        vstd::seq_lib::to_multiset_contains(bare, snapshot[i]);
        assert(snapshot.contains(snapshot[i]));
        assert(bare.contains(snapshot[i]));
        let k = choose|k: int| 0 <= k < bare.len() && bare[k] == snapshot[i];
        assert(bare[k] == nameless(heads[k]));
    }
}

/// The records to save for the displays `heads`: the names are taken off
/// and the records stand in the canonical order.
pub fn snapshot_records(heads: &[Head]) -> (records: Vec<Head>)
    ensures
        head_views(records@) == snapshot_spec(head_views(heads@)),
        is_sorted(head_views(records@)),
        records@.len() == heads@.len(),
        forall|i: int| 0 <= i < records@.len() ==> (#[trigger] records@[i]).name is None,
{
    let mut records: Vec<Head> = Vec::new();
    let n = heads.len();
    let mut i: usize = 0;
    proof {
        assert(head_views(records@) =~= without_names(head_views(heads@.take(0))));
    }
    while i < n
        invariant
            i <= n,
            n == heads.len(),
            head_views(records@) == without_names(head_views(heads@.take(i as int))),
        decreases n - i,
    {
        let ghost before = records@;
        let mut record = heads[i].clone();
        record.name = None;
        records.push(record);
        proof {
            assert(heads@.take(i + 1) =~= heads@.take(i as int).push(heads@[i as int]));
            assert(head_views(records@) =~= head_views(before).push(nameless(heads@[i as int]@)));
            assert(head_views(records@) =~= without_names(head_views(heads@.take(i + 1))));
        }
        i += 1;
    }
    proof {
        assert(heads@.take(n as int) =~= heads@);
    }
    proof {
        lemma_snapshot_properties(head_views(heads@));
    }
    sort_heads(&mut records);
    proof {
        let snapshot = head_views(records@);
        assert forall|i: int| 0 <= i < records@.len() implies (#[trigger] records@[i]).name
            is None by {
            assert(snapshot[i] == records@[i]@);
            let k = choose|k: int|
                0 <= k < heads@.len() && snapshot[i] == nameless(head_views(heads@)[k]);
            assert(snapshot[i].name is None);
        }
    }
    records
}

} // verus!

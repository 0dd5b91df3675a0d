//! Sorting displays into the canonical order.
//!
//! The sort is stable: displays with equal identities keep the order in which
//! they were given. The sorted sequence of identities is the same for every
//! arrangement of one set of displays.

use crate::order::{identity_le, lemma_identity_le_total, lemma_identity_lt_connected};
use crate::types::{head_views, Head, HeadView, Identity};
use vstd::prelude::*;
use vstd::relations::sorted_by;
use vstd::seq_lib::{lemma_sorted_unique, to_multiset_build};

verus! {

/// The identities of a sequence of displays, in the same order.
pub open spec fn identities(heads: Seq<HeadView>) -> Seq<Identity> {
    heads.map_values(|h: HeadView| h.identity)
}

/// Whether the displays stand in the canonical order.
pub open spec fn is_sorted(heads: Seq<HeadView>) -> bool {
    forall|i: int, j: int|
        0 <= i < j < heads.len() ==> identity_le(
            #[trigger] heads[i].identity,
            #[trigger] heads[j].identity,
        )
}

/// Puts `head` into a sorted sequence, behind every display that stands at or
/// before it.
pub open spec fn insert_sorted(sorted: Seq<HeadView>, head: HeadView) -> Seq<HeadView>
    decreases sorted.len(),
{
    if sorted.len() == 0 || identity_le(sorted.last().identity, head.identity) {
        sorted.push(head)
    } else {
        insert_sorted(sorted.drop_last(), head).push(sorted.last())
    }
}

/// The displays in the canonical order, those with equal identities in the
/// order in which they were given.
pub open spec fn canonical_sort(heads: Seq<HeadView>) -> Seq<HeadView>
    decreases heads.len(),
{
    if heads.len() == 0 {
        heads
    } else {
        insert_sorted(canonical_sort(heads.drop_last()), heads.last())
    }
}

/// Where `insert_sorted` puts a display: at the one position `at` such that
/// the display before it stands at or before the new one and every display
/// from `at` on stands strictly behind it.
proof fn lemma_insert_sorted_at(sorted: Seq<HeadView>, head: HeadView, at: int)
    requires
        0 <= at <= sorted.len(),
        at > 0 ==> identity_le(sorted[at - 1].identity, head.identity),
        forall|k: int|
            at <= k < sorted.len() ==> !identity_le(#[trigger] sorted[k].identity, head.identity),
    ensures
        insert_sorted(sorted, head) == sorted.insert(at, head),
    decreases sorted.len() - at,
{
    if at == sorted.len() {
        assert(sorted.push(head) =~= sorted.insert(at, head));
    } else {
        let last = sorted.last();
        assert(!identity_le(sorted[sorted.len() - 1].identity, head.identity));
        lemma_insert_sorted_at(sorted.drop_last(), head, at);
        assert(sorted.drop_last().insert(at, head).push(last) =~= sorted.insert(at, head));
    }
}

/// `insert_sorted` adds one display and keeps the others.
proof fn lemma_insert_sorted_permutes(sorted: Seq<HeadView>, head: HeadView)
    ensures
        insert_sorted(sorted, head).len() == sorted.len() + 1,
        insert_sorted(sorted, head).to_multiset() == sorted.to_multiset().insert(head),
        identities(insert_sorted(sorted, head)).to_multiset() == identities(
            sorted,
        ).to_multiset().insert(head.identity),
    decreases sorted.len(),
{
    if sorted.len() == 0 || identity_le(sorted.last().identity, head.identity) {
        to_multiset_build(sorted, head);
        to_multiset_build(identities(sorted), head.identity);
        assert(identities(sorted.push(head)) =~= identities(sorted).push(head.identity));
    } else {
        let front = sorted.drop_last();
        let last = sorted.last();
        lemma_insert_sorted_permutes(front, head);
        let placed = insert_sorted(front, head);
        to_multiset_build(placed, last);
        to_multiset_build(front, last);
        assert(front.push(last) =~= sorted);
        assert(placed.push(last).to_multiset() =~= sorted.to_multiset().insert(head));
        to_multiset_build(identities(placed), last.identity);
        to_multiset_build(identities(front), last.identity);
        assert(identities(front).push(last.identity) =~= identities(sorted));
        assert(identities(placed.push(last)) =~= identities(placed).push(last.identity));
        assert(identities(placed.push(last)).to_multiset() =~= identities(
            sorted,
        ).to_multiset().insert(head.identity));
    }
}

/// `insert_sorted` keeps a sorted sequence sorted.
proof fn lemma_insert_sorted_keeps_order(sorted: Seq<HeadView>, head: HeadView)
    requires
        is_sorted(sorted),
    ensures
        is_sorted(insert_sorted(sorted, head)),
        forall|k: int|
            0 <= k < insert_sorted(sorted, head).len() ==> (#[trigger] insert_sorted(
                sorted,
                head,
            )[k] == head || sorted.contains(insert_sorted(sorted, head)[k])),
    decreases sorted.len(),
{
    let result = insert_sorted(sorted, head);
    if sorted.len() == 0 || identity_le(sorted.last().identity, head.identity) {
        lemma_identity_le_total();
        assert forall|i: int, j: int| 0 <= i < j < result.len() implies identity_le(
            #[trigger] result[i].identity,
            #[trigger] result[j].identity,
        ) by {
            if j == sorted.len() && i < sorted.len() - 1 {
                assert(identity_le(sorted[i].identity, sorted[sorted.len() - 1].identity));
                let le = |a: Identity, b: Identity| identity_le(a, b);
                assert(le(sorted[i].identity, sorted.last().identity));
                assert(le(sorted.last().identity, head.identity));
                assert(le(sorted[i].identity, head.identity));
            }
        }
        assert forall|k: int| 0 <= k < result.len() implies (#[trigger] result[k] == head
            || sorted.contains(result[k])) by {
            if k < sorted.len() {
                assert(sorted[k] == result[k]);
            }
        }
    } else {
        let front = sorted.drop_last();
        let last = sorted.last();
        assert forall|i: int, j: int| 0 <= i < j < front.len() implies identity_le(
            #[trigger] front[i].identity,
            #[trigger] front[j].identity,
        ) by {
            assert(front[i] == sorted[i] && front[j] == sorted[j]);
        }
        lemma_insert_sorted_keeps_order(front, head);
        lemma_insert_sorted_permutes(front, head);
        let placed = insert_sorted(front, head);
        lemma_identity_lt_connected(last.identity, head.identity);
        assert forall|i: int, j: int| 0 <= i < j < result.len() implies identity_le(
            #[trigger] result[i].identity,
            #[trigger] result[j].identity,
        ) by {
            if j == placed.len() {
                if placed[i] == head {
                } else {
                    assert(front.contains(placed[i]));
                    let k = choose|k: int| 0 <= k < front.len() && front[k] == placed[i];
                    assert(identity_le(sorted[k].identity, sorted[sorted.len() - 1].identity));
                }
            } else {
                assert(result[i] == placed[i] && result[j] == placed[j]);
            }
        }
        assert forall|k: int| 0 <= k < result.len() implies (#[trigger] result[k] == head
            || sorted.contains(result[k])) by {
            if k < placed.len() {
                assert(result[k] == placed[k]);
                if placed[k] != head {
                    let m = choose|m: int| 0 <= m < front.len() && front[m] == placed[k];
                    assert(sorted[m] == result[k]);
                }
            } else {
                assert(sorted[sorted.len() - 1] == result[k]);
            }
        }
    }
}

/// The canonical sort rearranges the displays it is given: none is added and
/// none is lost, and the result stands in the canonical order.
pub proof fn lemma_canonical_sort_properties(heads: Seq<HeadView>)
    ensures
        canonical_sort(heads).len() == heads.len(),
        canonical_sort(heads).to_multiset() == heads.to_multiset(),
        identities(canonical_sort(heads)).to_multiset() == identities(heads).to_multiset(),
        is_sorted(canonical_sort(heads)),
    decreases heads.len(),
{
    if heads.len() == 0 {
    } else {
        let front = heads.drop_last();
        lemma_canonical_sort_properties(front);
        lemma_insert_sorted_permutes(canonical_sort(front), heads.last());
        lemma_insert_sorted_keeps_order(canonical_sort(front), heads.last());
        to_multiset_build(front, heads.last());
        to_multiset_build(identities(front), heads.last().identity);
        assert(front.push(heads.last()) =~= heads);
        assert(identities(front).push(heads.last().identity) =~= identities(heads));
    }
}

/// Sorting a sequence that already stands in the canonical order changes
/// nothing.
pub proof fn lemma_canonical_sort_of_sorted(heads: Seq<HeadView>)
    requires
        is_sorted(heads),
    ensures
        canonical_sort(heads) == heads,
    decreases heads.len(),
{
    if heads.len() > 0 {
        let front = heads.drop_last();
        assert forall|i: int, j: int| 0 <= i < j < front.len() implies identity_le(
            #[trigger] front[i].identity,
            #[trigger] front[j].identity,
        ) by {
            assert(front[i] == heads[i] && front[j] == heads[j]);
        }
        lemma_canonical_sort_of_sorted(front);
        if front.len() > 0 {
            assert(identity_le(heads[front.len() - 1].identity, heads[front.len() as int].identity));
            assert(front.last() == heads[front.len() - 1]);
        }
        assert(front.push(heads.last()) =~= heads);
    }
}

/// The displays of `heads` that have the identity `id`, in the order given.
pub open spec fn with_identity(heads: Seq<HeadView>, id: Identity) -> Seq<HeadView> {
    heads.filter(|h: HeadView| h.identity == id)
}

/// `insert_sorted` puts a display behind the displays of its own identity and
/// leaves the displays of every identity in their order.
proof fn lemma_insert_sorted_stable(sorted: Seq<HeadView>, head: HeadView, id: Identity)
    ensures
        with_identity(insert_sorted(sorted, head), id) == if head.identity == id {
            with_identity(sorted, id).push(head)
        } else {
            with_identity(sorted, id)
        },
    decreases sorted.len(),
{
    let same = |h: HeadView| h.identity == id;
    if sorted.len() == 0 || identity_le(sorted.last().identity, head.identity) {
        sorted.lemma_filter_push(head, same);
    } else {
        let front = sorted.drop_last();
        let last = sorted.last();
        lemma_insert_sorted_stable(front, head, id);
        insert_sorted(front, head).lemma_filter_push(last, same);
        front.lemma_filter_push(last, same);
        assert(front.push(last) =~= sorted);
        assert(last.identity != head.identity);
    }
}

/// The canonical sort is stable: the displays of one identity come out in
/// the order in which they went in.
pub proof fn lemma_canonical_sort_stable(heads: Seq<HeadView>, id: Identity)
    ensures
        with_identity(canonical_sort(heads), id) == with_identity(heads, id),
    decreases heads.len(),
{
    let same = |h: HeadView| h.identity == id;
    if heads.len() > 0 {
        let front = heads.drop_last();
        lemma_canonical_sort_stable(front, id);
        lemma_insert_sorted_stable(canonical_sort(front), heads.last(), id);
        front.lemma_filter_push(heads.last(), same);
        assert(front.push(heads.last()) =~= heads);
    }
}

/// Two sorted sequences over the same identities list those identities in
/// the same order, whatever the names and geometries of their displays.
pub proof fn lemma_sorted_identities_unique(a: Seq<HeadView>, b: Seq<HeadView>)
    requires
        is_sorted(a),
        is_sorted(b),
        identities(a).to_multiset() == identities(b).to_multiset(),
    ensures
        identities(a) == identities(b),
{
    let le = |x: Identity, y: Identity| identity_le(x, y);
    lemma_identity_le_total();
    assert forall|i: int, j: int| 0 <= i < j < identities(a).len() implies #[trigger] le(
        identities(a)[i],
        identities(a)[j],
    ) by {
        assert(identity_le(a[i].identity, a[j].identity));
    }
    assert forall|i: int, j: int| 0 <= i < j < identities(b).len() implies #[trigger] le(
        identities(b)[i],
        identities(b)[j],
    ) by {
        assert(identity_le(b[i].identity, b[j].identity));
    }
    assert(sorted_by(identities(a), le));
    assert(sorted_by(identities(b), le));
    lemma_sorted_unique(identities(a), identities(b), le);
}

/// Sorts the displays into the canonical order, in place. Displays with equal
/// identities keep their order.
pub fn sort_heads(heads: &mut Vec<Head>)
    ensures
        head_views(final(heads)@) == canonical_sort(head_views(old(heads)@)),
        is_sorted(head_views(final(heads)@)),
        final(heads)@.len() == old(heads)@.len(),
        head_views(final(heads)@).to_multiset() == head_views(old(heads)@).to_multiset(),
{
    let n = heads.len();
    let mut i: usize = 0;
    proof {
        assert(head_views(heads@.take(0)) =~= canonical_sort(head_views(old(heads)@.take(0))));
    }
    while i < n
        invariant
            i <= n,
            heads.len() == n,
            old(heads).len() == n,
            head_views(heads@.take(i as int)) == canonical_sort(
                head_views(old(heads)@.take(i as int)),
            ),
            heads@.skip(i as int) == old(heads)@.skip(i as int),
        decreases n - i,
    {
        let ghost before = heads@;
        let ghost prefix = head_views(before.take(i as int));
        let ghost moved = before[i as int]@;
        let mut at: usize = i;
        while at > 0 && !heads[at - 1].at_or_before(&heads[i])
            invariant
                at <= i < n,
                heads.len() == n,
                heads@ == before,
                forall|k: int|
                    at <= k < i ==> !identity_le(
                        #[trigger] before[k].identity(),
                        before[i as int].identity(),
                    ),
            decreases at,
        {
            at -= 1;
        }
        if at < i {
            let head = heads.remove(i);
            heads.insert(at, head);
        }
        proof {
            assert(before.skip(i as int)[0] == old(heads)@.skip(i as int)[0]);
            assert(before[i as int] == old(heads)@[i as int]);
            assert forall|k: int| at <= k < prefix.len() implies !identity_le(
                #[trigger] prefix[k].identity,
                moved.identity,
            ) by {
                assert(prefix[k].identity == before[k].identity());
            }
            if at > 0 {
                assert(prefix[at - 1].identity == before[at - 1].identity());
            }
            lemma_insert_sorted_at(prefix, moved, at as int);
            let grown = old(heads)@.take(i + 1);
            assert(grown.drop_last() =~= old(heads)@.take(i as int));
            assert(head_views(grown).drop_last() =~= head_views(old(heads)@.take(i as int)));
            assert(head_views(grown).last() == moved);
            assert(head_views(heads@.take(i + 1)) =~= prefix.insert(at as int, moved));
            let rest = heads@.skip(i + 1);
            let rest_before = old(heads)@.skip(i + 1);
            assert forall|k: int| 0 <= k < rest.len() implies #[trigger] rest[k] == rest_before[k] by {
                assert(before.skip(i as int)[k + 1] == old(heads)@.skip(i as int)[k + 1]);
            }
            assert(rest =~= rest_before);
        }
        i += 1;
    }
    proof {
        assert(heads@.take(n as int) =~= heads@);
        assert(old(heads)@.take(n as int) =~= old(heads)@);
        lemma_canonical_sort_properties(head_views(old(heads)@));
    }
}

} // verus!

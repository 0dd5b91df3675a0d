//! The restore command: what to do with the result of reconciling, and the
//! laws that tie saving and restoring together.

use crate::reconcile::{
    disabled, load_head_config, load_head_config_spec, loaded_view, merged, rebind,
    reconcile_spec, Failure, LoadFailure, RestoreError,
};
use crate::sorting::{
    canonical_sort, identities, lemma_canonical_sort_of_sorted,
    lemma_canonical_sort_properties, lemma_sorted_identities_unique,
};
use crate::store::{lemma_snapshot_properties, nameless, snapshot_spec};
use crate::types::{head_views, text_views, Head, HeadView};
use vstd::prelude::*;

verus! {

/// The names of the displays that have one, in the order given.
pub open spec fn present_names(heads: Seq<HeadView>) -> Seq<Seq<char>>
    decreases heads.len(),
{
    if heads.len() == 0 {
        Seq::empty()
    } else {
        let front = present_names(heads.drop_last());
        match heads.last().name {
            Some(name) => front.push(name),
            None => front,
        }
    }
}

/// The names of the displays that have one, in the order given.
pub fn head_names(heads: &[Head]) -> (names: Vec<String>)
    ensures
        text_views(names@) == present_names(head_views(heads@)),
{
    let mut names: Vec<String> = Vec::new();
    let n = heads.len();
    let mut i: usize = 0;
    proof {
        assert(text_views(names@) =~= present_names(head_views(heads@.take(0))));
    }
    while i < n
        invariant
            i <= n,
            n == heads.len(),
            text_views(names@) == present_names(head_views(heads@.take(i as int))),
        decreases n - i,
    {
        proof {
            let grown = head_views(heads@.take(i + 1));
            assert(grown.drop_last() =~= head_views(heads@.take(i as int)));
            assert(grown.last() == heads@[i as int]@);
        }
        match &heads[i].name {
            Some(name) => {
                let ghost before = names@;
                names.push(name.clone());
                proof {
                    assert(text_views(names@) =~= text_views(before).push(name@));
                }
            },
            None => {},
        }
        i += 1;
    }
    proof {
        assert(heads@.take(n as int) =~= heads@);
    }
    names
}

/// What the restore command does next, as a mathematical value.
#[verifier::ext_equal]
pub enum PlanView {
    Apply { heads: Seq<HeadView> },
    Fallback { cause: Failure, active_head_names: Seq<Seq<char>>, inactive_head_names: Seq<Seq<char>> },
    Fail { cause: Failure },
}

/// What the restore command does next.
#[derive(Clone, Debug, PartialEq, Eq)]
pub enum RestorePlan {
    /// Hand the reconciled displays to the driver.
    Apply { heads: Vec<Head> },
    /// The restore was refused for `cause` and the generic layout was asked
    /// for: hand the names to the driver's fallback.
    Fallback { cause: RestoreError, active_head_names: Vec<String>, inactive_head_names: Vec<String> },
    /// The restore was refused for `cause`: end with this error.
    Fail { cause: RestoreError },
}

impl View for RestorePlan {
    type V = PlanView;

    open spec fn view(&self) -> PlanView {
        match *self {
            RestorePlan::Apply { heads } => PlanView::Apply { heads: head_views(heads@) },
            RestorePlan::Fallback { cause, active_head_names, inactive_head_names } => {
                PlanView::Fallback {
                    cause: cause@,
                    active_head_names: text_views(active_head_names@),
                    inactive_head_names: text_views(inactive_head_names@),
                }
            },
            RestorePlan::Fail { cause } => PlanView::Fail { cause: cause@ },
        }
    }
}

/// What the restore command does next: it applies what reconciling gave;
/// where reconciling failed it falls back to the generic layout if that was
/// asked for, and fails otherwise.
pub open spec fn plan_restore_spec(
    active: Seq<HeadView>,
    ignored: Seq<HeadView>,
    loaded: Result<Seq<HeadView>, Failure>,
    fallback_to_default: bool,
) -> PlanView {
    match load_head_config_spec(active, ignored, loaded) {
        Ok(heads) => PlanView::Apply { heads },
        Err(cause) => if fallback_to_default {
            PlanView::Fallback {
                cause,
                active_head_names: present_names(active),
                inactive_head_names: present_names(ignored),
            }
        } else {
            PlanView::Fail { cause }
        },
    }
}

/// Decides what the restore command does next.
///
/// `heads` are the active displays and `ignored_heads` the displays left
/// out, both in the order of enumeration; `loaded` is what reading the
/// snapshot gave. The generic layout is planned in the order of enumeration.
pub fn plan_restore(
    heads: &[Head],
    ignored_heads: &[Head],
    loaded: Result<Vec<Head>, LoadFailure>,
    fallback_to_default: bool,
) -> (plan: RestorePlan)
    ensures
        plan@ == plan_restore_spec(
            head_views(heads@),
            head_views(ignored_heads@),
            loaded_view(loaded),
            fallback_to_default,
        ),
{
    match load_head_config(heads, ignored_heads, loaded) {
        Ok(saved_heads) => RestorePlan::Apply { heads: saved_heads },
        Err(cause) => {
            if fallback_to_default {
                RestorePlan::Fallback {
                    cause,
                    active_head_names: head_names(heads),
                    inactive_head_names: head_names(ignored_heads),
                }
            } else {
                RestorePlan::Fail { cause }
            }
        },
    }
}

/// Nothing is applied unless the whole snapshot matched: a plan to apply is
/// made exactly when reconciling succeeded, and then it holds what
/// reconciling gave.
pub proof fn lemma_apply_only_on_match(
    active: Seq<HeadView>,
    ignored: Seq<HeadView>,
    loaded: Result<Seq<HeadView>, Failure>,
    fallback_to_default: bool,
)
    ensures
        plan_restore_spec(active, ignored, loaded, fallback_to_default) is Apply <==> (
        loaded is Ok && reconcile_spec(active, ignored, loaded->Ok_0) is Ok),
        loaded matches Ok(saved) && saved.len() != active.len() ==> !(plan_restore_spec(
            active,
            ignored,
            loaded,
            fallback_to_default,
        ) is Apply),
{
}

/// The generic layout depends on the connected displays alone. Whatever was
/// saved, and whether anything was, a plan to fall back names the active and
/// the ignored displays that have a name, in the order given: asking twice
/// gives the same plan for the driver.
pub proof fn lemma_fallback_ignores_snapshot(
    active: Seq<HeadView>,
    ignored: Seq<HeadView>,
    first: Result<Seq<HeadView>, Failure>,
    second: Result<Seq<HeadView>, Failure>,
)
    requires
        plan_restore_spec(active, ignored, first, true) is Fallback,
        plan_restore_spec(active, ignored, second, true) is Fallback,
    ensures
        plan_restore_spec(active, ignored, first, true)->active_head_names == present_names(
            active,
        ),
        plan_restore_spec(active, ignored, first, true)->inactive_head_names == present_names(
            ignored,
        ),
        plan_restore_spec(active, ignored, first, true)->active_head_names == plan_restore_spec(
            active,
            ignored,
            second,
            true,
        )->active_head_names,
        plan_restore_spec(active, ignored, first, true)->inactive_head_names == plan_restore_spec(
            active,
            ignored,
            second,
            true,
        )->inactive_head_names,
{
}

/// Saving and restoring fit together. Take a snapshot of the displays
/// `saved`. Later the displays `connected` are enumerated: the same
/// identities, each as often, under whatever names and in whatever order and
/// geometry. Then the snapshot is accepted, and the result lists the
/// connected displays in the canonical order, each under its present name
/// and with a geometry that was saved for a display of its identity; the
/// ignored displays follow, switched off.
pub proof fn lemma_save_restore_round_trip(
    saved: Seq<HeadView>,
    connected: Seq<HeadView>,
    ignored: Seq<HeadView>,
)
    requires
        identities(saved).to_multiset() == identities(connected).to_multiset(),
    ensures
        reconcile_spec(connected, ignored, snapshot_spec(saved)) == Ok::<Seq<HeadView>, Failure>(
            merged(canonical_sort(connected), snapshot_spec(saved), ignored),
        ),
        merged(canonical_sort(connected), snapshot_spec(saved), ignored).len() == connected.len()
            + ignored.len(),
        forall|i: int|
            0 <= i < connected.len() ==> {
                let restored = #[trigger] merged(
                    canonical_sort(connected),
                    snapshot_spec(saved),
                    ignored,
                )[i];
                &&& restored.name == canonical_sort(connected)[i].name
                &&& restored.identity == canonical_sort(connected)[i].identity
                &&& exists|k: int|
                    0 <= k < saved.len() && #[trigger] saved[k].identity == restored.identity
                        && saved[k].config == restored.config
            },
        forall|j: int|
            0 <= j < ignored.len() ==> #[trigger] merged(
                canonical_sort(connected),
                snapshot_spec(saved),
                ignored,
            )[connected.len() + j] == disabled(ignored[j]),
{
    let active = canonical_sort(connected);
    let snapshot = snapshot_spec(saved);
    let result = merged(active, snapshot, ignored);
    lemma_canonical_sort_properties(connected);
    lemma_snapshot_properties(saved);
    lemma_canonical_sort_of_sorted(snapshot);
    lemma_sorted_identities_unique(snapshot, active);
    vstd::seq_lib::to_multiset_len(identities(saved));
    vstd::seq_lib::to_multiset_len(identities(connected));
    assert(saved.len() == connected.len());
    assert forall|i: int| 0 <= i < connected.len() implies {
        let restored = #[trigger] result[i];
        &&& restored.name == active[i].name
        &&& restored.identity == active[i].identity
        &&& exists|k: int|
            0 <= k < saved.len() && #[trigger] saved[k].identity == restored.identity
                && saved[k].config == restored.config
    } by {
        assert(result[i] == rebind(snapshot[i], active[i]));
        assert(identities(snapshot)[i] == identities(active)[i]);
        let k = choose|k: int| 0 <= k < saved.len() && snapshot[i] == nameless(saved[k]);
        assert(saved[k].identity == result[i].identity && saved[k].config == result[i].config);
    }
    assert forall|j: int| 0 <= j < ignored.len() implies #[trigger] result[connected.len() + j]
        == disabled(ignored[j]) by {}
}

/// The ignored displays come out of a restore switched off, whatever the
/// snapshot holds: they stand behind the matched displays, each under its own
/// name and identity and without geometry.
pub proof fn lemma_ignored_come_out_disabled(
    active: Seq<HeadView>,
    ignored: Seq<HeadView>,
    saved: Seq<HeadView>,
)
    requires
        reconcile_spec(active, ignored, saved) is Ok,
    ensures
        reconcile_spec(active, ignored, saved)->Ok_0.len() == active.len() + ignored.len(),
        forall|j: int|
            0 <= j < ignored.len() ==> {
                let out = #[trigger] reconcile_spec(active, ignored, saved)->Ok_0[active.len() + j];
                &&& out.name == ignored[j].name
                &&& out.identity == ignored[j].identity
                &&& out.config is None
            },
{
    lemma_canonical_sort_properties(saved);
    lemma_canonical_sort_properties(active);
}

} // verus!

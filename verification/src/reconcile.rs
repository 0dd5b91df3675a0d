//! Binding a saved snapshot back onto the displays that are connected now.
//!
//! The geometry comes from the snapshot, the name to apply it to comes from
//! the present enumeration. A snapshot that does not describe exactly the
//! connected displays is refused as a whole: nothing is matched in part.

use crate::sorting::{canonical_sort, identities, sort_heads};
use crate::text::{natural_text, push_natural};
use crate::types::{copy_heads, head_views, DisplayIdentity, Head, HeadView, Identity};
use vstd::prelude::*;
use vstd::string::StringExecFns;

verus! {

/// Why no snapshot could be read for the connected displays.
#[derive(Clone, Debug, PartialEq, Eq)]
pub enum LoadFailure {
    /// Nothing was saved under the fingerprint of the connected displays.
    NotFound,
    /// A snapshot is there and cannot be decoded.
    Corrupt { detail: String },
}

/// Why a restore was refused, as a mathematical value.
#[verifier::ext_equal]
pub enum Failure {
    SnapshotNotFound,
    SnapshotCorrupt { detail: Seq<char> },
    LengthMismatch { snapshot_len: nat, connected_len: nat },
    IdentityMismatch { index: nat, saved: Identity, connected: Identity },
}

/// Why a restore was refused.
#[derive(Clone, Debug, PartialEq, Eq)]
pub enum RestoreError {
    /// Nothing was saved for the connected displays.
    SnapshotNotFound,
    /// The snapshot for the connected displays cannot be decoded.
    SnapshotCorrupt { detail: String },
    /// The snapshot describes `snapshot_len` displays and `connected_len` are
    /// connected.
    LengthMismatch { snapshot_len: usize, connected_len: usize },
    /// In the canonical order, the snapshot's display at `index` is `saved`
    /// and the connected one is `connected`.
    IdentityMismatch { index: usize, saved: DisplayIdentity, connected: DisplayIdentity },
}

impl View for RestoreError {
    type V = Failure;

    open spec fn view(&self) -> Failure {
        match *self {
            RestoreError::SnapshotNotFound => Failure::SnapshotNotFound,
            RestoreError::SnapshotCorrupt { detail } => Failure::SnapshotCorrupt {
                detail: detail@,
            },
            RestoreError::LengthMismatch { snapshot_len, connected_len } => {
                Failure::LengthMismatch {
                    snapshot_len: snapshot_len as nat,
                    connected_len: connected_len as nat,
                }
            },
            RestoreError::IdentityMismatch { index, saved, connected } => {
                Failure::IdentityMismatch {
                    index: index as nat,
                    saved: saved@,
                    connected: connected@,
                }
            },
        }
    }
}

/// An identity in one line: make, model and serial with a blank between.
pub open spec fn identity_text(id: Identity) -> Seq<char> {
    id.make + " "@ + id.model + " "@ + id.serial
}

/// The message for a refused restore of the snapshot at `path`.
pub open spec fn failure_text(failure: Failure, path: Seq<char>) -> Seq<char> {
    match failure {
        Failure::SnapshotNotFound => "Screen config "@ + path + " not found"@,
        Failure::SnapshotCorrupt { detail } => "Screen config "@ + path + " cannot be read: "@
            + detail,
        Failure::LengthMismatch { snapshot_len, connected_len } => "Screen config "@ + path
            + " does not match connected heads ("@ + natural_text(snapshot_len) + "!="@
            + natural_text(connected_len) + ")"@,
        Failure::IdentityMismatch { index, saved, connected } => "Screen config "@ + path
            + " does not match connected heads (idx "@ + natural_text(index) + ": saved "@
            + identity_text(saved) + ", connected "@ + identity_text(connected) + ")"@,
    }
}

/// Appends an identity in one line.
fn push_identity(out: &mut String, id: &DisplayIdentity)
    ensures
        final(out)@ == old(out)@ + identity_text(id@),
{
    out.append(id.make.as_str());
    out.append(" ");
    out.append(id.model.as_str());
    out.append(" ");
    out.append(id.serial.as_str());
    proof {
        assert(final(out)@ =~= old(out)@ + identity_text(id@));
    }
}

impl RestoreError {
    /// The message for this error, for the snapshot at `path`.
    pub fn describe(&self, path: &str) -> (text: String)
        ensures
            text@ == failure_text(self@, path@),
    {
        let mut out = String::from_str("Screen config ");
        out.append(path);
        match self {
            RestoreError::SnapshotNotFound => {
                out.append(" not found");
            },
            RestoreError::SnapshotCorrupt { detail } => {
                out.append(" cannot be read: ");
                out.append(detail.as_str());
            },
            RestoreError::LengthMismatch { snapshot_len, connected_len } => {
                out.append(" does not match connected heads (");
                push_natural(&mut out, *snapshot_len as u128);
                out.append("!=");
                push_natural(&mut out, *connected_len as u128);
                out.append(")");
            },
            RestoreError::IdentityMismatch { index, saved, connected } => {
                out.append(" does not match connected heads (idx ");
                push_natural(&mut out, *index as u128);
                out.append(": saved ");
                push_identity(&mut out, saved);
                out.append(", connected ");
                push_identity(&mut out, connected);
                out.append(")");
            },
        }
        out
    }
}

/// The view of the result of a restore.
pub open spec fn outcome_view(outcome: Result<Vec<Head>, RestoreError>) -> Result<
    Seq<HeadView>,
    Failure,
> {
    match outcome {
        Ok(heads) => Ok(head_views(heads@)),
        Err(error) => Err(error@),
    }
}

/// The saved display under the name that the connected display has now.
pub open spec fn rebind(saved: HeadView, connected: HeadView) -> HeadView {
    HeadView { name: connected.name, identity: saved.identity, config: saved.config }
}

/// The display, switched off.
pub open spec fn disabled(head: HeadView) -> HeadView {
    HeadView { name: head.name, identity: head.identity, config: None }
}

/// The displays to apply after a match: each saved display under the present
/// name of its counterpart, then every ignored display, switched off.
pub open spec fn merged(
    active: Seq<HeadView>,
    saved: Seq<HeadView>,
    ignored: Seq<HeadView>,
) -> Seq<HeadView> {
    Seq::new(saved.len(), |i: int| rebind(saved[i], active[i])) + ignored.map_values(
        |h: HeadView| disabled(h),
    )
}

/// Whether `index` is the first place at which the two sequences hold
/// different identities.
pub open spec fn is_first_mismatch(saved: Seq<HeadView>, active: Seq<HeadView>, index: int) -> bool {
    &&& 0 <= index < saved.len()
    &&& index < active.len()
    &&& saved[index].identity != active[index].identity
    &&& forall|k: int| 0 <= k < index ==> (#[trigger] saved[k]).identity == active[k].identity
}

/// The result of reconciling a snapshot with the active and the ignored
/// displays.
///
/// A snapshot of another length is a length mismatch. Otherwise the snapshot
/// and the active displays are each sorted into the canonical order and
/// compared place by place; the first place that differs is an identity
/// mismatch. If none differs the result is `merged`.
pub open spec fn reconcile_spec(
    active: Seq<HeadView>,
    ignored: Seq<HeadView>,
    saved: Seq<HeadView>,
) -> Result<Seq<HeadView>, Failure> {
    let connected = canonical_sort(active);
    let sorted = canonical_sort(saved);
    if saved.len() != active.len() {
        Err(Failure::LengthMismatch { snapshot_len: saved.len(), connected_len: active.len() })
    } else if identities(sorted) == identities(connected) {
        Ok(merged(connected, sorted, ignored))
    } else {
        let index = choose|i: int| is_first_mismatch(sorted, connected, i);
        Err(
            Failure::IdentityMismatch {
                index: index as nat,
                saved: sorted[index].identity,
                connected: connected[index].identity,
            },
        )
    }
}

/// The result of a restore, given what loading the snapshot gave.
pub open spec fn load_head_config_spec(
    active: Seq<HeadView>,
    ignored: Seq<HeadView>,
    loaded: Result<Seq<HeadView>, Failure>,
) -> Result<Seq<HeadView>, Failure> {
    match loaded {
        Ok(saved) => reconcile_spec(active, ignored, saved),
        Err(failure) => Err(failure),
    }
}

/// The view of what loading the snapshot gave.
pub open spec fn loaded_view(loaded: Result<Vec<Head>, LoadFailure>) -> Result<
    Seq<HeadView>,
    Failure,
> {
    match loaded {
        Ok(saved) => Ok(head_views(saved@)),
        Err(LoadFailure::NotFound) => Err(Failure::SnapshotNotFound),
        Err(LoadFailure::Corrupt { detail }) => Err(Failure::SnapshotCorrupt { detail: detail@ }),
    }
}

/// Two sequences of equal length differ in their identities exactly when
/// there is a first place at which they differ, and there is only one such
/// place.
proof fn lemma_first_mismatch(saved: Seq<HeadView>, active: Seq<HeadView>, index: int)
    requires
        saved.len() == active.len(),
        is_first_mismatch(saved, active, index),
    ensures
        identities(saved) != identities(active),
        (choose|i: int| is_first_mismatch(saved, active, i)) == index,
{
    assert(identities(saved)[index] == saved[index].identity);
    assert(identities(active)[index] == active[index].identity);
    let chosen = choose|i: int| is_first_mismatch(saved, active, i);
    if chosen < index {
        assert(saved[chosen].identity == active[chosen].identity);
    } else if index < chosen {
        assert(saved[index].identity == active[index].identity);
    }
}

/// Reconciles a snapshot with the connected displays.
///
/// `heads` are the active displays, `ignored_heads` the displays left out of
/// the matching, `saved_heads` the snapshot's records; each in any order. On
/// success the active displays come first, in the canonical order, each with
/// the geometry that the snapshot holds for it; the ignored displays follow,
/// switched off.
pub fn reconcile(heads: &[Head], ignored_heads: &[Head], saved_heads: Vec<Head>) -> (outcome:
    Result<Vec<Head>, RestoreError>)
    ensures
        outcome_view(outcome) == reconcile_spec(
            head_views(heads@),
            head_views(ignored_heads@),
            head_views(saved_heads@),
        ),
{
    let ghost active = canonical_sort(head_views(heads@));
    let ghost sorted = canonical_sort(head_views(saved_heads@));
    let mut restored = saved_heads;
    let n = heads.len();
    if restored.len() != n {
        return Err(
            RestoreError::LengthMismatch { snapshot_len: restored.len(), connected_len: n },
        );
    }
    sort_heads(&mut restored);
    let mut connected = copy_heads(heads);
    sort_heads(&mut connected);
    proof {
        crate::sorting::lemma_canonical_sort_properties(head_views(saved_heads@));
        crate::sorting::lemma_canonical_sort_properties(head_views(heads@));
    }
    let mut i: usize = 0;
    while i < n
        invariant
            i <= n,
            n == heads.len(),
            restored.len() == n,
            connected.len() == n,
            saved_heads.len() == n,
            sorted == canonical_sort(head_views(saved_heads@)),
            sorted.len() == n,
            active == canonical_sort(head_views(heads@)),
            active == head_views(connected@),
            forall|k: int| 0 <= k < i ==> (#[trigger] restored@[k])@ == rebind(sorted[k], active[k]),
            forall|k: int| i <= k < n ==> (#[trigger] restored@[k])@ == sorted[k],
            forall|k: int| 0 <= k < i ==> (#[trigger] sorted[k]).identity == active[k].identity,
        decreases n - i,
    {
        proof {
            assert(restored@[i as int]@ == sorted[i as int]);
            assert(active[i as int] == connected@[i as int]@);
        }
        if !restored[i].same_identity(&connected[i]) {
            let error = RestoreError::IdentityMismatch {
                index: i,
                saved: restored[i].display_identity(),
                connected: connected[i].display_identity(),
            };
            proof {
                lemma_first_mismatch(sorted, active, i as int);
                assert(error@ =~~= Failure::IdentityMismatch {
                    index: i as nat,
                    saved: sorted[i as int].identity,
                    connected: active[i as int].identity,
                });
            }
            return Err(error);
        }
        restored[i].name = match &connected[i].name {
            Some(name) => Some(name.clone()),
            None => None,
        };
        i += 1;
    }
    proof {
        assert(identities(sorted) =~= identities(active));
    }
    let m = ignored_heads.len();
    let mut j: usize = 0;
    proof {
        assert(head_views(restored@) =~= Seq::new(n as nat, |i: int| rebind(sorted[i], active[i]))
            + head_views(ignored_heads@.take(0)).map_values(|h: HeadView| disabled(h)));
    }
    while j < m
        invariant
            j <= m,
            m == ignored_heads.len(),
            sorted.len() == n,
            head_views(restored@) == Seq::new(n as nat, |i: int| rebind(sorted[i], active[i]))
                + head_views(ignored_heads@.take(j as int)).map_values(|h: HeadView| disabled(h)),
        decreases m - j,
    {
        let ghost before = restored@;
        let mut head = ignored_heads[j].clone();
        head.config = None;
        restored.push(head);
        proof {
            let done = ignored_heads@.take(j as int);
            let grown = ignored_heads@.take(j + 1);
            assert(grown =~= done.push(ignored_heads@[j as int]));
            assert(head_views(grown).map_values(|h: HeadView| disabled(h)) =~= head_views(
                done,
            ).map_values(|h: HeadView| disabled(h)).push(disabled(ignored_heads@[j as int]@)));
            assert(head_views(restored@) =~= head_views(before).push(head@));
        }
        j += 1;
    }
    proof {
        assert(ignored_heads@.take(m as int) =~= ignored_heads@);
    }
    Ok(restored)
}

/// Restores from what loading the snapshot gave: a load failure is handed on
/// as the cause, a loaded snapshot is reconciled.
pub fn load_head_config(
    heads: &[Head],
    ignored_heads: &[Head],
    loaded: Result<Vec<Head>, LoadFailure>,
) -> (outcome: Result<Vec<Head>, RestoreError>)
    ensures
        outcome_view(outcome) == load_head_config_spec(
            head_views(heads@),
            head_views(ignored_heads@),
            loaded_view(loaded),
        ),
{
    match loaded {
        Ok(saved_heads) => reconcile(heads, ignored_heads, saved_heads),
        Err(LoadFailure::NotFound) => Err(RestoreError::SnapshotNotFound),
        Err(LoadFailure::Corrupt { detail }) => Err(RestoreError::SnapshotCorrupt { detail }),
    }
}

} // verus!

//! Conflict-safe synchronization decisions: three-way reconciliation of a
//! base, local and remote revision, conflict resolution, and the allowed
//! changes of synchronization state.
use vstd::prelude::*;
use crate::common::SyncState;
use crate::text::str_eq;

verus! {

broadcast use vstd::string::group_string_axioms;

/// A content fingerprint (an ETag, a checksum, or size and time).
#[derive(Debug, Clone, PartialEq, Eq)]
pub struct Revision {
    pub fingerprint: String,
}

impl Revision {
    /// The revision with the given fingerprint.
    pub fn new(value: String) -> (r: Revision)
        ensures
            r.fingerprint@ == value@,
    {
        Revision { fingerprint: value }
    }
}

/// The fingerprint of an optional revision.
pub open spec fn revision_view(r: Option<Revision>) -> Option<Seq<char>> {
    match r {
        Some(rev) => Some(rev.fingerprint@),
        None => None,
    }
}

/// The last agreed revision and the current local and remote ones.
#[derive(Debug, Clone, PartialEq, Eq)]
pub struct ReconciliationInput {
    pub base: Option<Revision>,
    pub local: Option<Revision>,
    pub remote: Option<Revision>,
}

/// How a user chose to settle a conflict.
#[derive(Debug, Clone, Copy, PartialEq, Eq, Structural)]
pub enum ConflictResolution {
    KeepLocal,
    KeepRemote,
    KeepBoth,
    RenameConflict,
}

/// What synchronization should do with one item.
#[derive(Debug, Clone, Copy, PartialEq, Eq, Structural)]
pub enum SyncDecision {
    UpToDate,
    DownloadRemote,
    UploadLocal,
    DeleteLocal,
    DeleteRemote,
    Conflict,
    Resolved(ConflictResolution),
}

/// An allowed change of synchronization state.
#[derive(Debug, Clone, Copy, PartialEq, Eq, Structural)]
pub struct StateTransition {
    pub from: SyncState,
    pub to: SyncState,
}

/// Why a synchronization step was refused.
#[derive(Debug, Clone, Copy, PartialEq, Eq, Structural)]
pub enum SyncError {
    ConflictRequiresResolution,
    InvalidTransition { from: SyncState, to: SyncState },
}

/// The three-way decision for fingerprints `base`, `local` and `remote`.
pub open spec fn decide(base: Option<Seq<char>>, local: Option<Seq<char>>, remote: Option<Seq<char>>) -> SyncDecision {
    if local == remote {
        SyncDecision::UpToDate
    } else {
        match (base, local, remote) {
            (None, Some(_), None) => SyncDecision::UploadLocal,
            (None, None, Some(_)) => SyncDecision::DownloadRemote,
            (Some(b), Some(l), Some(r)) => {
                if l == b && r != b {
                    SyncDecision::DownloadRemote
                } else if r == b && l != b {
                    SyncDecision::UploadLocal
                } else {
                    SyncDecision::Conflict
                }
            },
            (Some(b), None, Some(r)) => if r == b {
                SyncDecision::DeleteLocal
            } else {
                SyncDecision::Conflict
            },
            (Some(b), Some(l), None) => if l == b {
                SyncDecision::DeleteRemote
            } else {
                SyncDecision::Conflict
            },
            _ => SyncDecision::Conflict,
        }
    }
}

/// The decision for an input.
pub open spec fn decide_input(input: ReconciliationInput) -> SyncDecision {
    decide(revision_view(input.base), revision_view(input.local), revision_view(input.remote))
}

/// Whether two optional revisions have the same fingerprint.
fn same_revision(a: &Option<Revision>, b: &Option<Revision>) -> (r: bool)
    ensures
        r == (revision_view(*a) == revision_view(*b)),
{
    match (a, b) {
        (Some(x), Some(y)) => str_eq(x.fingerprint.as_str(), y.fingerprint.as_str()),
        (None, None) => true,
        _ => false,
    }
}

/// Decides what to do with an item from its base, local and remote revisions.
pub fn reconcile(input: &ReconciliationInput) -> (d: SyncDecision)
    ensures
        d == decide_input(*input),
{
    if same_revision(&input.local, &input.remote) {
        return SyncDecision::UpToDate;
    }
    match (&input.base, &input.local, &input.remote) {
        (None, Some(_), None) => SyncDecision::UploadLocal,
        (None, None, Some(_)) => SyncDecision::DownloadRemote,
        (Some(_), Some(_), Some(_)) => {
            let local_is_base = same_revision(&input.local, &input.base);
            let remote_is_base = same_revision(&input.remote, &input.base);
            if local_is_base && !remote_is_base {
                SyncDecision::DownloadRemote
            } else if remote_is_base && !local_is_base {
                SyncDecision::UploadLocal
            } else {
                SyncDecision::Conflict
            }
        },
        (Some(_), None, Some(_)) => {
            if same_revision(&input.remote, &input.base) {
                SyncDecision::DeleteLocal
            } else {
                SyncDecision::Conflict
            }
        },
        (Some(_), Some(_), None) => {
            if same_revision(&input.local, &input.base) {
                SyncDecision::DeleteRemote
            } else {
                SyncDecision::Conflict
            }
        },
        _ => SyncDecision::Conflict,
    }
}

/// The decision after applying an optional resolution to a conflict.
pub open spec fn resolve_outcome(d: SyncDecision, resolution: Option<ConflictResolution>) -> Result<SyncDecision, SyncError> {
    if d != SyncDecision::Conflict {
        Ok(d)
    } else {
        match resolution {
            Some(r) => Ok(SyncDecision::Resolved(r)),
            None => Err(SyncError::ConflictRequiresResolution),
        }
    }
}

/// Decides what to do, settling a conflict with `resolution`; a conflict
/// without a resolution is refused.
pub fn resolve(input: &ReconciliationInput, resolution: Option<ConflictResolution>) -> (r: Result<SyncDecision, SyncError>)
    ensures
        r == resolve_outcome(decide_input(*input), resolution),
{
    let decision = reconcile(input);
    if decision != SyncDecision::Conflict {
        return Ok(decision);
    }
    match resolution {
        Some(choice) => Ok(SyncDecision::Resolved(choice)),
        None => Err(SyncError::ConflictRequiresResolution),
    }
}

/// The state changes that synchronization allows besides staying put.
pub open spec fn transition_allowed(from: SyncState, to: SyncState) -> bool {
    from == to || match (from, to) {
        (SyncState::Online, SyncState::Syncing)
        | (SyncState::Offline, SyncState::Online)
        | (SyncState::Syncing, SyncState::Downloading)
        | (SyncState::Syncing, SyncState::Uploading)
        | (SyncState::Downloading, SyncState::UpToDate)
        | (SyncState::Uploading, SyncState::UpToDate)
        | (SyncState::Syncing, SyncState::Conflict)
        | (SyncState::Syncing, SyncState::Error)
        | (SyncState::Error, SyncState::Syncing)
        | (SyncState::Conflict, SyncState::Syncing)
        | (SyncState::UpToDate, SyncState::Syncing)
        | (SyncState::Online, SyncState::Offline) => true,
        _ => false,
    }
}

/// Checks a change of synchronization state against the allowed changes.
pub fn transition(from: SyncState, to: SyncState) -> (r: Result<StateTransition, SyncError>)
    ensures
        transition_allowed(from, to) ==> r == Ok::<StateTransition, SyncError>(StateTransition { from, to }),
        !transition_allowed(from, to) ==> r == Err::<StateTransition, SyncError>(SyncError::InvalidTransition { from, to }),
{
    let valid = from == to || match (from, to) {
        (SyncState::Online, SyncState::Syncing)
        | (SyncState::Offline, SyncState::Online)
        | (SyncState::Syncing, SyncState::Downloading)
        | (SyncState::Syncing, SyncState::Uploading)
        | (SyncState::Downloading, SyncState::UpToDate)
        | (SyncState::Uploading, SyncState::UpToDate)
        | (SyncState::Syncing, SyncState::Conflict)
        | (SyncState::Syncing, SyncState::Error)
        | (SyncState::Error, SyncState::Syncing)
        | (SyncState::Conflict, SyncState::Syncing)
        | (SyncState::UpToDate, SyncState::Syncing)
        | (SyncState::Online, SyncState::Offline) => true,
        _ => false,
    };
    if valid {
        Ok(StateTransition { from, to })
    } else {
        Err(SyncError::InvalidTransition { from, to })
    }
}

/// The decision with the roles of the local and remote side exchanged.
pub open spec fn mirror_decision(d: SyncDecision) -> SyncDecision {
    match d {
        SyncDecision::DownloadRemote => SyncDecision::UploadLocal,
        SyncDecision::UploadLocal => SyncDecision::DownloadRemote,
        SyncDecision::DeleteLocal => SyncDecision::DeleteRemote,
        SyncDecision::DeleteRemote => SyncDecision::DeleteLocal,
        other => other,
    }
}

/// Reconciliation treats both sides alike: exchanging the local and remote
/// revisions exchanges the direction of the decision.
pub proof fn lemma_decide_is_symmetric(base: Option<Seq<char>>, local: Option<Seq<char>>, remote: Option<Seq<char>>)
    ensures
        decide(base, remote, local) == mirror_decision(decide(base, local, remote)),
{
}

/// Reconciliation never discards a change: a decision that takes the remote
/// state (download, or the remote side being gone) is made only when the local
/// side still matches the base, one that takes the local state (upload, or the
/// local side being gone) only when the remote side still matches the base;
/// when both sides changed differently it reports a conflict.
pub proof fn lemma_decide_keeps_changes(base: Option<Seq<char>>, local: Option<Seq<char>>, remote: Option<Seq<char>>)
    ensures
        (decide(base, local, remote) == SyncDecision::DownloadRemote || decide(base, local, remote) == SyncDecision::DeleteRemote) ==> local == base,
        (decide(base, local, remote) == SyncDecision::UploadLocal || decide(base, local, remote) == SyncDecision::DeleteLocal) ==> remote == base,
        decide(base, local, remote) == SyncDecision::DeleteLocal ==> local is None,
        decide(base, local, remote) == SyncDecision::DeleteRemote ==> remote is None,
        (local != base && remote != base && local != remote) ==> decide(base, local, remote) == SyncDecision::Conflict,
        decide(base, local, remote) == SyncDecision::UpToDate <==> local == remote,
{
}

/// A resolved decision is never a bare conflict, and a resolution is only
/// consulted when there is a conflict.
pub proof fn lemma_resolve_settles_conflicts(d: SyncDecision, resolution: Option<ConflictResolution>)
    ensures
        resolve_outcome(d, resolution) matches Ok(x) ==> x != SyncDecision::Conflict,
        resolve_outcome(d, resolution) is Err <==> (d == SyncDecision::Conflict && resolution is None),
        d != SyncDecision::Conflict ==> resolve_outcome(d, resolution) == Ok::<SyncDecision, SyncError>(d),
{
}

/// Staying in the same state is always allowed.
pub proof fn lemma_transition_reflexive(state: SyncState)
    ensures
        transition_allowed(state, state),
{
}

/// What reconciliation does, by which sides changed since the base: when
/// both sides agree nothing is done; when only the remote side changed, its
/// state is taken (downloaded, or the local copy removed when the remote one
/// is gone); when only the local side changed, its state is taken (uploaded,
/// or the remote copy removed when the local one is gone); and only when
/// both changed, differently, is it a conflict. With no base, an item that
/// exists on one side only is copied to the other, never a conflict.
pub proof fn lemma_decide_follows_the_changed_side(base: Option<Seq<char>>, local: Option<Seq<char>>, remote: Option<Seq<char>>)
    ensures
        local == remote ==> decide(base, local, remote) == SyncDecision::UpToDate,
        local != remote && local == base ==> decide(base, local, remote) == if remote is Some {
            SyncDecision::DownloadRemote
        } else {
            SyncDecision::DeleteRemote
        },
        local != remote && remote == base ==> decide(base, local, remote) == if local is Some {
            SyncDecision::UploadLocal
        } else {
            SyncDecision::DeleteLocal
        },
        local != remote && local != base && remote != base ==> decide(base, local, remote) == SyncDecision::Conflict,
        base is None && local is Some && remote is None ==> decide(base, local, remote) == SyncDecision::UploadLocal,
        base is None && local is None && remote is Some ==> decide(base, local, remote) == SyncDecision::DownloadRemote,
{
}

/// A change made on one side only never needs a resolution: settling it
/// succeeds whatever resolution is given (or none), with the decision that
/// follows the changed side.
pub proof fn lemma_one_sided_changes_resolve(base: Option<Seq<char>>, local: Option<Seq<char>>, remote: Option<Seq<char>>, resolution: Option<ConflictResolution>)
    requires
        local == base || remote == base,
    ensures
        resolve_outcome(decide(base, local, remote), resolution) == Ok::<SyncDecision, SyncError>(decide(base, local, remote)),
        decide(base, local, remote) != SyncDecision::Conflict,
{
}

} // verus!

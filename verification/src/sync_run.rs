//! The synchronization commands of the application: reading a user's
//! resolution, reporting a decision, and planning what one synchronization
//! run of an item does.
use vstd::prelude::*;
use crate::api::{SyncReconcileRequest, SyncReconcileResponse, SyncRunResponse};
use crate::sync::{decide, resolve, resolve_outcome, revision_view, ConflictResolution, ReconciliationInput, Revision, SyncDecision, SyncError};
use crate::text::str_eq;

verus! {

broadcast use vstd::string::group_string_axioms;

/// The characters of an optional string.
pub open spec fn opt_text(o: Option<String>) -> Option<Seq<char>> {
    match o {
        Some(s) => Some(s@),
        None => None,
    }
}

/// The resolution named by `value`, if the name is known.
pub open spec fn resolution_named(value: Seq<char>) -> Option<ConflictResolution> {
    if value == "keep_local"@ {
        Some(ConflictResolution::KeepLocal)
    } else if value == "keep_remote"@ {
        Some(ConflictResolution::KeepRemote)
    } else if value == "keep_both"@ {
        Some(ConflictResolution::KeepBoth)
    } else if value == "rename_conflict"@ {
        Some(ConflictResolution::RenameConflict)
    } else {
        None
    }
}

/// Reads an optional resolution name; an unknown name is refused.
pub fn parse_resolution(value: Option<&str>) -> (r: Result<Option<ConflictResolution>, String>)
    ensures
        match value {
            None => r == Ok::<Option<ConflictResolution>, String>(None),
            Some(v) => match resolution_named(v@) {
                Some(c) => r == Ok::<Option<ConflictResolution>, String>(Some(c)),
                None => r matches Err(m) && m@ == "unknown conflict resolution: "@ + v@,
            },
        },
{
    match value {
        None => Ok(None),
        Some(v) => {
            if str_eq(v, "keep_local") {
                Ok(Some(ConflictResolution::KeepLocal))
            } else if str_eq(v, "keep_remote") {
                Ok(Some(ConflictResolution::KeepRemote))
            } else if str_eq(v, "keep_both") {
                Ok(Some(ConflictResolution::KeepBoth))
            } else if str_eq(v, "rename_conflict") {
                Ok(Some(ConflictResolution::RenameConflict))
            } else {
                let mut m = String::from_str("unknown conflict resolution: ");
                m.append(v);
                Err(m)
            }
        },
    }
}

/// The name of a resolution as written in debugging output.
pub open spec fn resolution_label(r: ConflictResolution) -> Seq<char> {
    match r {
        ConflictResolution::KeepLocal => "KeepLocal"@,
        ConflictResolution::KeepRemote => "KeepRemote"@,
        ConflictResolution::KeepBoth => "KeepBoth"@,
        ConflictResolution::RenameConflict => "RenameConflict"@,
    }
}

/// The name of a decision as written in debugging output.
pub open spec fn decision_label(d: SyncDecision) -> Seq<char> {
    match d {
        SyncDecision::UpToDate => "UpToDate"@,
        SyncDecision::DownloadRemote => "DownloadRemote"@,
        SyncDecision::UploadLocal => "UploadLocal"@,
        SyncDecision::DeleteLocal => "DeleteLocal"@,
        SyncDecision::DeleteRemote => "DeleteRemote"@,
        SyncDecision::Conflict => "Conflict"@,
        SyncDecision::Resolved(r) => "Resolved("@ + resolution_label(r) + ")"@,
    }
}

/// The debugging name of a decision.
pub fn decision_name(d: SyncDecision) -> (s: String)
    ensures
        s@ == decision_label(d),
{
    match d {
        SyncDecision::UpToDate => String::from_str("UpToDate"),
        SyncDecision::DownloadRemote => String::from_str("DownloadRemote"),
        SyncDecision::UploadLocal => String::from_str("UploadLocal"),
        SyncDecision::DeleteLocal => String::from_str("DeleteLocal"),
        SyncDecision::DeleteRemote => String::from_str("DeleteRemote"),
        SyncDecision::Conflict => String::from_str("Conflict"),
        SyncDecision::Resolved(r) => {
            let mut s = String::from_str("Resolved(");
            let inner = match r {
                ConflictResolution::KeepLocal => "KeepLocal",
                ConflictResolution::KeepRemote => "KeepRemote",
                ConflictResolution::KeepBoth => "KeepBoth",
                ConflictResolution::RenameConflict => "RenameConflict",
            };
            s.append(inner);
            s.append(")");
            s
        },
    }
}

/// The message of a synchronization error.
pub open spec fn sync_error_text(e: SyncError) -> Seq<char> {
    match e {
        SyncError::ConflictRequiresResolution => "conflict requires an explicit resolution"@,
        SyncError::InvalidTransition { from, to } => "invalid synchronization state transition from "@
            + crate::sync_run::state_label(from) + " to "@ + crate::sync_run::state_label(to),
    }
}

/// The debugging name of a synchronization state.
pub open spec fn state_label(s: crate::common::SyncState) -> Seq<char> {
    match s {
        crate::common::SyncState::Online => "Online"@,
        crate::common::SyncState::Offline => "Offline"@,
        crate::common::SyncState::Syncing => "Syncing"@,
        crate::common::SyncState::Uploading => "Uploading"@,
        crate::common::SyncState::Downloading => "Downloading"@,
        crate::common::SyncState::UpToDate => "UpToDate"@,
        crate::common::SyncState::Error => "Error"@,
        crate::common::SyncState::Conflict => "Conflict"@,
        crate::common::SyncState::Ignored => "Ignored"@,
        crate::common::SyncState::Pinned => "Pinned"@,
        crate::common::SyncState::Placeholder => "Placeholder"@,
    }
}

/// The debugging name of a synchronization state.
pub fn state_name(s: crate::common::SyncState) -> (out: &'static str)
    ensures
        out@ == state_label(s),
{
    match s {
        crate::common::SyncState::Online => "Online",
        crate::common::SyncState::Offline => "Offline",
        crate::common::SyncState::Syncing => "Syncing",
        crate::common::SyncState::Uploading => "Uploading",
        crate::common::SyncState::Downloading => "Downloading",
        crate::common::SyncState::UpToDate => "UpToDate",
        crate::common::SyncState::Error => "Error",
        crate::common::SyncState::Conflict => "Conflict",
        crate::common::SyncState::Ignored => "Ignored",
        crate::common::SyncState::Pinned => "Pinned",
        crate::common::SyncState::Placeholder => "Placeholder",
    }
}

impl SyncError {
    /// The human-readable message of this error.
    pub fn message(&self) -> (out: String)
        ensures
            out@ == sync_error_text(*self),
    {
        match self {
            SyncError::ConflictRequiresResolution => String::from_str("conflict requires an explicit resolution"),
            SyncError::InvalidTransition { from, to } => {
                let mut out = String::from_str("invalid synchronization state transition from ");
                out.append(state_name(*from));
                out.append(" to ");
                out.append(state_name(*to));
                out
            },
        }
    }
}

/// A revision made from an optional fingerprint.
fn revision_of(value: &Option<String>) -> (r: Option<Revision>)
    ensures
        revision_view(r) == opt_text(*value),
{
    match value {
        Some(v) => Some(Revision::new(v.clone())),
        None => None,
    }
}

/// Answers a reconciliation request: the decision for its fingerprints, with
/// its resolution applied.
pub fn sync_reconcile(request: &SyncReconcileRequest) -> (r: Result<SyncReconcileResponse, String>)
    ensures
        ({
            let d = decide(opt_text(request.base), opt_text(request.local), opt_text(request.remote));
            match request.resolution {
                Some(v) if resolution_named(v@) is None => r matches Err(m) && m@ == "unknown conflict resolution: "@ + v@,
                _ => {
                    let choice = match request.resolution {
                        Some(v) => resolution_named(v@),
                        None => None,
                    };
                    match resolve_outcome(d, choice) {
                        Ok(x) => r matches Ok(resp) && resp.decision@ == decision_label(x) && !resp.conflict,
                        Err(e) => r matches Err(m) && m@ == sync_error_text(e),
                    }
                },
            }
        }),
{
    let input = ReconciliationInput {
        base: revision_of(&request.base),
        local: revision_of(&request.local),
        remote: revision_of(&request.remote),
    };
    let resolution = match &request.resolution {
        Some(v) => parse_resolution(Some(v.as_str())),
        None => parse_resolution(None),
    };
    let resolution = match resolution {
        Ok(c) => c,
        Err(m) => return Err(m),
    };
    match resolve(&input, resolution) {
        Ok(decision) => {
            let conflict = decision == SyncDecision::Conflict;
            Ok(SyncReconcileResponse { decision: decision_name(decision), conflict })
        },
        Err(e) => Err(e.message()),
    }
}

/// The transfer that one synchronization run performs.
#[derive(Debug, Clone, Copy, PartialEq, Eq, Structural)]
pub enum SyncAction {
    Nothing,
    Download,
    Upload,
    RecordConflict,
}

/// What one synchronization run does and the state it records afterwards.
pub struct SyncPlan {
    pub action: SyncAction,
    pub state: String,
    pub base_fingerprint: Option<String>,
    pub local_fingerprint: Option<String>,
}

/// The message for resolutions that need a separate conflict copy.
pub open spec fn unavailable_resolution_text() -> Seq<char> {
    "this conflict resolution requires a materialized conflict filename and is not available yet"@
}

/// The lower-cased debugging name of the decisions that move no data.
pub open spec fn quiet_state_label(d: SyncDecision) -> Seq<char> {
    match d {
        SyncDecision::UpToDate => "uptodate"@,
        SyncDecision::DeleteLocal => "deletelocal"@,
        _ => "deleteremote"@,
    }
}

/// `value` if present, else `fallback`.
pub open spec fn or_text(value: Option<Seq<char>>, fallback: Seq<char>) -> Option<Seq<char>> {
    match value {
        Some(v) => Some(v),
        None => Some(fallback),
    }
}

/// The plan for a decision, given the recorded base and local fingerprints and
/// the current remote fingerprint.
pub open spec fn plan_matches(d: SyncDecision, base: Option<Seq<char>>, local: Option<Seq<char>>, remote: Seq<char>, r: Result<SyncPlan, String>) -> bool {
    match d {
        SyncDecision::DownloadRemote | SyncDecision::Resolved(ConflictResolution::KeepRemote) =>
            r matches Ok(p) && p.action == SyncAction::Download && p.state@ == "up_to_date"@
                && opt_text(p.base_fingerprint) == Some(remote) && opt_text(p.local_fingerprint) == Some(remote),
        SyncDecision::UploadLocal =>
            r matches Ok(p) && p.action == SyncAction::Upload && p.state@ == "up_to_date"@
                && opt_text(p.base_fingerprint) == Some(remote) && opt_text(p.local_fingerprint) == or_text(local, remote),
        SyncDecision::Resolved(ConflictResolution::KeepLocal) =>
            r matches Ok(p) && p.action == SyncAction::Upload && p.state@ == "up_to_date"@
                && opt_text(p.base_fingerprint) == or_text(local, remote) && opt_text(p.local_fingerprint) == or_text(local, remote),
        SyncDecision::Conflict =>
            r matches Ok(p) && p.action == SyncAction::RecordConflict && p.state@ == "conflict"@
                && opt_text(p.base_fingerprint) == base && opt_text(p.local_fingerprint) == local,
        SyncDecision::Resolved(_) => r matches Err(m) && m@ == unavailable_resolution_text(),
        _ => r matches Ok(p) && p.action == SyncAction::Nothing && p.state@ == quiet_state_label(d)
                && opt_text(p.base_fingerprint) == base && opt_text(p.local_fingerprint) == local,
    }
}

/// Plans the work of one synchronization run for a decision.
pub fn plan_sync_run(decision: SyncDecision, base: Option<String>, local: Option<String>, remote_fingerprint: &String) -> (r: Result<SyncPlan, String>)
    ensures
        plan_matches(decision, opt_text(base), opt_text(local), remote_fingerprint@, r),
{
    let ghost local_view = opt_text(local);
    let local_or_remote = match &local {
        Some(v) => Some(v.clone()),
        None => Some(remote_fingerprint.clone()),
    };
    assert(opt_text(local_or_remote) == or_text(local_view, remote_fingerprint@));
    match decision {
        SyncDecision::DownloadRemote | SyncDecision::Resolved(ConflictResolution::KeepRemote) => Ok(SyncPlan {
            action: SyncAction::Download,
            state: String::from_str("up_to_date"),
            base_fingerprint: Some(remote_fingerprint.clone()),
            local_fingerprint: Some(remote_fingerprint.clone()),
        }),
        SyncDecision::UploadLocal => Ok(SyncPlan {
            action: SyncAction::Upload,
            state: String::from_str("up_to_date"),
            base_fingerprint: Some(remote_fingerprint.clone()),
            local_fingerprint: local_or_remote,
        }),
        SyncDecision::Resolved(ConflictResolution::KeepLocal) => {
            let base_fingerprint = match &local_or_remote {
                Some(v) => Some(v.clone()),
                None => None,
            };
            Ok(SyncPlan {
                action: SyncAction::Upload,
                state: String::from_str("up_to_date"),
                base_fingerprint,
                local_fingerprint: local_or_remote,
            })
        },
        SyncDecision::Conflict => Ok(SyncPlan {
            action: SyncAction::RecordConflict,
            state: String::from_str("conflict"),
            base_fingerprint: base,
            local_fingerprint: local,
        }),
        SyncDecision::Resolved(_) => Err(String::from_str(
            "this conflict resolution requires a materialized conflict filename and is not available yet",
        )),
        SyncDecision::UpToDate => Ok(SyncPlan {
            action: SyncAction::Nothing,
            state: String::from_str("uptodate"),
            base_fingerprint: base,
            local_fingerprint: local,
        }),
        SyncDecision::DeleteLocal => Ok(SyncPlan {
            action: SyncAction::Nothing,
            state: String::from_str("deletelocal"),
            base_fingerprint: base,
            local_fingerprint: local,
        }),
        SyncDecision::DeleteRemote => Ok(SyncPlan {
            action: SyncAction::Nothing,
            state: String::from_str("deleteremote"),
            base_fingerprint: base,
            local_fingerprint: local,
        }),
    }
}

/// Decides and plans one synchronization run: the remote fingerprint is
/// reconciled against the recorded base and local ones, with the resolution
/// named by `resolution` applied.
pub fn decide_sync_run(base: Option<String>, local: Option<String>, remote_fingerprint: &String, resolution: Option<&str>) -> (r: Result<SyncPlan, String>)
    ensures
        ({
            let d = decide(opt_text(base), opt_text(local), Some(remote_fingerprint@));
            match resolution {
                Some(v) if resolution_named(v@) is None => r matches Err(m) && m@ == "unknown conflict resolution: "@ + v@,
                _ => {
                    let choice = match resolution {
                        Some(v) => resolution_named(v@),
                        None => None,
                    };
                    match resolve_outcome(d, choice) {
                        Ok(x) => plan_matches(x, opt_text(base), opt_text(local), remote_fingerprint@, r),
                        Err(e) => r matches Err(m) && m@ == sync_error_text(e),
                    }
                },
            }
        }),
{
    let input = ReconciliationInput {
        base: revision_of(&base),
        local: revision_of(&local),
        remote: Some(Revision::new(remote_fingerprint.clone())),
    };
    let choice = match parse_resolution(resolution) {
        Ok(c) => c,
        Err(m) => return Err(m),
    };
    match resolve(&input, choice) {
        Ok(decision) => plan_sync_run(decision, base, local, remote_fingerprint),
        Err(e) => Err(e.message()),
    }
}

/// The response reported for a planned run.
pub fn sync_run_response(plan: &SyncPlan, conflict_id: Option<u128>) -> (r: SyncRunResponse)
    ensures
        r.decision@ == plan.state@,
        r.conflict == (plan.state@ == "conflict"@),
        r.conflict_id == conflict_id,
{
    let conflict = str_eq(plan.state.as_str(), "conflict");
    SyncRunResponse { decision: plan.state.clone(), conflict, conflict_id }
}

/// The resolution that settles a recorded conflict: it must be named, and
/// resolutions that need a separate conflict copy are not available.
pub fn conflict_resolution_choice(resolution: &str) -> (r: Result<ConflictResolution, String>)
    ensures
        match resolution_named(resolution@) {
            None => r matches Err(m) && m@ == "unknown conflict resolution: "@ + resolution@,
            Some(ConflictResolution::KeepLocal) => r == Ok::<ConflictResolution, String>(ConflictResolution::KeepLocal),
            Some(ConflictResolution::KeepRemote) => r == Ok::<ConflictResolution, String>(ConflictResolution::KeepRemote),
            Some(_) => r matches Err(m) && m@ == unavailable_resolution_text(),
        },
{
    match parse_resolution(Some(resolution)) {
        Err(m) => Err(m),
        Ok(None) => Err(String::from_str("a conflict resolution is required")),
        Ok(Some(ConflictResolution::KeepLocal)) => Ok(ConflictResolution::KeepLocal),
        Ok(Some(ConflictResolution::KeepRemote)) => Ok(ConflictResolution::KeepRemote),
        Ok(Some(_)) => Err(String::from_str(
            "this conflict resolution requires a materialized conflict filename and is not available yet",
        )),
    }
}

/// A reconciliation request is never answered with a bare conflict: a
/// conflict either carries a resolution or is refused.
pub proof fn lemma_reconcile_answer_never_conflict(d: SyncDecision, choice: Option<ConflictResolution>)
    ensures
        resolve_outcome(d, choice) matches Ok(x) ==> x != SyncDecision::Conflict,
{
}

/// The fingerprint of the remote copy: its entity tag, or else its size
/// (zero when unknown), a colon, and the debugging form of its modification
/// time.
pub fn remote_fingerprint(etag: Option<String>, size_bytes: Option<u64>, modified_at_debug: &str) -> (r: String)
    ensures
        r@ == match etag {
            Some(t) => t@,
            None => crate::text::decimal_text(match size_bytes { Some(s) => s as nat, None => 0 }) + ":"@ + modified_at_debug@,
        },
{
    match etag {
        Some(t) => t,
        None => {
            let mut out = String::new();
            let size = match size_bytes {
                Some(s) => s,
                None => 0,
            };
            crate::text::push_decimal(&mut out, size);
            out.append(":");
            out.append(modified_at_debug);
            out
        },
    }
}

} // verus!

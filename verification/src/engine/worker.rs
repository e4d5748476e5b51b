use vstd::prelude::*;
use crate::engine::handler::check::{CheckResult, ErrorStage};
use crate::http::check::RecordCheck;
use crate::http::content_snapshot::RecordContentSnapshot;
use crate::text::str_equal;

verus! {

/// How many jobs a single poll claims for the worker's region.
pub const BATCH_SIZE: i64 = 10;

/// What a `check` job asks for: one URL, checked in one region as part of
/// one check round.
#[derive(Debug)]
pub struct CheckJobPayload {
    pub url_id: uuid::Uuid,
    pub check_round_id: uuid::Uuid,
    pub region: String,
}

/// The kinds of job a worker runs.
#[derive(Debug, Clone, Copy, PartialEq, Eq, Structural)]
pub enum JobKind {
    Check,
}

/// The kind of a job, from its `job_type` column; `None` for a type no
/// worker knows.
pub fn job_kind(job_type: &str) -> (r: Option<JobKind>)
    ensures
        r is Some <==> job_type@ == "check"@,
        r matches Some(k) ==> k == JobKind::Check,
{
    if str_equal(job_type, "check") {
        Some(JobKind::Check)
    } else {
        None
    }
}

/// A millisecond count as the `checks` table stores it: an `i32`, the
/// value taken modulo 2^32 as `as i32` does.
pub fn ms_column(ms: u32) -> (r: i32)
    ensures
        r == ms as i32,
{
    ms as i32
}

/// A stage timing as the `checks` table stores it.
pub fn ms_column_opt(ms: Option<u32>) -> (r: Option<i32>)
    ensures
        r == (match ms {
            Some(v) => Some(v as i32),
            None => None::<i32>,
        }),
{
    match ms {
        Some(v) => Some(ms_column(v)),
        None => None,
    }
}

/// The stage name that the `checks` table stores for a failed stage.
pub open spec fn stage_column(stage: Option<ErrorStage>) -> Option<Seq<char>> {
    match stage {
        Some(s) => Some(s.spec_name()),
        None => None,
    }
}

/// The row that records the result of a check job.
pub open spec fn is_record_of(rec: RecordCheck, payload: CheckJobPayload, result: CheckResult) -> bool {
    &&& rec.url_id == payload.url_id
    &&& rec.check_round_id == payload.check_round_id
    &&& rec.region == payload.region
    &&& rec.dns_ms == (match result.dns_ms { Some(v) => Some(v as i32), None => None::<i32> })
    &&& rec.connect_ms == (match result.connect_ms { Some(v) => Some(v as i32), None => None::<i32> })
    &&& rec.tls_ms == (match result.tls_ms { Some(v) => Some(v as i32), None => None::<i32> })
    &&& rec.ttfb_ms == (match result.ttfb_ms { Some(v) => Some(v as i32), None => None::<i32> })
    &&& rec.total_ms == Some(result.total_ms as i32)
    &&& rec.status_code == (match result.status_code { Some(v) => Some(v as i32), None => None::<i32> })
    &&& rec.success == result.success
    &&& (match rec.error_stage {
        Some(s) => stage_column(result.error_stage) == Some(s@),
        None => result.error_stage is None,
    })
    &&& rec.error_message == result.error_message
    &&& rec.content_hash == result.content_hash
}

/// Builds the `checks` row for the result of a check job.
pub fn record_for(payload: CheckJobPayload, result: CheckResult) -> (rec: RecordCheck)
    ensures
        is_record_of(rec, payload, result),
{
    let error_stage = match result.error_stage {
        Some(stage) => Some(stage.name()),
        None => None,
    };
    RecordCheck {
        url_id: payload.url_id,
        check_round_id: payload.check_round_id,
        region: payload.region,
        dns_ms: ms_column_opt(result.dns_ms),
        connect_ms: ms_column_opt(result.connect_ms),
        tls_ms: ms_column_opt(result.tls_ms),
        ttfb_ms: ms_column_opt(result.ttfb_ms),
        total_ms: Some(ms_column(result.total_ms)),
        status_code: match result.status_code {
            Some(code) => Some(code as i32),
            None => None,
        },
        success: result.success,
        error_stage,
        error_message: result.error_message,
        content_hash: result.content_hash,
    }
}

/// The content hash to store as a new snapshot: this check's hash when it
/// has one that differs from the latest snapshot's, or when there is no
/// snapshot yet; `None` when nothing is to be stored.
pub open spec fn snapshot_hash(latest: Option<Seq<char>>, current: Option<Seq<char>>) -> Option<Seq<char>> {
    match current {
        None => None,
        Some(h) => match latest {
            Some(l) => if l == h {
                None
            } else {
                Some(h)
            },
            None => Some(h),
        },
    }
}

/// Decides whether this check's content hash becomes a new snapshot, and
/// builds the snapshot row if so.
pub fn snapshot_to_record(
    url_id: uuid::Uuid,
    latest_hash: Option<&str>,
    content_hash: Option<String>,
) -> (r: Option<RecordContentSnapshot>)
    ensures
        r is Some <==> snapshot_hash(
            match latest_hash { Some(l) => Some(l@), None => None::<Seq<char>> },
            match content_hash { Some(h) => Some(h@), None => None::<Seq<char>> },
        ) is Some,
        r matches Some(rec) ==> rec.url_id == url_id && content_hash == Some(rec.content_hash),
{
    match content_hash {
        None => None,
        Some(hash) => {
            let changed = match latest_hash {
                Some(latest) => !str_equal(latest, hash.as_str()),
                None => true,
            };
            if changed {
                Some(RecordContentSnapshot { url_id, content_hash: hash })
            } else {
                None
            }
        },
    }
}

/// What to do with the incidents of a URL after a check.
#[derive(Debug, Clone, Copy)]
pub enum IncidentAction {
    /// Leave the incidents as they are.
    Keep,
    /// Open an incident: the content stopped matching.
    Open,
    /// Resolve the open incident with this id: the content matches again.
    Resolve(uuid::Uuid),
}

/// The incident transition for a check's content match: a mismatch with no
/// incident open opens one; a match while one is open resolves it; anything
/// else (no content expected, a mismatch while one is open, a match while
/// none is open) leaves the incidents alone.
pub open spec fn incident_transition(content_matched: Option<bool>, open_incident: Option<uuid::Uuid>) -> IncidentAction {
    match (content_matched, open_incident) {
        (Some(false), None) => IncidentAction::Open,
        (Some(true), Some(id)) => IncidentAction::Resolve(id),
        _ => IncidentAction::Keep,
    }
}

/// Decides the incident transition for a check's content match.
pub fn incident_action(content_matched: Option<bool>, open_incident: Option<uuid::Uuid>) -> (r: IncidentAction)
    ensures
        r == incident_transition(content_matched, open_incident),
{
    match (content_matched, open_incident) {
        (Some(false), None) => IncidentAction::Open,
        (Some(true), Some(id)) => IncidentAction::Resolve(id),
        _ => IncidentAction::Keep,
    }
}

/// Whether an incident is open after `action`, given whether one was open
/// before.
pub open spec fn open_after(was_open: bool, action: IncidentAction) -> bool {
    match action {
        IncidentAction::Keep => was_open,
        IncidentAction::Open => true,
        IncidentAction::Resolve(_) => false,
    }
}

/// The incident lifecycle: an incident is never opened while one is open
/// and never resolved while none is; after a check that expected content,
/// an incident is open exactly when the content did not match.
pub proof fn lemma_incident_lifecycle(content_matched: Option<bool>, open_incident: Option<uuid::Uuid>)
    ensures
        incident_transition(content_matched, open_incident) is Open ==> open_incident is None,
        incident_transition(content_matched, open_incident) is Resolve ==> open_incident is Some,
        content_matched matches Some(m) ==> open_after(open_incident is Some, incident_transition(content_matched, open_incident)) == !m,
        content_matched is None ==> incident_transition(content_matched, open_incident) is Keep,
{
}

/// A snapshot is stored only when the hash changed: storing the same hash
/// twice in a row stores it once.
pub proof fn lemma_snapshot_only_on_change(latest: Option<Seq<char>>, current: Seq<char>)
    ensures
        snapshot_hash(Some(current), Some(current)) is None,
        snapshot_hash(latest, Some(current)) is Some <==> latest != Some(current),
        snapshot_hash(latest, Some(current)) matches Some(h) ==> h == current,
{
}

} // verus!

use vstd::prelude::*;
use crate::engine::handler::http::ProbeResponse;

verus! {

/// Which stage a check failed at, if any.
#[derive(Debug, Clone, Copy, PartialEq, Eq, Structural)]
pub enum ErrorStage {
    Dns,
    Connect,
    Tls,
    Http,
}

impl ErrorStage {
    /// The stage's name, as its `Debug` form writes it.
    pub open spec fn spec_name(self) -> Seq<char> {
        match self {
            ErrorStage::Dns => "Dns"@,
            ErrorStage::Connect => "Connect"@,
            ErrorStage::Tls => "Tls"@,
            ErrorStage::Http => "Http"@,
        }
    }

    /// The stage's name, as its `Debug` form writes it.
    pub fn name(self) -> (r: String)
        ensures
            r@ == self.spec_name(),
    {
        match self {
            ErrorStage::Dns => "Dns".to_owned(),
            ErrorStage::Connect => "Connect".to_owned(),
            ErrorStage::Tls => "Tls".to_owned(),
            ErrorStage::Http => "Http".to_owned(),
        }
    }
}

/// Outcome of running all stages for one region against one URL.
#[derive(Debug)]
pub struct CheckResult {
    pub dns_ms: Option<u32>,
    pub connect_ms: Option<u32>,
    pub tls_ms: Option<u32>,
    pub ttfb_ms: Option<u32>,
    pub total_ms: u32,
    pub status_code: Option<u16>,
    pub success: bool,
    pub error_stage: Option<ErrorStage>,
    pub error_message: Option<String>,
    pub content_hash: Option<String>,
    /// Whether the body held the expected content, when some is expected.
    /// It does not decide `success`.
    pub content_matched: Option<bool>,
}

/// A result before any stage has run: nothing timed, nothing known.
pub open spec fn is_fresh(r: CheckResult) -> bool {
    &&& r.dns_ms is None
    &&& r.connect_ms is None
    &&& r.tls_ms is None
    &&& r.ttfb_ms is None
    &&& r.total_ms == 0
    &&& r.status_code is None
    &&& !r.success
    &&& r.error_stage is None
    &&& r.error_message is None
    &&& r.content_hash is None
    &&& r.content_matched is None
}

impl Default for CheckResult {
    fn default() -> (r: Self)
        ensures
            is_fresh(r),
    {
        CheckResult {
            dns_ms: None,
            connect_ms: None,
            tls_ms: None,
            ttfb_ms: None,
            total_ms: 0,
            status_code: None,
            success: false,
            error_stage: None,
            error_message: None,
            content_hash: None,
            content_matched: None,
        }
    }
}

/// The stage timings of two results are the same.
pub open spec fn same_timings(a: CheckResult, b: CheckResult) -> bool {
    &&& a.dns_ms == b.dns_ms
    &&& a.connect_ms == b.connect_ms
    &&& a.tls_ms == b.tls_ms
    &&& a.ttfb_ms == b.ttfb_ms
}

/// Records how long a stage took, in its own slot: DNS, connect, TLS, or
/// time to first byte for the HTTP stage. Nothing else changes.
pub fn record_stage_time(result: &mut CheckResult, stage: ErrorStage, ms: u32)
    ensures
        final(result).dns_ms == (if stage == ErrorStage::Dns { Some(ms) } else { old(result).dns_ms }),
        final(result).connect_ms == (if stage == ErrorStage::Connect { Some(ms) } else { old(result).connect_ms }),
        final(result).tls_ms == (if stage == ErrorStage::Tls { Some(ms) } else { old(result).tls_ms }),
        final(result).ttfb_ms == (if stage == ErrorStage::Http { Some(ms) } else { old(result).ttfb_ms }),
        final(result).total_ms == old(result).total_ms,
        final(result).status_code == old(result).status_code,
        final(result).success == old(result).success,
        final(result).error_stage == old(result).error_stage,
        final(result).error_message == old(result).error_message,
        final(result).content_hash == old(result).content_hash,
        final(result).content_matched == old(result).content_matched,
{
    match stage {
        ErrorStage::Dns => result.dns_ms = Some(ms),
        ErrorStage::Connect => result.connect_ms = Some(ms),
        ErrorStage::Tls => result.tls_ms = Some(ms),
        ErrorStage::Http => result.ttfb_ms = Some(ms),
    }
}

/// A duration in milliseconds, saturated to fit in a `u32`.
pub fn clamp_millis(ms: u128) -> (r: u32)
    ensures
        r == (if ms > u32::MAX { u32::MAX as int } else { ms as int }),
{
    if ms > u32::MAX as u128 {
        u32::MAX
    } else {
        ms as u32
    }
}

/// Points in time are `std::time::Instant` values, carried unread.
#[verifier::external_type_specification]
#[verifier::external_body]
pub struct ExInstant(std::time::Instant);

/// The milliseconds elapsed since `started`, from `Instant::elapsed` and
/// `Duration::as_millis`. They depend on the clock: nothing is stated of
/// them.
#[verifier::external_body]
fn millis_since(started: std::time::Instant) -> u128 {
    started.elapsed().as_millis()
}

/// The milliseconds elapsed since `started`, saturated to fit in a `u32`.
pub fn elapsed_ms(started: std::time::Instant) -> (r: u32) {
    clamp_millis(millis_since(started))
}

/// The result of a check that failed at `stage` with `err`, after
/// `total_ms` milliseconds: what the earlier stages recorded is kept.
pub open spec fn failed_at(result: CheckResult, stage: ErrorStage, err: String, total_ms: u32) -> CheckResult {
    CheckResult {
        success: false,
        error_stage: Some(stage),
        error_message: Some(err),
        total_ms,
        ..result
    }
}

/// The result of a check whose every stage succeeded, after `total_ms`
/// milliseconds: it carries the probe's status code, content hash and
/// content match; the stage timings are kept.
pub open spec fn succeeded_with(result: CheckResult, response: ProbeResponse, total_ms: u32) -> CheckResult {
    CheckResult {
        status_code: Some(response.status_code),
        content_hash: Some(response.content_hash),
        content_matched: response.content_matched,
        success: true,
        total_ms,
        ..result
    }
}

/// Ends a check that failed at `stage`.
pub fn fail(result: CheckResult, started: std::time::Instant, stage: ErrorStage, err: String) -> (r: CheckResult)
    ensures
        r == failed_at(result, stage, err, r.total_ms),
{
    let mut result = result;
    result.success = false;
    result.error_stage = Some(stage);
    result.error_message = Some(err);
    result.total_ms = elapsed_ms(started);
    result
}

/// Ends a check whose every stage succeeded.
pub fn succeed(result: CheckResult, started: std::time::Instant, response: ProbeResponse) -> (r: CheckResult)
    ensures
        r == succeeded_with(result, response, r.total_ms),
{
    let mut result = result;
    result.status_code = Some(response.status_code);
    result.content_hash = Some(response.content_hash);
    result.content_matched = response.content_matched;
    result.success = true;
    result.total_ms = elapsed_ms(started);
    result
}

/// A check that ends, from a result that names no failed stage, either by
/// failing at a stage or by succeeding, succeeds exactly when it names no
/// failed stage; a content mismatch never makes it fail.
pub proof fn lemma_success_iff_no_failed_stage(
    result: CheckResult,
    stage: ErrorStage,
    err: String,
    response: ProbeResponse,
    total_ms: u32,
)
    requires
        result.error_stage is None,
    ensures
        failed_at(result, stage, err, total_ms).success <==> failed_at(result, stage, err, total_ms).error_stage is None,
        succeeded_with(result, response, total_ms).success <==> succeeded_with(result, response, total_ms).error_stage is None,
        succeeded_with(result, response, total_ms).success,
{
}

/// The stage that follows `stage` in a check: DNS, then connect, then TLS,
/// then HTTP, which is the last.
pub open spec fn next_stage(stage: ErrorStage) -> Option<ErrorStage> {
    match stage {
        ErrorStage::Dns => Some(ErrorStage::Connect),
        ErrorStage::Connect => Some(ErrorStage::Tls),
        ErrorStage::Tls => Some(ErrorStage::Http),
        ErrorStage::Http => None,
    }
}

/// The position of a stage in a check, from 0 for DNS to 3 for HTTP.
pub open spec fn stage_index(stage: ErrorStage) -> int {
    match stage {
        ErrorStage::Dns => 0,
        ErrorStage::Connect => 1,
        ErrorStage::Tls => 2,
        ErrorStage::Http => 3,
    }
}

/// The timing slot of the stage at position `i`.
pub open spec fn slot(r: CheckResult, i: int) -> Option<u32> {
    if i == 0 {
        r.dns_ms
    } else if i == 1 {
        r.connect_ms
    } else if i == 2 {
        r.tls_ms
    } else {
        r.ttfb_ms
    }
}

/// No stage at position `i` or later has recorded a time.
pub open spec fn slots_empty_from(r: CheckResult, i: int) -> bool {
    forall|k: int| i <= k < 4 ==> slot(r, k) is None
}

/// `result` with the time of `stage` recorded in its slot.
pub open spec fn with_stage_time(result: CheckResult, stage: ErrorStage, ms: u32) -> CheckResult {
    match stage {
        ErrorStage::Dns => CheckResult { dns_ms: Some(ms), ..result },
        ErrorStage::Connect => CheckResult { connect_ms: Some(ms), ..result },
        ErrorStage::Tls => CheckResult { tls_ms: Some(ms), ..result },
        ErrorStage::Http => CheckResult { ttfb_ms: Some(ms), ..result },
    }
}

/// What the pipeline does after a stage.
#[derive(Debug, Clone, Copy, PartialEq, Eq, Structural)]
pub enum CheckAction {
    /// Run this stage next.
    Run(ErrorStage),
    /// The check is over.
    Done,
}

/// What running a stage gave.
#[derive(Debug)]
pub enum StageOutcome {
    /// The DNS, connect or TLS stage succeeded.
    Passed,
    /// The HTTP stage succeeded with this response.
    Responded(ProbeResponse),
    /// The stage failed with this error.
    Failed(String),
}

/// Whether an outcome fits the stage it comes from: only the HTTP stage
/// yields a response, and it yields one whenever it succeeds.
pub open spec fn outcome_fits(stage: ErrorStage, outcome: StageOutcome) -> bool {
    match outcome {
        StageOutcome::Passed => stage != ErrorStage::Http,
        StageOutcome::Responded(_) => stage == ErrorStage::Http,
        StageOutcome::Failed(_) => true,
    }
}

/// One step of a check: the stage's time is recorded in its slot; a failed
/// stage ends the check as failed there, the HTTP stage's response ends it
/// as successful (after `total_ms` milliseconds in both cases), and any
/// other stage that passed hands over to the next stage.
pub open spec fn check_step(
    result: CheckResult,
    stage: ErrorStage,
    ms: u32,
    outcome: StageOutcome,
    total_ms: u32,
) -> (CheckResult, CheckAction) {
    let timed = with_stage_time(result, stage, ms);
    match outcome {
        StageOutcome::Failed(err) => (failed_at(timed, stage, err, total_ms), CheckAction::Done),
        StageOutcome::Responded(response) => (succeeded_with(timed, response, total_ms), CheckAction::Done),
        StageOutcome::Passed => (
            timed,
            match next_stage(stage) {
                Some(s) => CheckAction::Run(s),
                None => CheckAction::Done,
            },
        ),
    }
}

/// Takes a check one step further, after `stage` ran for `stage_ms`
/// milliseconds with `outcome`: records the stage's time and says what to
/// do next. A check that ends here carries the total time since `started`.
pub fn after_stage(
    result: CheckResult,
    started: std::time::Instant,
    stage: ErrorStage,
    stage_ms: u32,
    outcome: StageOutcome,
) -> (r: (CheckResult, CheckAction))
    requires
        outcome_fits(stage, outcome),
    ensures
        r == check_step(result, stage, stage_ms, outcome, r.0.total_ms),
{
    let ghost before = result;
    let mut result = result;
    record_stage_time(&mut result, stage, stage_ms);
    assert(result == with_stage_time(before, stage, stage_ms));
    match outcome {
        StageOutcome::Failed(err) => (fail(result, started, stage, err), CheckAction::Done),
        StageOutcome::Responded(response) => (succeed(result, started, response), CheckAction::Done),
        StageOutcome::Passed => {
            let action = match stage {
                ErrorStage::Dns => CheckAction::Run(ErrorStage::Connect),
                ErrorStage::Connect => CheckAction::Run(ErrorStage::Tls),
                ErrorStage::Tls => CheckAction::Run(ErrorStage::Http),
                ErrorStage::Http => CheckAction::Done,
            };
            (result, action)
        },
    }
}

/// A fresh result has no stage time recorded.
pub proof fn lemma_fresh_result_has_no_stage_times(r: CheckResult)
    requires
        is_fresh(r),
    ensures
        slots_empty_from(r, 0),
{
}

/// A check runs its stages in order and stops at the first failing one:
/// from a result where neither `stage` nor any later stage has run, a step
/// either hands over to the very next stage, which has not run either, or
/// ends the check; when it ends, no later stage has a time, and the check
/// succeeded exactly when the HTTP stage answered.
pub proof fn lemma_stages_run_in_order(
    result: CheckResult,
    stage: ErrorStage,
    ms: u32,
    outcome: StageOutcome,
    total_ms: u32,
)
    requires
        slots_empty_from(result, stage_index(stage)),
        outcome_fits(stage, outcome),
    ensures
        ({
            let (next, action) = check_step(result, stage, ms, outcome, total_ms);
            &&& slot(next, stage_index(stage)) == Some(ms)
            &&& forall|k: int| 0 <= k < stage_index(stage) ==> slot(next, k) == slot(result, k)
            &&& (action matches CheckAction::Run(s) ==> {
                &&& outcome is Passed
                &&& next_stage(stage) == Some(s)
                &&& stage_index(s) == stage_index(stage) + 1
                &&& slots_empty_from(next, stage_index(s))
            })
            &&& (action is Done ==> {
                &&& slots_empty_from(next, stage_index(stage) + 1)
                &&& (next.success <==> outcome is Responded)
                &&& (outcome is Failed ==> next.error_stage == Some(stage))
            })
        }),
{
    let timed = with_stage_time(result, stage, ms);
    let idx = stage_index(stage);
    assert forall|k: int| 0 <= k < 4 implies #[trigger] slot(timed, k) == (if k == idx {
        Some(ms)
    } else {
        slot(result, k)
    }) by {
        match stage {
            ErrorStage::Dns => {},
            ErrorStage::Connect => {},
            ErrorStage::Tls => {},
            ErrorStage::Http => {},
        }
    }
    let (next, action) = check_step(result, stage, ms, outcome, total_ms);
    assert forall|k: int| 0 <= k < 4 implies #[trigger] slot(next, k) == slot(timed, k) by {
        assert(same_timings(next, timed));
    }
    assert forall|k: int| idx < k < 4 implies #[trigger] slot(next, k) is None by {
        assert(slot(next, k) == slot(timed, k));
        assert(slot(result, k) is None);
    }
    assert(slot(next, idx) == slot(timed, idx));
    assert forall|k: int| 0 <= k < idx implies #[trigger] slot(next, k) == slot(result, k) by {
        assert(slot(next, k) == slot(timed, k));
    }
}

} // verus!

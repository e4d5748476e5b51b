use uptime_api::engine::handler::check::{
    after_stage, clamp_millis, elapsed_ms, fail, record_stage_time, succeed, CheckAction, CheckResult, ErrorStage,
    StageOutcome,
};
use uptime_api::engine::handler::http::ProbeResponse;
use uptime_api::engine::health::HealthStatus;
use uptime_api::engine::scheduler::{check_round_jobs, plan_check_round};
use uptime_api::engine::worker::{
    incident_action, job_kind, ms_column, ms_column_opt, record_for, snapshot_to_record, CheckJobPayload, IncidentAction,
    JobKind,
};
use uptime_api::error::AppError;
use uptime_api::http::url::check_url_fields;
use std::time::Instant;
use uuid::Uuid;
use uptime_api::response::ApiResponse;

#[test]
fn a_fresh_result_knows_nothing() {
    let r = CheckResult::default();
    assert!(!r.success);
    assert_eq!(r.total_ms, 0);
    assert_eq!(r.error_stage, None);
    assert_eq!(r.dns_ms, None);
    assert_eq!(r.content_matched, None);
}

#[test]
fn stage_times_land_in_their_own_slot() {
    let mut r = CheckResult::default();
    record_stage_time(&mut r, ErrorStage::Dns, 3);
    record_stage_time(&mut r, ErrorStage::Connect, 4);
    record_stage_time(&mut r, ErrorStage::Tls, 5);
    record_stage_time(&mut r, ErrorStage::Http, 6);
    assert_eq!((r.dns_ms, r.connect_ms, r.tls_ms, r.ttfb_ms), (Some(3), Some(4), Some(5), Some(6)));
    assert!(!r.success);
}

#[test]
fn durations_saturate_at_u32_max() {
    assert_eq!(clamp_millis(12), 12);
    assert_eq!(clamp_millis(u32::MAX as u128), u32::MAX);
    assert_eq!(clamp_millis(u32::MAX as u128 + 1), u32::MAX);
    assert!(elapsed_ms(Instant::now()) < 60_000);
}

#[test]
fn a_failed_stage_fails_the_check_and_keeps_earlier_timings() {
    let mut r = CheckResult::default();
    record_stage_time(&mut r, ErrorStage::Dns, 7);
    let r = fail(r, Instant::now(), ErrorStage::Connect, "refused".to_string());
    assert!(!r.success);
    assert_eq!(r.error_stage, Some(ErrorStage::Connect));
    assert_eq!(r.error_message.as_deref(), Some("refused"));
    assert_eq!(r.dns_ms, Some(7));
    assert_eq!(r.status_code, None);
}

#[test]
fn a_content_mismatch_does_not_fail_the_check() {
    let response = ProbeResponse { status_code: 200, content_hash: "h".to_string(), content_matched: Some(false) };
    let r = succeed(CheckResult::default(), Instant::now(), response);
    assert!(r.success);
    assert_eq!(r.error_stage, None);
    assert_eq!(r.status_code, Some(200));
    assert_eq!(r.content_hash.as_deref(), Some("h"));
    assert_eq!(r.content_matched, Some(false));
}

#[test]
fn stages_are_named_as_debug_writes_them() {
    for stage in [ErrorStage::Dns, ErrorStage::Connect, ErrorStage::Tls, ErrorStage::Http] {
        assert_eq!(stage.name(), format!("{stage:?}"));
    }
}

#[test]
fn only_check_jobs_are_known() {
    assert_eq!(job_kind("check"), Some(JobKind::Check));
    assert_eq!(job_kind("Check"), None);
    assert_eq!(job_kind("cleanup"), None);
}

#[test]
fn milliseconds_are_stored_as_i32_like_as_does() {
    assert_eq!(ms_column(5), 5);
    assert_eq!(ms_column(u32::MAX), -1);
    assert_eq!(ms_column(1 << 31), i32::MIN);
    assert_eq!(ms_column_opt(None), None);
}

#[test]
fn a_check_becomes_its_row() {
    let url_id = Uuid::new_v4();
    let round = Uuid::new_v4();
    let payload = CheckJobPayload { url_id, check_round_id: round, region: "eu-west".to_string() };
    let mut result = CheckResult::default();
    record_stage_time(&mut result, ErrorStage::Dns, 10);
    let result = fail(result, Instant::now(), ErrorStage::Tls, "handshake".to_string());
    let total = result.total_ms;
    let row = record_for(payload, result);
    assert_eq!(row.url_id, url_id);
    assert_eq!(row.check_round_id, round);
    assert_eq!(row.region, "eu-west");
    assert_eq!(row.dns_ms, Some(10));
    assert_eq!(row.connect_ms, None);
    assert_eq!(row.total_ms, Some(total as i32));
    assert!(!row.success);
    assert_eq!(row.error_stage.as_deref(), Some("Tls"));
    assert_eq!(row.error_message.as_deref(), Some("handshake"));
    assert_eq!(row.content_hash, None);
}

#[test]
fn snapshots_are_stored_only_when_the_hash_changes() {
    let id = Uuid::new_v4();
    assert!(snapshot_to_record(id, Some("aa"), Some("aa".to_string())).is_none());
    let changed = snapshot_to_record(id, Some("aa"), Some("bb".to_string())).unwrap();
    assert_eq!(changed.content_hash, "bb");
    assert_eq!(changed.url_id, id);
    assert_eq!(snapshot_to_record(id, None, Some("cc".to_string())).unwrap().content_hash, "cc");
    assert!(snapshot_to_record(id, Some("aa"), None).is_none());
}

#[test]
fn incidents_open_on_mismatch_and_resolve_on_recovery() {
    let open = Uuid::new_v4();
    assert!(matches!(incident_action(Some(false), None), IncidentAction::Open));
    assert!(matches!(incident_action(Some(false), Some(open)), IncidentAction::Keep));
    assert!(matches!(incident_action(Some(true), Some(open)), IncidentAction::Resolve(id) if id == open));
    assert!(matches!(incident_action(Some(true), None), IncidentAction::Keep));
    assert!(matches!(incident_action(None, Some(open)), IncidentAction::Keep));
    assert!(matches!(incident_action(None, None), IncidentAction::Keep));
}

#[test]
fn a_round_is_one_job_per_region_under_one_id() {
    let url = Uuid::new_v4();
    let regions = vec!["us-east".to_string(), "eu-west".to_string(), "ap-south".to_string()];
    let (round, jobs) = plan_check_round(url, &regions);
    assert_eq!(jobs.len(), 3);
    for (job, region) in jobs.iter().zip(&regions) {
        assert_eq!(job.url_id, url);
        assert_eq!(job.check_round_id, round);
        assert_eq!(&job.region, region);
    }
    let (other_round, _) = plan_check_round(url, &regions);
    assert_ne!(round, other_round);
    assert!(check_round_jobs(url, round, &Vec::new()).is_empty());
}

#[test]
fn health_follows_the_database() {
    let up = HealthStatus::from_database_check(true);
    assert_eq!((up.status, up.database), ("ok", "ok"));
    assert!(up.is_healthy());
    let down = HealthStatus::from_database_check(false);
    assert_eq!((down.status, down.database), ("degraded", "unreachable"));
    assert!(!down.is_healthy());
}

#[test]
fn errors_answer_with_their_status_and_message() {
    let cases = [
        (AppError::NotFound, 404, "not found"),
        (AppError::NotFoundMsg("no url".to_string()), 404, "no url"),
        (AppError::BadRequest("bad".to_string()), 400, "bad"),
        (AppError::Unauthorized, 401, "unauthorized"),
        (AppError::Forbidden, 403, "forbidden"),
        (AppError::Conflict("taken".to_string()), 409, "taken"),
        (AppError::Database("connection reset".to_string()), 500, "internal server error"),
        (AppError::Internal("boom".to_string()), 500, "internal server error"),
    ];
    for (err, status, message) in cases {
        assert_eq!(err.status_and_message(), (status, message.to_string()));
    }
}

#[test]
fn url_fields_are_checked_in_order() {
    let bad = |r: Result<(), AppError>| match r {
        Err(AppError::BadRequest(m)) => m,
        other => panic!("expected a bad request, got {other:?}"),
    };
    assert_eq!(bad(check_url_fields(Some(" "), Some(""), Some(0), Some(true))), "domain must not be empty");
    assert_eq!(bad(check_url_fields(Some("x"), Some(""), Some(0), Some(false))), "domain must be valid TLD");
    assert_eq!(bad(check_url_fields(Some("x.io"), Some("\t"), Some(0), Some(true))), "name must not be empty");
    assert_eq!(bad(check_url_fields(None, None, Some(0), None)), "check_interval_seconds must be positive");
    assert!(matches!(check_url_fields(Some("x.io"), None, None, None), Err(AppError::Internal(_))));
    assert!(check_url_fields(None, Some("n"), Some(1), None).is_ok());
}

#[test]
fn ok_responses_carry_status_200() {
    let r = ApiResponse::ok(5u8);
    assert_eq!(r.status(), 200);
    assert_eq!(r.into_body(), 5);
    assert_eq!(ApiResponse::new(201, "made").status(), 201);
}

#[test]
fn stages_run_in_order_until_the_response() {
    let started = Instant::now();
    let (r, a) = after_stage(CheckResult::default(), started, ErrorStage::Dns, 1, StageOutcome::Passed);
    assert_eq!(a, CheckAction::Run(ErrorStage::Connect));
    let (r, a) = after_stage(r, started, ErrorStage::Connect, 2, StageOutcome::Passed);
    assert_eq!(a, CheckAction::Run(ErrorStage::Tls));
    let (r, a) = after_stage(r, started, ErrorStage::Tls, 3, StageOutcome::Passed);
    assert_eq!(a, CheckAction::Run(ErrorStage::Http));
    let response = ProbeResponse { status_code: 200, content_hash: "h".to_string(), content_matched: None };
    let (r, a) = after_stage(r, started, ErrorStage::Http, 4, StageOutcome::Responded(response));
    assert_eq!(a, CheckAction::Done);
    assert!(r.success);
    assert_eq!((r.dns_ms, r.connect_ms, r.tls_ms, r.ttfb_ms), (Some(1), Some(2), Some(3), Some(4)));
    assert_eq!(r.status_code, Some(200));
}

#[test]
fn a_failed_stage_stops_the_check_before_later_stages() {
    let started = Instant::now();
    let (r, a) = after_stage(CheckResult::default(), started, ErrorStage::Dns, 5, StageOutcome::Passed);
    assert_eq!(a, CheckAction::Run(ErrorStage::Connect));
    let (r, a) = after_stage(r, started, ErrorStage::Connect, 6, StageOutcome::Failed("refused".to_string()));
    assert_eq!(a, CheckAction::Done);
    assert!(!r.success);
    assert_eq!(r.error_stage, Some(ErrorStage::Connect));
    assert_eq!(r.error_message.as_deref(), Some("refused"));
    assert_eq!((r.dns_ms, r.connect_ms, r.tls_ms, r.ttfb_ms), (Some(5), Some(6), None, None));
}

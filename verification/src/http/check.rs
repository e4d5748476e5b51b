use vstd::prelude::*;

verus! {

/// Result of a single probe, reported by a region worker after it checks a
/// URL. `id` and `checked_at` are assigned server-side.
#[derive(Debug)]
pub struct RecordCheck {
    pub url_id: uuid::Uuid,
    pub check_round_id: uuid::Uuid,
    pub region: String,
    pub dns_ms: Option<i32>,
    pub connect_ms: Option<i32>,
    pub tls_ms: Option<i32>,
    pub ttfb_ms: Option<i32>,
    pub total_ms: Option<i32>,
    pub status_code: Option<i32>,
    pub success: bool,
    pub error_stage: Option<String>,
    pub error_message: Option<String>,
    pub content_hash: Option<String>,
}

} // verus!

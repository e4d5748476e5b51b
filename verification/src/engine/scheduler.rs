use vstd::prelude::*;
use crate::engine::worker::CheckJobPayload;
use crate::ids::new_v4;

verus! {

/// How many due URLs a single tick claims. Keeps one slow tick from holding
/// up the next.
pub const BATCH_SIZE: i64 = 100;

/// How often, in seconds, the scheduler looks for due URLs.
pub const TICK_INTERVAL_SECS: u64 = 5;

/// Whether `jobs` is the check round `round_id` of the URL `url_id`: one job
/// per configured region, in the regions' order, all sharing the round's id.
pub open spec fn is_check_round(jobs: Seq<CheckJobPayload>, url_id: uuid::Uuid, round_id: uuid::Uuid, regions: Seq<String>) -> bool {
    &&& jobs.len() == regions.len()
    &&& forall|i: int| 0 <= i < jobs.len() ==> {
        &&& (#[trigger] jobs[i]).url_id == url_id
        &&& jobs[i].check_round_id == round_id
        &&& jobs[i].region@ == regions[i]@
    }
}

/// The jobs of one check round: one per region, all under `round_id`.
pub fn check_round_jobs(url_id: uuid::Uuid, round_id: uuid::Uuid, regions: &Vec<String>) -> (jobs: Vec<CheckJobPayload>)
    ensures
        is_check_round(jobs@, url_id, round_id, regions@),
{
    let mut jobs: Vec<CheckJobPayload> = Vec::new();
    let mut i: usize = 0;
    while i < regions.len()
        invariant
            i <= regions@.len(),
            is_check_round(jobs@, url_id, round_id, regions@.take(i as int)),
        decreases regions@.len() - i,
    {
        let region = regions[i].clone();
        jobs.push(CheckJobPayload { url_id, check_round_id: round_id, region });
        assert forall|k: int| 0 <= k < jobs@.len() implies ({
            &&& (#[trigger] jobs@[k]).url_id == url_id
            &&& jobs@[k].check_round_id == round_id
            &&& jobs@[k].region@ == regions@.take(i + 1)[k]@
        }) by {
            if k < i {
                assert(regions@.take(i + 1)[k] == regions@.take(i as int)[k]);
            }
        }
        i = i + 1;
    }
    assert(regions@.take(regions@.len() as int) =~= regions@);
    (jobs)
}

/// Fans a due URL out into one job per configured region, all sharing one
/// fresh check round id so that the regions' results can be joined back
/// into one round. Returns the round id with the jobs.
pub fn plan_check_round(url_id: uuid::Uuid, regions: &Vec<String>) -> (r: (uuid::Uuid, Vec<CheckJobPayload>))
    ensures
        is_check_round(r.1@, url_id, r.0, regions@),
{
    let round_id = new_v4();
    let jobs = check_round_jobs(url_id, round_id, regions);
    (round_id, jobs)
}

} // verus!

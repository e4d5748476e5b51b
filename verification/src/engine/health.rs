use vstd::prelude::*;
use crate::text::str_equal;

verus! {

/// The service's status for a database probe: "ok" when the database
/// answered, else "degraded".
pub open spec fn service_status(database_reachable: bool) -> Seq<char> {
    if database_reachable {
        "ok"@
    } else {
        "degraded"@
    }
}

/// The database's status for a probe: "ok" or "unreachable".
pub open spec fn database_status(database_reachable: bool) -> Seq<char> {
    if database_reachable {
        "ok"@
    } else {
        "unreachable"@
    }
}

/// Whether the service and its dependencies are up.
#[derive(Debug)]
pub struct HealthStatus {
    pub status: &'static str,
    pub database: &'static str,
}

impl HealthStatus {
    /// The status that a database probe gives: "ok" when the database
    /// answered, else the database is "unreachable" and the service
    /// "degraded".
    pub fn from_database_check(database_reachable: bool) -> (r: HealthStatus)
        ensures
            r.status@ == service_status(database_reachable),
            r.database@ == database_status(database_reachable),
    {
        if database_reachable {
            HealthStatus { status: "ok", database: "ok" }
        } else {
            HealthStatus { status: "degraded", database: "unreachable" }
        }
    }

    /// Whether the service reports itself healthy.
    pub fn is_healthy(&self) -> (r: bool)
        ensures
            r == (self.status@ == "ok"@),
    {
        str_equal(self.status, "ok")
    }
}

/// The service is healthy exactly when its database is reachable.
pub proof fn lemma_healthy_iff_database_reachable(database_reachable: bool)
    ensures
        (service_status(database_reachable) == "ok"@) == database_reachable,
{
    reveal_strlit("ok");
    reveal_strlit("degraded");
    assert("degraded"@.len() != "ok"@.len());
}

} // verus!

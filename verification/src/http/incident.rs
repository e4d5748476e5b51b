use vstd::prelude::*;

verus! {

/// Opens a new incident for a URL that started failing checks. `started_at`
/// is assigned server-side (now).
#[derive(Debug)]
pub struct OpenIncident {
    pub url_id: uuid::Uuid,
    pub cause: Option<String>,
}

/// Marks an open incident resolved. `resolved_at` is assigned server-side
/// (now).
#[derive(Debug)]
pub struct ResolveIncident {
    pub cause: Option<String>,
}

} // verus!

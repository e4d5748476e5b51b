use vstd::prelude::*;

verus! {

/// Records a new content hash observed for a URL. `id` and `captured_at`
/// are assigned server-side.
#[derive(Debug)]
pub struct RecordContentSnapshot {
    pub url_id: uuid::Uuid,
    pub content_hash: String,
}

} // verus!

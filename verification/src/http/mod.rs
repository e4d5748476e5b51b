pub mod check;
pub mod content_snapshot;
pub mod incident;
pub mod url;

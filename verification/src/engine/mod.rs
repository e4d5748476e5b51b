pub mod handler;
pub mod health;
pub mod scheduler;
pub mod worker;

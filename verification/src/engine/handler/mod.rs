pub mod check;
pub mod dns;
pub mod http;
pub mod tls;

//! Birthday greeting service core: calendar arithmetic, input validation,
//! the error taxonomy, and the pure decision logic behind each HTTP route.
//! All I/O (the HTTP server and the document store client) lives outside
//! this crate and exchanges plain values with it.

pub mod config;
pub mod date;
pub mod errors;
pub mod handlers;
pub mod user;
pub mod utils;

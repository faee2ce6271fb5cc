//! The proxy: from a client's request to a backend and back.

pub mod aggregate;
pub mod extract;
pub mod reply;
pub mod route;
pub mod stream;
pub mod upstream;

//! A small HTTP/1.1 server core: a request parser, a router with two route
//! tables, the response writer, and the job queue shared by a fixed pool of
//! workers.
pub mod config;
pub mod text;
pub mod request;
pub mod request_text;
pub mod response;
pub mod router;
pub mod connection;
pub mod queue;

//! A small HTTP request-dispatch core: request-line parsing, routing,
//! response framing, and the bookkeeping of the two job runtimes and the
//! server's accept/drain loop.

pub mod connection;
pub mod pool;
pub mod post;
pub mod request;
pub mod response;
pub mod router;
pub mod shapes;
pub mod tasks;
pub mod timing;

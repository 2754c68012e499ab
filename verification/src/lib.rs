//! A minimal HTTP/1.x server engine.
//!
//! The engine works on bytes in memory. A connection's input is held in a
//! [`reader::Reader`]; [`request::Request::from`] reads the head of a request
//! off it and leaves the body to be pulled, chunk by chunk, through
//! [`body::BodyDecoder`]. A handler answers with a [`response::Response`],
//! which [`response::Response::serialize`] turns into the bytes to send.
//! [`request::is_complete`] tells a connection when it has read enough, and
//! [`queue::JobQueue`] is the queue that a pool of workers shares.
//!
//! Every function states what it returns over plain models of its data:
//! sequences of bytes and characters, and mappings of header names.

pub mod text;
pub mod number;
pub mod reader;
pub mod method;
pub mod version;
pub mod status;
pub mod headers;
pub mod body;
pub mod chunked;
pub mod framing;
pub mod head;
pub mod request;
pub mod response;
pub mod queue;

//! Encoding and naming for an audit log of request attempts: each attempt of a
//! conversation gets a pretty-printed request record and a stream of response
//! events, one compact JSON object per line.

mod clock;
pub mod events;
pub mod headers;
pub mod json;
pub mod naming;
pub mod readback;
pub mod record;
pub mod router;

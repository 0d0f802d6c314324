//! An in-memory byte-budgeted key-value cache with exact least-recently-used
//! eviction, together with the line-oriented text protocol that exposes it.
//!
//! The storage engine keeps entries in recency order and maintains a running
//! byte count; a `set` that would exceed the configured limit first evicts the
//! least recently touched entries. The protocol module parses request lines
//! and formats responses (values are base64-encoded on the wire); the session
//! module turns one parsed request into one engine operation and one response.

mod decimal;
mod engine;
mod error;
mod protocol;
mod session;
mod util;

pub use engine::{
    entry_size, has_key, lemma_delete_idempotent, lemma_evict_takes_least_recent,
    lemma_set_replaces_in_place, remove_key, set_result, touch_result, usage_of, value_of,
    BlinkStorage, MemoryEngine,
};
pub use error::BlinkError;
pub use protocol::{parse_request, parse_response, Command, RespModel, Response};
pub use session::handle_request;

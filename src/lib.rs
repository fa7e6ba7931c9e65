//! A typed call boundary between a client and a server: wire formats, a codec that turns
//! values into request and response payloads and back, the mapping of every failure into an
//! application's error type, and the stages of a call. The operations of a small demo
//! application, and the shared state its handlers keep, are built on top of it.

use vstd::prelude::*;

pub mod codec;
pub mod dispatch;
pub mod error;
pub mod format;
pub mod frame;
pub mod handlers;
pub mod payload;
pub mod progress;
pub mod progress_text;
pub mod registry;
pub mod rows;
pub mod stream;
pub mod text_codec;

verus! {

} // verus!

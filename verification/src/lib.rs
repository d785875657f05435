//! Verified core of the chat-completions stream, the memory-extraction runtime and the
//! model catalog.
pub mod chunk;
pub mod events;
pub mod ids;
pub mod json;
pub mod model_catalog;
pub mod name_map;
pub mod response;
pub mod response_laws;
pub mod runtime;
pub mod sse;
pub mod stream;
pub mod stream_laws;
pub mod text;
pub mod tool_calls;
pub mod tool_map;

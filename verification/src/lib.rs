//! Server-side middleware for an agent-tool exposure protocol.
//!
//! The crate decodes JSON-RPC-shaped request envelopes, builds a typed
//! request model, keeps name-keyed capability registries (tools, resources,
//! prompts), compiles protocol responses into server-sent-event frames, and
//! gates traffic through a per-session lifecycle.

pub mod json_text;
pub mod mcp_output_contract;
pub mod mcp_payload;
pub mod prompts;
pub mod registry;
pub mod resources;
pub mod sessions;
pub mod tools;
pub mod render;

pub mod text;
pub mod provider;
pub mod agent_loop;
pub mod wasm;
pub mod compaction;
pub mod skills;
pub mod sync;
pub mod sync_laws;
pub mod transport;
pub mod xavier;
pub mod http_reply;
pub mod keyed;
pub mod store;
pub mod json;
pub mod gateway;
pub mod mcp_client;
pub mod mcp_flow;
pub mod config;
pub mod sched;
pub mod tools;
pub mod web_tools;
pub mod pwa;

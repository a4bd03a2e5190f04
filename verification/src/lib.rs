//! Verified core of the cc-switch provider, MCP, session-usage and archive logic.

pub mod proxy;
pub mod json;
pub mod mcp;
pub mod paths;
pub mod provider_document;
pub mod pi_config;
pub mod pi_agent_config;
pub mod services;
pub mod cli;
pub mod server_state;

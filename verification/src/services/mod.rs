pub mod session_usage_pi_agent;
pub mod webdav_sync;

//! Screen-edge status glow: the verified core.
pub mod config;
pub mod hook_laws;
pub mod hooks;
pub mod json;
pub mod notification;
pub mod overlay;
pub mod settings;
pub mod settings_laws;
pub mod status;
pub mod status_laws;
pub mod text;

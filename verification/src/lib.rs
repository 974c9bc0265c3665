//! cfnat: the decisions of a Cloudflare IP forwarding service, verified.
pub mod api;
pub mod args;
pub mod dns_resolver;
pub mod dns_updater;
pub mod net;
pub mod service;
pub mod text;
pub mod types;

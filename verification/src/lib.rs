//! Decision and text-processing logic of the nekos proxy client: share-link
//! node filtering, subscription metadata, core log handling, system-proxy and
//! autostart plans, and the small state machines the desktop shell drives.

pub mod text;
pub mod netaddr;
pub mod json;
pub mod runtime;
pub mod corectl;
pub mod subscribe;
pub mod sysproxy;
pub mod autostart;
pub mod db;
pub mod commands;
pub mod rulesets;
pub mod laws;

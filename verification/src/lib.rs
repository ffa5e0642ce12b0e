//! Verified core of the zellij-tools plugin: message parsing, event streaming,
//! scratchpad bookkeeping, pane status sanitizing and zjstatus rendering.

pub mod text;
pub mod message;
pub mod focus;
pub mod config;
pub mod kdl_model;
pub mod scratchpad;
pub mod pane_status;
pub mod pane_statuses;
pub mod events;
pub mod stream;
pub mod zjstatus;
pub mod zjstatus_runtime;
pub mod publisher;
pub mod stable_tabs;
pub mod tree;
pub mod client;
pub mod request;
pub mod pipe_claim;

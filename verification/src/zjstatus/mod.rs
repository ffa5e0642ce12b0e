//! Publishing scratchpad and pane status to zjstatus: configuration layers,
//! rendering, and the pipe protocol.

pub mod markup;
pub mod render;
pub mod config;
pub mod parse;

pub use config::{OutputKey, OutputPatch, ZjstatusConfig, ZjstatusConfigLayers, ZjstatusConfigPatch};
pub use parse::{parse_zjstatus_config_doc, parse_zjstatus_config_kdl};
pub use render::{render, render_item, should_publish_empty, Scope, zjstatus_payload, zjstatus_tab_payload, OutputConfig, OutputSource};
pub mod pane_template;
pub mod pane;
pub use pane::render_pane_status;

//! Scratchpad definitions and bookkeeping.

pub mod config;
pub mod configs;
pub mod registry;
pub mod status;
pub mod persistence;
pub mod list;
pub mod manager;

pub use config::{
    is_valid_scratchpad_name, parse_scratchpad_action, parse_scratchpads_kdl, resolve_axis, AxisOrigin,
    Origin, ResolvedCoordinates, ScratchpadAction, ScratchpadConfig, SizeValue,
};
pub use status::{ScratchpadDisplayState, ScratchpadStatusItem, ScratchpadStatusSnapshot};
pub use persistence::{state_file_path, PersistedState};
pub use list::{PaneNodeCompact, ScratchpadInstanceInfo, ScratchpadListEntry, ScratchpadListQuery};
pub use configs::ScratchpadConfigs;
pub use manager::{ScratchpadCommand, ScratchpadContext, ScratchpadManager};

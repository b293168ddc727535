//! Verified core of the DSH launcher: instance identifiers and directory
//! layout, launcher run state and log buffers, settings resolution, process
//! output interpretation and the npm version catalogue.

pub mod text;
pub mod layout;
pub mod instance;
pub mod ports;
pub mod state;
pub mod process;
pub mod settings;
pub mod versions;
pub mod release;

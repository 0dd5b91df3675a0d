//! The drivers: for each output-management tool, the arguments to run it
//! with and the reading of what it reports. Running the tool is left to the
//! caller.

pub mod hyprctl;
pub mod wlr_randr;

pub use hyprctl::HyprctlBackend;
pub use wlr_randr::WlrRandrBackend;

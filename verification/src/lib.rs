//! Saving and restoring the layout of the connected displays.
//!
//! Output names are not stable across sessions, so a saved layout is keyed by
//! a fingerprint of the hardware identities of the connected displays and is
//! matched back to the displays by identity, never by name.

pub mod backend;
pub mod exclusion;
pub mod fingerprint;
pub mod info;
pub mod order;
pub mod reconcile;
pub mod restore;
pub mod sorting;
pub mod store;
pub mod text;
pub mod types;

//! The decisions of the HTTP API.

pub mod airband;
pub mod airband_laws;
pub mod health;
pub mod json_error;
pub mod patch_laws;
pub mod show_laws;
pub mod system;

//! The airband multichannel receiver of maia-httpd: its configuration, the
//! programming of the devices, the reader of the framed-audio ring, and the
//! decisions of the HTTP API.

pub mod airband;
pub mod app;
pub mod client;
pub mod configure;
pub mod configure_laws;
pub mod double;
pub mod drain;
pub mod httpd;
pub mod json;
pub mod reader;
pub mod reader_laws;
pub mod rounding;
pub mod text;
pub mod tuning;
pub mod tuning_laws;

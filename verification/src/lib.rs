//! Verified core of the Rhythmix rhythm-game pattern server: error handling,
//! request framing, configuration parsing and the integer decisions of
//! pattern and section generation.

pub mod error;
pub mod text;
pub mod config;
pub mod framing;
pub mod types;
pub mod pattern;
pub mod section;
pub mod analysis;
pub mod service;
pub mod form_laws;

//! A protocol adapter between a line-based speech dispatcher host and a set
//! of backend speech engines, each handling a single script.  The library
//! holds the verified core: alphabet classification, text segmentation,
//! configuration parsing, the host command parser, the engine line reader,
//! and the playback state machine.

pub mod command;
pub mod config;
pub mod fixed_alphabets;
pub mod orchestrator;
pub mod reader;
pub mod settings;
pub mod text;
pub mod text_processor;

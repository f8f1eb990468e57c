//! Core of a keystroke-automation library: key-name resolution, synthetic
//! input planning, duration parsing, configuration validation, process
//! matching, and the scheduling state machines that drive sequential and
//! independent key emission.

pub mod acquire;
pub mod config;
pub mod control;
pub mod duration;
pub mod independent;
pub mod key_sender;
pub mod process_finder;
pub mod sequential;
pub mod text;

pub use config::Config;
pub use key_sender::KeySender;
pub use process_finder::ProcessFinder;

//! A serial terminal: a reconnect-and-stream state machine, the USB sequence
//! that puts a device into its bootloader, the JSON listing of port names and
//! the command line surface.
pub mod session;
pub mod bootloader;
pub mod listing;
pub mod config;
pub mod text;

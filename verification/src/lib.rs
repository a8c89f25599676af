//! File transfer between two machines: the packet format, the parsing of
//! console commands and settings, the error log and the decisions of the
//! connection and receive controls.
pub mod header;
pub mod network;
pub mod text;
pub mod command_resolver;
pub mod error_log;
pub mod settings;
pub mod xs_packet;

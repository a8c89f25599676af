//! Everything that goes over the connection: the packet format, and the
//! decisions of the connection and receive controls.
pub mod connection_control;
pub mod file_transmission;
pub mod receiver;
pub mod sender;

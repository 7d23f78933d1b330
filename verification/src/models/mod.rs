//! The values the transport moves: datagrams, messages and registrations.
pub mod datagram;
pub mod message;
pub mod registration;

//! The protocol's components, each as a state with verified transitions.
pub mod workload_manager;
pub mod wait_queue;
pub mod priority_levels;
pub mod priority_manager;
pub mod reassembly;
pub mod message_receiver;
pub mod message_sender;
pub mod application;
pub mod application_registrar;
pub mod datagram_receiver;

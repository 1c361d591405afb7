//! The confined programs: what each does with what the kernel tells it.
//!
//! A program is a machine. It asks for one system call at a time, is told how
//! that came out, and asks for the next.

pub mod hello_service;
pub mod broker_service;
pub mod broker_client;
pub mod frame_service;
pub mod frame_client;
pub mod service;
pub mod keystore_client;
pub mod laws;
pub mod store_client;

//! A zero-copy publish/subscribe substrate: the service-and-port plane with
//! version-stamped dynamic storage, a chunk arena, transport channels and
//! publisher/subscriber ports.

pub mod accounting;
pub mod arena;
pub mod channel;
pub mod config;
pub mod descriptor;
pub mod dynamic_storage;
pub mod event;
pub mod expired;
pub mod memory;
pub mod names;
pub mod pattern;
pub mod publisher;
pub mod publisher_laws;
pub mod registry;
pub mod service;
pub mod static_storage;
pub mod sample_mut;
pub mod subscriber;
pub mod ticker;
pub mod version;

//! A minimal peer-to-peer request/response layer: length-prefixed framing,
//! protocol identities, the application service contract, and the engine that
//! correlates outbound requests with their responses.

pub mod config;
pub mod custom_protocol;
pub mod engine;
pub mod event;
pub mod exchanges;
pub mod frame;
pub mod model;
pub mod p2p;
pub mod pending;
pub mod service;
pub mod stream;
pub mod tower_service;

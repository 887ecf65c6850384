//! Resolution of textual service-binding descriptors.
//!
//! A descriptor such as `tcp://127.0.0.1:8080`, `unix:///run/app.sock`,
//! `fd://` or `npipe://name` names the mechanism by which a service is
//! reached. This crate turns such a string into a [`Binding`] and decides
//! the steps by which a binding becomes a live listener or stream.
pub mod address;
pub mod endpoint;
pub mod error;
pub mod literal;
pub mod number;
pub mod opening;
pub mod scan;
pub mod service;
pub mod text;

pub use address::SocketAddress;
pub use endpoint::Endpoint;
pub use error::{AddressError, Error};
pub use number::NumberError;
pub use opening::{ModeChange, Opening};
pub use service::{Activation, Binding, Resolution};

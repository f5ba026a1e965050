//! What client and server are configured with, and which configurations are
//! accepted.
pub mod client;
pub mod error;
pub mod server;
pub mod tls;

pub use client::ClientConfig;
pub use error::ConfigError;
pub use server::ServerConfig;
pub use tls::{TlsConfig, TlsFiles};

pub mod assoc;
pub mod cache;
pub mod client;
pub mod decode;
pub mod fingerprint;
pub mod headers;
pub mod properties;
pub mod value;

pub use client::{Config, Dacloud};
pub use value::Value;

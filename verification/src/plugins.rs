//! Plugin lifecycle hooks and the sandbox policy for Wasm plugins.

pub mod interface;
pub mod sandbox;

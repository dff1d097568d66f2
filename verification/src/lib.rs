//! Module registry and resolution layer of a script-module runtime.
//!
//! The registry maps canonical specifiers to module handles (directly or
//! through one alias hop), the module table gates namespace reads on the
//! lifecycle state, and the resolver canonicalises import requests.

pub mod consistency;
pub mod error;
pub mod filter;
pub mod modules;
pub mod ops;
pub mod registry;
pub mod resolver;
pub mod specifier;

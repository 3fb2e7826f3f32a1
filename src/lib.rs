//! Host runtime for HTTP functions packaged as plugins: the wire encoding
//! between host and plugin, the library cache, the function lifecycle, and
//! the gateway rules that turn HTTP requests into plugin calls.
use vstd::prelude::*;

pub mod frame;
pub mod wire;
pub mod cache;
pub mod strmap;
pub mod text;
pub mod http;
pub mod handler;
pub mod registry;
pub mod gateway;
pub mod pipeline;
pub mod routing;
pub mod manifest;
pub mod config;
pub mod store;
pub mod naming;
pub mod sdk;
pub mod envfile;
pub mod attrs;

verus! {

} // verus!

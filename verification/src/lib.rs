//! Verified core of the Cameo control plane.
use vstd::prelude::*;

pub mod agent;
pub mod auth;
pub mod bytes;
pub mod clock;
pub mod conn;
pub mod credits;
pub mod crypto;
pub mod curl;
pub mod dispatch;
pub mod drain;
pub mod facts;
pub mod fleet;
pub mod gate;
pub mod http;
pub mod hub;
pub mod json;
pub mod keyed;
pub mod knossos;
pub mod metrics;
pub mod net;
pub mod openai;
pub mod pairing;
pub mod proxy;
pub mod rate_limit;
pub mod report;
pub mod roster;
pub mod routes;
pub mod sessions;
pub mod style;
pub mod startup;
pub mod store;
pub mod supervisor;
pub mod text;
pub mod tls;
pub mod vram;

verus! {
} // verus!

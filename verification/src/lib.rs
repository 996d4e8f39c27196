//! Deterministic space-trading simulation: content linking, a spot economy with
//! contracts and finance, roaming fleets, running battles, and the command
//! pipeline through which players act on all of it.
//!
//! Real-valued quantities (coordinates, dangers, shields, elasticities) are held
//! as their 64-bit patterns; see [`bits`]. Whatever needs floating-point
//! arithmetic is computed by the host and handed in as plain values.

pub mod arena;
pub mod bits;
pub mod by_id;
pub mod client;
pub mod cockpit;
pub mod command;
pub mod console;
pub mod contract;
pub mod data;
pub mod encounter;
pub mod event;
pub mod feed;
pub mod finance;
pub mod fingerprint;
pub mod flight;
pub mod hash;
pub mod hook;
pub mod ids;
pub mod instruments;
pub mod load_error;
pub mod manifest;
pub mod market;
pub mod merge;
pub mod money;
pub mod nav;
pub mod patrol;
pub mod play;
pub mod pricing;
pub mod proto;
pub mod registry;
pub mod repl;
pub mod report;
pub mod rng;
pub mod scenario;
pub mod scene;
pub mod script;
pub mod search;
pub mod targeting;
pub mod text;
pub mod trader;
pub mod window;
pub mod words;
pub mod world;

//! A batch network-probing core: it expands compact target specifications
//! (networks, address ranges, single addresses) into probe targets, models
//! a bounded worker pool with a result collector, decides probe outcomes,
//! and renders collected results for display and persistence.  The network
//! calls themselves are made by a thin front end around this library.

pub mod batch;
pub mod expand;
pub mod input;
pub mod ipv4;
pub mod ipv6;
pub mod output;
pub mod probe;
pub mod text;

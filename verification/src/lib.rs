//! A request-dispatch core: a URL-pattern route tree, an ordered,
//! short-circuiting middleware chain ending in a route handler, and a
//! per-request scoped storage that lets outer layers hand values to inner
//! ones. Transport, header and body parsing belong to outside
//! collaborators; this crate takes a method and a path and produces a
//! finished context.

pub mod chain;
pub mod context;
pub mod http;
pub mod paths;
pub mod pattern;
pub mod router;
pub mod rx;
pub mod value;

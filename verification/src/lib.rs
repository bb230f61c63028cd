//! The LINDAS `cube.link` domain library: the served scope, the rules
//! that turn a tool call into bound SPARQL requests, and the rules that
//! turn the endpoint's answers into typed, honest replies.

pub mod text;
pub mod json;
pub mod scope;
pub mod backend;
pub mod throttle;
pub mod fixtures;
pub mod domain;
pub mod tools;
pub mod catalogue;
pub mod shape;
pub mod cube;
pub mod observe;
pub mod server;
pub mod laws;

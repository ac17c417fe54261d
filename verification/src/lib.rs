//! Coordination layer of a streaming HTML parse: tree construction, resource
//! discovery and the ordering of what was discovered.

pub mod aggregator;
pub mod dom;
pub mod element;
pub mod font;
pub mod msg;
pub mod parser;
pub mod resolve;
pub mod runtime;
pub mod script_worker;
pub mod session;
pub mod style_worker;
pub mod text;

//! A Cross-Origin Resource Sharing policy engine: it judges a request head
//! against an immutable policy and computes the response headers that tell
//! a browser the decision.

pub mod ascii;
pub mod names;
pub mod codec;
pub mod headers;
pub mod policy;
pub mod evaluator;
pub mod middleware;
pub mod framework;

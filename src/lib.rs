//! Resilient fetch core of a REST client: a navigable tree of structured
//! values, a bounded retry policy, and the pipeline that turns a transport
//! outcome into a narrowed, decoded value.

pub mod json;
pub mod pipeline;
pub mod retry;
pub mod value;

//! A daily-quote broadcaster for a publish/subscribe network: the wire
//! codec of its two messages, the quote catalog, and the decisions of the
//! broadcast scheduler and request listener.
pub mod catalog;
pub mod protocol;
pub mod scheduler;
pub mod topic;
pub mod wire;

//! Per-connection core of an MQTT v3.1.1 broker: session state, packet
//! handlers, inflight bookkeeping, subscription routing and retained
//! messages, all stated and proved over plain values. Transport framing,
//! the wire codec and the async plumbing live outside this crate and hand
//! the core decoded packet values.

pub mod alist;
pub mod handlers;
pub mod publish;
pub mod qos;
pub mod queue;
pub mod retain;
pub mod router;
pub mod session;
pub mod topic;

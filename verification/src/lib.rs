//! Verified core of a benchmark suite for a capability-based remote
//! invocation service: the plans that drive each benchmark, the state its
//! request handlers keep, and the numbers and tables it reports.
pub mod table;
pub mod chain;
pub mod plan;
pub mod star;
pub mod facever;
pub mod throughput;
pub mod starchain;
pub mod grpc;
pub mod latency;
pub mod dos;

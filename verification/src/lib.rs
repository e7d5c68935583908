//! A load balancer's core: the registries of the backend nodes that announce
//! themselves over UDP, the selection of a node for each request, and the
//! release of the node when the request is done.
//!
//! Time is a number of nanoseconds on a monotonic clock that the caller
//! reads; no function here reads a clock, waits, or talks to the network.

pub mod announcer;
pub mod dashboard;
pub mod dispatch;
pub mod endpoint;
pub mod laws;
pub mod node;
pub mod registry;
pub mod seqs;
pub mod state;
pub mod text;
pub mod wire;

pub use dispatch::{Admission, BackendOutcome, Reply};
pub use node::{Nanos, NodeHealth, NodeInfo};
pub use registry::{remove_stale_nodes, Registry};
pub use state::AppState;
pub use wire::{Announcement, DatagramError, ServiceClass};

//! The runtime core of an interactive application: a forest of nodes that
//! carry components, and a router that delivers events to lenses along node
//! paths in four cancellable phases.
pub mod comp;
pub mod event;
pub mod lens;
pub mod node;
pub mod router;

//! A small message-queue node: timers that publish on a schedule, a map of
//! peer addresses learned through dynamic discovery, and the decisions a node
//! makes on every message it receives.  Sockets, threads and the wire codec
//! live outside this crate; everything here is plain values and verified.

pub mod lexical;
pub mod timer;
pub mod timer_queue;
pub mod message;
pub mod scheduler;
pub mod dynamic_discovery;
pub mod names;
pub mod address_map;
pub mod node;

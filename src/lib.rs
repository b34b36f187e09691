//! Fan-out core of a streaming gateway between a publish/subscribe bus and
//! many client connections: an incremental parser for the bus's framed
//! replies, the subscription table that drives bus (un)subscribe commands,
//! the input buffer with compaction and rewind, and the manager that ties
//! them together.
use vstd::prelude::*;

pub mod timeline;
pub mod buffer;
pub mod cache;
pub mod channel;
pub mod command;
pub mod event;
pub mod manager;
pub mod report;
pub mod stream;
pub mod table;
pub mod wire;

verus! {

} // verus!

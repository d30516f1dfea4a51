//! The protocol core of a shared-memory IPC library: broadcast channels on a
//! 256-slot ring, the chunk pool for large messages, the record ring for one
//! producer and one consumer, the service registry and the service group.
//!
//! Everything here is stated over plain values. The state that endpoints
//! share is a value that an operation holds alone while it runs; what a word
//! of that state means, and what an operation does to it, is proved against
//! the contracts. Mapping regions, atomic access and sleeping are left to the
//! caller, which asks this crate for every decision.
//!
//! - [`ring`], [`channel`], [`route`]: the ring and the endpoints on it;
//!   [`roundtrip`], [`ordering`] and [`ring_laws`] hold what is proved of
//!   them.
//! - [`chunk_storage`]: the pool of chunks that carry large messages.
//! - [`shm`], [`shm_name`]: named regions, their names and their lifecycle.
//! - [`spin_lock`], [`rw_lock`], [`mutex`], [`condition`], [`waiter`]: the
//!   lock words, and the decisions of waiting and locking.
//! - [`circ`], [`buffer`], [`text`]: connection heads, the message buffer,
//!   numerals.
//! - [`proto`]: messages, the record ring, the registry, processes and the
//!   service group.

pub mod text;
pub mod shm_name;
pub mod shm;
pub mod buffer;
pub mod spin_lock;
pub mod rw_lock;
pub mod circ;
pub mod chunk_storage;
pub mod ring;
pub mod ring_laws;
pub mod channel;
pub mod route;
pub mod waiter;
pub mod mutex;
pub mod condition;
pub mod roundtrip;
pub mod ordering;
pub mod proto;

pub use buffer::IpcBuffer;
pub use channel::{ChanShared, ChannelError, Mode};
pub use route::{Channel, Route};
pub use rw_lock::RwLock;
pub use shm::{ShmError, ShmHandle, ShmOpenMode, ShmSpace};
pub use spin_lock::SpinLock;

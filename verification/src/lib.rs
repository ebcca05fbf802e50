//! A small key/value table library with a disk-backed, lazily populated,
//! write-back cache, verified with Verus.
//!
//! The pieces, leaves first:
//!
//! - [`kvmap::KvMap`] and [`keyset::KeySet`]: the verified map and key-set
//!   structures everything else is built on.
//! - [`table::Table`]: the uniform `set` / `get` / `contains_key` / `remove`
//!   contract, and [`table::MemCache`], a purely in-memory table satisfying
//!   it.
//! - [`store::Store`]: the durable record store a cache reconciles against
//!   — one record per key — with [`store::MemStore`] as its verified
//!   in-memory model; a real directory-backed implementation lives with the
//!   program around the library.
//! - [`disk_cache::DiskCache`]: the write-back cache itself. `set` and
//!   `remove` touch only memory and mark the key dirty; `get` lazily loads
//!   a missing key from the store; `persist` reconciles every dirty key
//!   against the store and states exactly what the store holds afterwards
//!   ([`disk_cache::reconcile`]).
//! - [`laws`]: the proved statements tying the operations together, such as
//!   the persist round trip.
//!
//! No operation here is safe for unsynchronized concurrent use: a caller
//! sharing one cache across threads must hold one exclusive lock around
//! every table operation, `persist` included.

pub mod disk_cache;
pub mod keyset;
pub mod kvmap;
pub mod laws;
pub mod store;
pub mod table;
pub mod types;

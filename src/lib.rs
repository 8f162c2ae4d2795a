//! A per-room, in-memory message relay with optional durability per key.
//!
//! The store keeps one ordered stream per key; the database routes every
//! applied instruction to its subscribers by filling an outbox of addressed
//! deliveries, which the host then hands to the subscribers' sinks.

pub mod types;
pub mod store;
pub mod db;
pub mod room;
pub mod laws;

pub use db::{Database, DatabaseInner, Delivery, Subscriber};
pub use room::DbRoom;
pub use store::{Store, StoreInstruction};
pub use types::{Action, MessageFromDatabase, MessageToDatabase, ReplicaInstruction, SequenceNumber, SequenceValue};

//! A small actor runtime core: FIFO queues, actor identities with mailboxes
//! and child registries, and the dispatch and shutdown rules of a fixed pool
//! of workers.
//!
//! Everything here is sequential and has one owner. A runtime that runs the
//! workers on threads keeps an `ActorSystem` behind a lock, sleeps where a
//! step answers that there is nothing to take, and calls the handlers outside
//! the lock.

pub mod actor;
pub mod actor_ref;
pub mod actor_system;
pub mod context;
pub mod dispatch;
pub mod laws;
pub mod message_queue;
pub mod pid;
pub mod root_actor;
pub mod state;
pub mod word_count;

pub use actor::{Actor, Message};
pub use actor_ref::ActorRef;
pub use actor_system::ActorSystem;
pub use context::Context;

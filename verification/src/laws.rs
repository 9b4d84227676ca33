//! What holds of every actor system, whatever was sent and spawned and
//! however the workers took their turns.

pub mod delivery;
pub mod registry;
pub mod shutdown;
pub mod steps;

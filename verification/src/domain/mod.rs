//! Broker identifiers, commands, state-machine rules, and errors.

pub mod codec;
pub mod command;
pub mod error;
pub mod identifier;
pub mod keys;
pub mod machine;
pub mod message;
pub mod naming;
pub mod order;
pub mod queue;
pub mod rule;
pub mod selection;
pub mod session;
pub mod time;
pub mod topic;
pub mod wire;

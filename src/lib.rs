//! A small finite-state-machine runtime: a transition table read from a
//! configuration, a current state that follows the events it is fed, and a
//! registry of named actions that matching transitions ask to be run.

pub mod config;
pub mod events;
pub mod machine;

pub use config::{ConfigError, ConfigLoader, JsonFileLoader, StateMachineConfig, Transition};
pub use events::{EventListener, SimpleEventListener};
pub use machine::{Dispatch, RegisteredAction, StateMachine};

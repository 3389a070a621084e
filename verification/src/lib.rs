//! Counters of the days since an event, kept per chat community.
//!
//! An event has a name that is unique within its community, a description and
//! the moment from which it is counted. [`store::EventStore`] keeps the events
//! of all communities under their keys; [`commands`] holds the operations that
//! a community can ask for, and [`model`] says what each of them does;
//! [`backend`] leads from the flat keys of a durable key-value storage to the
//! store.

pub mod backend;
pub mod commands;
pub mod error;
pub mod key;
pub mod laws;
pub mod model;
pub mod reply;
pub mod store;
pub mod text;
pub mod time;

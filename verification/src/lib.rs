//! Durable delivery core of a webhook receiver.
//!
//! Inbound webhooks wait in a store as events. Workers lease events, try to
//! deliver them, and report how it went; the store keeps every event under at
//! most one lease, bounds the retries, and holds deliveries back from an
//! endpoint that keeps failing. An inspector lists events and attempts and
//! replays an event as a new one.
//!
//! The store is modelled as its four tables ([`tables`]), every column as
//! persisted. The operations on it are [`dispatcher::lease_events`],
//! [`dispatcher::report_delivery`] and, in [`inspector`], `list_events`,
//! `get_event`, `list_attempts` and `replay_event`; [`handlers`] puts the
//! checks of the transport in front of them. Each operation is one step: the
//! caller runs it inside a transaction, hands in the time and the ids it
//! drew, and persists what the step left. What holds across steps is stated
//! and proved in [`guarantees`].
//!
//! Reading and writing timestamps, UUIDs, JSON and base64 is left to `chrono`,
//! `uuid`, `serde_json` and `base64`, and comparing tokens to `subtle`. What
//! those crates return is named in [`time`], [`ids`], [`json`] and [`codec`]
//! and taken on trust; everything else is proved.

pub mod auth;
pub mod codec;
pub mod dispatcher;
pub mod error;
pub mod guarantees;
pub mod handlers;
pub mod ids;
pub mod inspector;
pub mod json;
pub mod order;
pub mod rows;
pub mod tables;
pub mod text;
pub mod time;
pub mod types;

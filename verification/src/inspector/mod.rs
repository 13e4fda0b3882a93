//! Looking into the store: listings, one event in full, its attempts, and
//! replay.

pub mod store;

pub use store::{
    get_event, list_attempts, list_events, replay_event, InspectorCursor, ListEventsParams,
    ListEventsResult,
};
pub use crate::tables::StoreError;

//! What the transport does with a request once it has been read: check it,
//! hand it to the store, and shape the answer.

pub mod dispatcher;
pub mod inspector;

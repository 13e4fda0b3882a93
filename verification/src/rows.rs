//! Reading what a persisted row holds as text. A row that cannot be read is
//! corrupt, and says so: nothing is skipped or defaulted.

use vstd::prelude::*;

use crate::ids::{read_uuid, uuid_from_text};
use crate::tables::{StoreError, StoreErrorView};
use crate::text::join_text;

verus! {

/// The id that a column holds, or the parse error that begins with `prefix`.
pub open spec fn id_of_text(text: Seq<char>, prefix: Seq<char>) -> Result<u128, StoreErrorView> {
    match uuid_from_text(text) {
        Ok(id) => Ok(id),
        Err(e) => Err(StoreErrorView::Parse(prefix + e)),
    }
}

/// Reads the id that a column holds.
pub fn read_id(text: &str, prefix: &str) -> (r: Result<u128, StoreError>)
    ensures
        match r {
            Ok(id) => id_of_text(text@, prefix@) == Ok::<u128, StoreErrorView>(id),
            Err(e) => id_of_text(text@, prefix@) == Err::<u128, StoreErrorView>(e@),
        },
{
    match read_uuid(text) {
        Ok(id) => Ok(id),
        Err(err) => Err(StoreError::Parse(join_text(prefix, err.as_str()))),
    }
}

/// The event that a row was replayed from: none where the column is null or
/// empty.
pub open spec fn replayed_from(text: Option<Seq<char>>) -> Result<Option<u128>, StoreErrorView> {
    match text {
        None => Ok(None),
        Some(t) => if t.len() == 0 {
            Ok(None)
        } else {
            match id_of_text(t, "invalid replayed_from_event_id: "@) {
                Ok(id) => Ok(Some(id)),
                Err(e) => Err(e),
            }
        },
    }
}

/// Reads the event that a row was replayed from.
pub fn read_replayed_from(text: &Option<String>) -> (r: Result<Option<u128>, StoreError>)
    ensures
        match r {
            Ok(id) => replayed_from(text.deep_view()) == Ok::<Option<u128>, StoreErrorView>(id),
            Err(e) => replayed_from(text.deep_view()) == Err::<Option<u128>, StoreErrorView>(e@),
        },
{
    match text {
        None => Ok(None),
        Some(t) => {
            if t.as_str().unicode_len() == 0 {
                Ok(None)
            } else {
                match read_id(t.as_str(), "invalid replayed_from_event_id: ") {
                    Ok(id) => Ok(Some(id)),
                    Err(e) => Err(e),
                }
            }
        },
    }
}

} // verus!

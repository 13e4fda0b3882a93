use vstd::prelude::*;
use vstd::string::*;
use vstd::utf8::*;

use crate::codec::{decode_base64, encode_base64, url_safe_base64, url_safe_base64_decoded};
use crate::error::{ApiError, ApiErrorView};
use crate::handlers::dispatcher::{api_error_of, map_store_error};
use crate::ids::{read_uuid, uuid_from_text, uuid_text, write_uuid};
use crate::inspector::store::{
    get_event, get_event_outcome, list_attempts, list_attempts_outcome, list_events,
    list_events_outcome, replay_answer, replay_effect, replay_event, replay_refusal,
    InspectorCursor, InspectorCursorView, ListEventsParams, ListEventsParamsView, ListEventsResult,
};
use crate::json::{
    json_string_literal, json_string_member, read_json_string_member, write_json_string,
};
use crate::tables::{Store, StoreError, StoreErrorView};
use crate::text::{copy_text, is_blank, join_text, trim, trimmed};
use crate::time::{parse_instant, rfc3339_instant, Timestamp};
use crate::types::inspector::{GetEventResponseView, ReplayEventResponseView};
use crate::types::{
    GetEventResponse, ListAttemptsResponse, ListEventsResponse, ReplayEventRequest,
    ReplayEventResponse, WebhookEventStatus,
};

verus! {

/// What a client asks a listing for, as the query string holds it.
#[derive(Debug, Clone, PartialEq, Eq)]
pub struct ListEventsQuery {
    pub limit: Option<i64>,
    pub before: Option<String>,
    pub status: Option<String>,
    pub endpoint_id: Option<String>,
    pub provider: Option<String>,
}

/// What a `ListEventsQuery` holds.
pub struct ListEventsQueryView {
    pub limit: Option<i64>,
    pub before: Option<Seq<char>>,
    pub status: Option<Seq<char>>,
    pub endpoint_id: Option<Seq<char>>,
    pub provider: Option<Seq<char>>,
}

impl View for ListEventsQuery {
    type V = ListEventsQueryView;

    open spec fn view(&self) -> ListEventsQueryView {
        ListEventsQueryView {
            limit: self.limit,
            before: self.before.deep_view(),
            status: self.status.deep_view(),
            endpoint_id: self.endpoint_id.deep_view(),
            provider: self.provider.deep_view(),
        }
    }
}

fn invalid(message: &str) -> (r: ApiError)
    ensures
        r@ == (ApiErrorView::Validation { message: message@ }),
{
    ApiError::validation(message)
}

/// The size of a page: fifty unless the client says otherwise, and what the
/// client says brought into the range from one to two hundred.
pub open spec fn page_limit(limit: Option<i64>) -> i64 {
    match limit {
        None => 50,
        Some(n) => if n < 1 {
            1
        } else if n > 200 {
            200
        } else {
            n
        },
    }
}

/// Reads the size of a page. Every size is accepted: one that is too small
/// counts as one, one that is too large as two hundred.
pub fn parse_limit(limit: Option<i64>) -> (r: Result<i64, ApiError>)
    ensures
        r matches Ok(n) && n == page_limit(limit),
        1 <= page_limit(limit) <= 200,
{
    let limit = match limit {
        Some(n) => n,
        None => 50,
    };
    if limit < 1 {
        Ok(1)
    } else if limit > 200 {
        Ok(200)
    } else {
        Ok(limit)
    }
}

/// The id a client names in the field `field`.
pub open spec fn named_id(field: Seq<char>, value: Seq<char>) -> Result<u128, ApiErrorView> {
    match uuid_from_text(value) {
        Ok(id) => Ok(id),
        Err(_) => Err(ApiErrorView::Validation { message: field + " must be a UUID"@ }),
    }
}

/// Reads an id a client names.
pub fn parse_uuid(field: &str, value: &str) -> (r: Result<u128, ApiError>)
    ensures
        match r {
            Ok(id) => named_id(field@, value@) == Ok::<u128, ApiErrorView>(id),
            Err(e) => named_id(field@, value@) == Err::<u128, ApiErrorView>(e@),
        },
{
    match read_uuid(value) {
        Ok(id) => Ok(id),
        Err(_) => Err(ApiError::Validation { message: join_text(field, " must be a UUID") }),
    }
}

/// The status a client names.
pub open spec fn named_status(value: Seq<char>) -> Result<WebhookEventStatus, ApiErrorView> {
    match WebhookEventStatus::from_text(value) {
        Some(s) => Ok(s),
        None => Err(ApiErrorView::Validation { message: "status is invalid"@ }),
    }
}

/// Reads a status a client names.
pub fn parse_status(value: &str) -> (r: Result<WebhookEventStatus, ApiError>)
    ensures
        match r {
            Ok(s) => named_status(value@) == Ok::<WebhookEventStatus, ApiErrorView>(s),
            Err(e) => named_status(value@) == Err::<WebhookEventStatus, ApiErrorView>(e@),
        },
{
    match WebhookEventStatus::parse(value) {
        Some(s) => Ok(s),
        None => Err(invalid("status is invalid")),
    }
}

/// The cursor that a token stands for: the token is URL-safe base64 of a
/// JSON object whose `received_at` is an RFC 3339 timestamp and whose `id` is
/// a UUID.
pub open spec fn cursor_of_token(raw: Seq<char>) -> Option<InspectorCursorView> {
    match url_safe_base64_decoded(raw) {
        None => None,
        Some(doc) => match json_string_member(doc, "received_at"@) {
            None => None,
            Some(received_at) => match json_string_member(doc, "id"@) {
                None => None,
                Some(id) => if rfc3339_instant(received_at) is Ok {
                    match uuid_from_text(id) {
                        Ok(id) => Some(InspectorCursorView { received_at, id }),
                        Err(_) => None,
                    }
                } else {
                    None
                },
            },
        },
    }
}

/// Reads a cursor from the token a client hands back.
pub fn decode_cursor(raw: &str) -> (r: Result<InspectorCursor, ApiError>)
    ensures
        match r {
            Ok(c) => cursor_of_token(raw@) == Some(c@),
            Err(e) => cursor_of_token(raw@) is None && e@ == (ApiErrorView::Validation {
                message: "before must be a valid cursor"@,
            }),
        },
{
    let decoded = match decode_base64(raw) {
        Some(bytes) => bytes,
        None => {
            return Err(invalid("before must be a valid cursor"));
        },
    };
    let received_at = match read_json_string_member(decoded.as_slice(), "received_at") {
        Some(t) => t,
        None => {
            return Err(invalid("before must be a valid cursor"));
        },
    };
    let id = match read_json_string_member(decoded.as_slice(), "id") {
        Some(t) => t,
        None => {
            return Err(invalid("before must be a valid cursor"));
        },
    };
    if parse_instant(received_at.as_str()).is_err() {
        return Err(invalid("before must be a valid cursor"));
    }
    let id = match read_uuid(id.as_str()) {
        Ok(id) => id,
        Err(_) => {
            return Err(invalid("before must be a valid cursor"));
        },
    };
    Ok(InspectorCursor { received_at, id })
}

/// The JSON object that a cursor is written as.
pub open spec fn cursor_document(cursor: InspectorCursorView) -> Option<Seq<char>> {
    match json_string_literal(cursor.received_at) {
        Err(_) => None,
        Ok(received_at) => match json_string_literal(uuid_text(cursor.id)) {
            Err(_) => None,
            Ok(id) => Some("{\"received_at\":"@ + received_at + ",\"id\":"@ + id + "}"@),
        },
    }
}

/// The token that stands for a cursor.
pub open spec fn token_of_cursor(cursor: InspectorCursorView) -> Result<Seq<char>, ApiErrorView> {
    match cursor_document(cursor) {
        Some(doc) => Ok(url_safe_base64(encode_utf8(doc))),
        None => Err(ApiErrorView::Internal { message: "failed to encode cursor"@ }),
    }
}

/// Writes a cursor as the token a client hands back for the next page.
pub fn encode_cursor(cursor: &InspectorCursor) -> (r: Result<String, ApiError>)
    ensures
        match r {
            Ok(token) => token_of_cursor(cursor@) == Ok::<Seq<char>, ApiErrorView>(token@),
            Err(e) => token_of_cursor(cursor@) == Err::<Seq<char>, ApiErrorView>(e@),
        },
{
    let received_at = match write_json_string(cursor.received_at.as_str()) {
        Ok(text) => text,
        Err(_) => {
            return Err(ApiError::internal("failed to encode cursor"));
        },
    };
    let id = match write_json_string(write_uuid(cursor.id).as_str()) {
        Ok(text) => text,
        Err(_) => {
            return Err(ApiError::internal("failed to encode cursor"));
        },
    };
    let doc = join_text("{\"received_at\":", received_at.as_str());
    let doc = doc.concat(",\"id\":");
    let doc = doc.concat(id.as_str());
    let doc = doc.concat("}");
    Ok(encode_base64(doc.as_str().as_bytes()))
}

/// The provider a client names: white space around it dropped, and not
/// empty.
pub open spec fn named_provider(value: Seq<char>) -> Result<Seq<char>, ApiErrorView> {
    if is_blank(value) {
        Err(ApiErrorView::Validation { message: "provider must be non-empty"@ })
    } else {
        Ok(trimmed(value))
    }
}

/// What a query asks the store for, or what is wrong with it. The limit is
/// brought into range; the other fields are checked in this order: cursor,
/// status, endpoint, provider.
pub open spec fn params_of_query(query: ListEventsQueryView) -> Result<
    ListEventsParamsView,
    ApiErrorView,
> {
    match query_cursor(query.before) {
        Err(e) => Err(e),
        Ok(before) => match query_status(query.status) {
            Err(e) => Err(e),
            Ok(status) => match query_endpoint(query.endpoint_id) {
                Err(e) => Err(e),
                Ok(endpoint_id) => match query_provider(query.provider) {
                    Err(e) => Err(e),
                    Ok(provider) => Ok(
                        ListEventsParamsView {
                            limit: page_limit(query.limit),
                            before,
                            status,
                            endpoint_id,
                            provider,
                        },
                    ),
                },
            },
        },
    }
}

pub open spec fn query_cursor(before: Option<Seq<char>>) -> Result<
    Option<InspectorCursorView>,
    ApiErrorView,
> {
    match before {
        None => Ok(None),
        Some(raw) => match cursor_of_token(raw) {
            Some(c) => Ok(Some(c)),
            None => Err(ApiErrorView::Validation { message: "before must be a valid cursor"@ }),
        },
    }
}

pub open spec fn query_status(status: Option<Seq<char>>) -> Result<
    Option<WebhookEventStatus>,
    ApiErrorView,
> {
    match status {
        None => Ok(None),
        Some(raw) => match named_status(raw) {
            Ok(s) => Ok(Some(s)),
            Err(e) => Err(e),
        },
    }
}

pub open spec fn query_endpoint(endpoint_id: Option<Seq<char>>) -> Result<
    Option<u128>,
    ApiErrorView,
> {
    match endpoint_id {
        None => Ok(None),
        Some(raw) => match named_id("endpoint_id"@, raw) {
            Ok(id) => Ok(Some(id)),
            Err(e) => Err(e),
        },
    }
}

pub open spec fn query_provider(provider: Option<Seq<char>>) -> Result<
    Option<Seq<char>>,
    ApiErrorView,
> {
    match provider {
        None => Ok(None),
        Some(raw) => match named_provider(raw) {
            Ok(p) => Ok(Some(p)),
            Err(e) => Err(e),
        },
    }
}

/// Reads a query into what the store is asked for.
pub fn read_query(query: &ListEventsQuery) -> (r: Result<ListEventsParams, ApiError>)
    ensures
        match r {
            Ok(p) => params_of_query(query@) == Ok::<ListEventsParamsView, ApiErrorView>(p@),
            Err(e) => params_of_query(query@) == Err::<ListEventsParamsView, ApiErrorView>(e@),
        },
{
    let limit = match parse_limit(query.limit) {
        Ok(n) => n,
        Err(e) => {
            return Err(e);
        },
    };
    let before = match &query.before {
        Some(raw) => match decode_cursor(raw.as_str()) {
            Ok(c) => Some(c),
            Err(e) => {
                return Err(e);
            },
        },
        None => None,
    };
    let status = match &query.status {
        Some(raw) => match parse_status(raw.as_str()) {
            Ok(s) => Some(s),
            Err(e) => {
                return Err(e);
            },
        },
        None => None,
    };
    let endpoint_id = match &query.endpoint_id {
        Some(raw) => match parse_uuid("endpoint_id", raw.as_str()) {
            Ok(id) => Some(id),
            Err(e) => {
                return Err(e);
            },
        },
        None => None,
    };
    let provider = match &query.provider {
        Some(raw) => {
            let trimmed = trim(raw.as_str());
            if trimmed.unicode_len() == 0 {
                return Err(invalid("provider must be non-empty"));
            }
            Some(copy_text(trimmed))
        },
        None => None,
    };
    Ok(ListEventsParams { limit, before, status, endpoint_id, provider })
}

/// The answer `r` is the page `inner` of the store, its cursor written as a
/// token and an error turned into the transport's.
pub open spec fn listing_answer(
    inner: Result<ListEventsResult, StoreError>,
    r: Result<ListEventsResponse, ApiError>,
) -> bool {
    match inner {
        Err(err) => r matches Err(e) && e@ == api_error_of(err@),
        Ok(page) => match page.next_before {
            None => r matches Ok(res) && res.events == page.events && res.next_before is None,
            Some(cursor) => match token_of_cursor(cursor@) {
                Err(err) => r matches Err(e) && e@ == err,
                Ok(token) => r matches Ok(res) && res.events == page.events
                    && res.next_before.deep_view() == Some(token),
            },
        },
    }
}

/// Serves a listing: a query that is not valid is answered with its fault; a
/// valid one is handed to `list_events`.
pub fn list_events_handler(store: &Store, query: &ListEventsQuery) -> (r: Result<
    ListEventsResponse,
    ApiError,
>)
    requires
        store.wf(),
    ensures
        match params_of_query(query@) {
            Err(err) => r matches Err(e) && e@ == err,
            Ok(params) => exists|order: Seq<int>, inner: Result<ListEventsResult, StoreError>|
                #![trigger list_events_outcome(store@, params, order, inner)]
                list_events_outcome(store@, params, order, inner) && listing_answer(inner, r),
        },
{
    let params = match read_query(query) {
        Ok(p) => p,
        Err(e) => {
            return Err(e);
        },
    };
    let inner = list_events(store, &params);
    let ghost kept = inner;
    let r = match inner {
        Err(err) => Err(map_store_error(err)),
        Ok(page) => {
            let next_before = match &page.next_before {
                Some(cursor) => match encode_cursor(cursor) {
                    Ok(token) => Some(token),
                    Err(e) => {
                        let r = Err(e);
                        assert(listing_answer(kept, r));
                        return r;
                    },
                },
                None => None,
            };
            Ok(ListEventsResponse { events: page.events, next_before })
        },
    };
    assert(listing_answer(kept, r));
    r
}

/// What asking for one event under the id text `event_id` comes to.
pub open spec fn get_event_answer(store: crate::tables::StoreView, event_id: Seq<char>) -> Result<
    GetEventResponseView,
    ApiErrorView,
> {
    match named_id("event_id"@, event_id) {
        Err(e) => Err(e),
        Ok(id) => match get_event_outcome(store, id) {
            Ok(res) => Ok(res),
            Err(err) => Err(api_error_of(err)),
        },
    }
}

/// Serves one event in full.
pub fn get_event_handler(store: &Store, event_id: &str) -> (r: Result<GetEventResponse, ApiError>)
    requires
        store.wf(),
    ensures
        match r {
            Ok(res) => get_event_answer(store@, event_id@) == Ok::<
                GetEventResponseView,
                ApiErrorView,
            >(res@),
            Err(e) => get_event_answer(store@, event_id@) == Err::<
                GetEventResponseView,
                ApiErrorView,
            >(e@),
        },
{
    let id = match parse_uuid("event_id", event_id) {
        Ok(id) => id,
        Err(e) => {
            return Err(e);
        },
    };
    match get_event(store, id) {
        Ok(res) => Ok(res),
        Err(err) => Err(map_store_error(err)),
    }
}

/// The answer `r` is the store's answer `inner`, an error turned into the
/// transport's.
pub open spec fn attempts_answer(
    inner: Result<ListAttemptsResponse, StoreError>,
    r: Result<ListAttemptsResponse, ApiError>,
) -> bool {
    match inner {
        Ok(res) => r == Ok::<ListAttemptsResponse, ApiError>(res),
        Err(err) => r matches Err(e) && e@ == api_error_of(err@),
    }
}

/// Asking for the attempts of the event under the id text `event_id` came
/// to `r`: the fault of the id, or the answer `inner` of the store for the
/// attempts at `order`.
pub open spec fn attempts_served(
    store: crate::tables::StoreView,
    event_id: Seq<char>,
    order: Seq<int>,
    inner: Result<ListAttemptsResponse, StoreError>,
    r: Result<ListAttemptsResponse, ApiError>,
) -> bool {
    match named_id("event_id"@, event_id) {
        Err(err) => r matches Err(e) && e@ == err,
        Ok(id) => list_attempts_outcome(store, id, order, inner) && attempts_answer(inner, r),
    }
}

/// Serves the attempts made on an event.
pub fn list_attempts_handler(store: &Store, event_id: &str) -> (r: Result<
    ListAttemptsResponse,
    ApiError,
>)
    ensures
        exists|order: Seq<int>, inner: Result<ListAttemptsResponse, StoreError>|
            attempts_served(store@, event_id@, order, inner, r),
{
    let id = match parse_uuid("event_id", event_id) {
        Ok(id) => id,
        Err(e) => {
            let r = Err(e);
            assert(attempts_served(
                store@,
                event_id@,
                Seq::<int>::empty(),
                arbitrary::<Result<ListAttemptsResponse, StoreError>>(),
                r,
            ));
            return r;
        },
    };
    let inner = list_attempts(store, id);
    let ghost kept = inner;
    let ghost order = choose|order: Seq<int>| list_attempts_outcome(store@, id, order, kept);
    let r = match inner {
        Ok(res) => Ok(res),
        Err(err) => Err(map_store_error(err)),
    };
    assert(attempts_served(store@, event_id@, order, kept, r));
    r
}

/// Serves a replay at `now`, the new event to go under `new_event_id`. The
/// circuit is left alone unless the request asks for a reset.
pub fn replay_event_handler(
    store: &mut Store,
    event_id: &str,
    req: &ReplayEventRequest,
    now: Timestamp,
    new_event_id: u128,
) -> (r: Result<ReplayEventResponse, ApiError>)
    requires
        old(store).wf(),
    ensures
        final(store).wf(),
        match named_id("event_id"@, event_id@) {
            Err(err) => r matches Err(e) && e@ == err && final(store)@ == old(store)@,
            Ok(id) => match replay_refusal(old(store)@, id, now, new_event_id) {
                Some(err) => r matches Err(e) && e@ == api_error_of(err) && final(store)@ == old(
                    store,
                )@,
                None => final(store)@ == replay_effect(
                    old(store)@,
                    id,
                    req.reset_circuit == Some(true),
                    new_event_id,
                ) && match r {
                    Ok(res) => replay_answer(final(store)@, id, new_event_id) == Ok::<
                        ReplayEventResponseView,
                        StoreErrorView,
                    >(res@),
                    Err(e) => replay_answer(final(store)@, id, new_event_id) matches Err(err)
                        && e@ == api_error_of(err),
                },
            },
        },
{
    let id = match parse_uuid("event_id", event_id) {
        Ok(id) => id,
        Err(e) => {
            return Err(e);
        },
    };
    let reset_circuit = match req.reset_circuit {
        Some(flag) => flag,
        None => false,
    };
    match replay_event(store, id, reset_circuit, now, new_event_id) {
        Ok(res) => Ok(res),
        Err(err) => Err(map_store_error(err)),
    }
}

} // verus!

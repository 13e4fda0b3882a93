//! Who may look into the store.

use vstd::prelude::*;
use vstd::string::*;

use crate::error::{ApiError, ApiErrorView};
use crate::text::{
    same_ignoring_ascii_case, starts_with_ignoring_ascii_case, trim, trim_start, trimmed,
    trimmed_start,
};

verus! {

/// Compares with `subtle::ConstantTimeEq::ct_eq` on byte slices, which says
/// one exactly where the two are of one length and hold the same bytes, and
/// takes the same time whatever the bytes are.
#[verifier::external_body]
fn ct_eq_bytes(a: &[u8], b: &[u8]) -> (r: bool)
    ensures
        r == (a@ == b@),
{
    subtle::ConstantTimeEq::ct_eq(a, b).into()
}

/// Whether the two hold the same bytes, found out without giving away where
/// they differ.
pub fn constant_time_eq(a: &[u8], b: &[u8]) -> (r: bool)
    ensures
        r == (a@ == b@),
{
    ct_eq_bytes(a, b)
}

/// The token that an `Authorization` header carries: what follows `Bearer`
/// and a space, in any case, white space around it dropped. White space
/// before `Bearer` is allowed.
pub open spec fn bearer_token(header: Seq<char>) -> Option<Seq<char>> {
    let rest = trimmed_start(header);
    if rest.len() >= 7 && same_ignoring_ascii_case(rest.subrange(0, 7), "bearer "@) {
        Some(trimmed(rest.subrange(7, rest.len() as int)))
    } else {
        None
    }
}

/// Whether a request may pass: always where no token is configured, and
/// else where its `Authorization` header carries the configured token.
pub open spec fn authorization(expected: Option<Seq<char>>, header: Option<Seq<char>>) -> Result<
    (),
    ApiErrorView,
> {
    match expected {
        None => Ok(()),
        Some(expected) => match header {
            None => Err(
                ApiErrorView::Unauthorized { message: "missing or invalid Authorization header"@ },
            ),
            Some(header) => match bearer_token(header) {
                None => Err(
                    ApiErrorView::Unauthorized {
                        message: "missing or invalid Authorization header"@,
                    },
                ),
                Some(token) => if token == expected {
                    Ok(())
                } else {
                    Err(ApiErrorView::Unauthorized { message: "invalid token"@ })
                },
            },
        },
    }
}

/// Finds the token in an `Authorization` header.
pub fn read_bearer_token(header: &str) -> (r: Option<&str>)
    ensures
        r.deep_view() == bearer_token(header@),
{
    let rest = trim_start(header);
    proof {
        reveal_strlit("bearer ");
    }
    if starts_with_ignoring_ascii_case(rest, "bearer ") {
        let len = rest.unicode_len();
        Some(trim(rest.substring_char(7, len)))
    } else {
        None
    }
}

/// Decides whether a request to the inspector may pass. `expected_token` is
/// the configured token, if one is configured; `header` is the value of the
/// request's `Authorization` header, if it has one that is text.
pub fn inspector_auth(expected_token: Option<&str>, header: Option<&str>) -> (r: Result<
    (),
    ApiError,
>)
    ensures
        match r {
            Ok(_) => authorization(expected_token.deep_view(), header.deep_view()) is Ok,
            Err(e) => authorization(expected_token.deep_view(), header.deep_view()) == Err::<
                (),
                ApiErrorView,
            >(e@),
        },
{
    let expected = match expected_token {
        Some(t) => t,
        None => {
            return Ok(());
        },
    };
    let provided = match header {
        Some(value) => match read_bearer_token(value) {
            Some(token) => token,
            None => {
                return Err(ApiError::unauthorized("missing or invalid Authorization header"));
            },
        },
        None => {
            return Err(ApiError::unauthorized("missing or invalid Authorization header"));
        },
    };
    proof {
        crate::text::lemma_text_by_bytes(expected@, provided@);
    }
    if !constant_time_eq(expected.as_bytes(), provided.as_bytes()) {
        return Err(ApiError::unauthorized("invalid token"));
    }
    Ok(())
}

} // verus!

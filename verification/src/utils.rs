//! Small helpers shared by the request handlers.

use crate::idempotency::persistence::{HeaderPairRecord, HeaderPairView, Response, ResponseView};
use vstd::prelude::*;

verus! {

/// The redirection to `location`: status 303, one `location` header that
/// holds the bytes of `location`, and an empty body.
pub open spec fn see_other_view(location: Seq<char>) -> ResponseView {
    ResponseView {
        status_code: 303,
        headers: seq![
            HeaderPairView { name: "location"@, value: vstd::utf8::encode_utf8(location) },
        ],
        body: Seq::empty(),
    }
}

/// Builds the redirection to `location`.
pub fn see_other(location: &str) -> (response: Response)
    ensures
        response@ == see_other_view(location@),
{
    let mut headers: Vec<HeaderPairRecord> = Vec::new();
    headers.push(
        HeaderPairRecord { name: String::from_str("location"), value: location.as_bytes_vec() },
    );
    let body: Vec<u8> = Vec::new();
    assert(headers.deep_view() =~= see_other_view(location@).headers);
    Response::new(303, headers, body).unwrap()
}

} // verus!

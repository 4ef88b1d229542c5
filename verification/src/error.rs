//! The two canonical failure responses: every failure a client can see
//! resolves to one of these.

use vstd::prelude::*;
use vstd::string::StrSliceExecFns;
use vstd::utf8::encode_utf8;

use crate::http::{is_resp, Response, StatusCode};

verus! {

/// The ways a raw buffer can fail to parse as a request. All of them are
/// collapsed to the Internal-Server-Error response at the dispatch boundary.
#[derive(PartialEq, Eq, Structural, Clone, Copy, Debug)]
pub enum ParseError {
    InvalidEncoding,
    MalformedRequestLine,
    UnsupportedMethod,
}

/// Whether `r` is the canonical Not-Found response: status 404, reason
/// "Not Found", no headers, body "Not Found".
pub open spec fn is_not_found(r: Response) -> bool {
    is_resp(r, 404, StatusCode::NotFound, encode_utf8("Not Found"@))
}

/// Whether `r` is the canonical Internal-Server-Error response: status 500,
/// reason "InternalServerError", no headers, body "Internal Server Error".
pub open spec fn is_internal_error(r: Response) -> bool {
    is_resp(r, 500, StatusCode::InternalServerError, encode_utf8("Internal Server Error"@))
}

/// Build the canonical Internal-Server-Error response.
pub fn build_internal_server_error() -> (r: Response)
    ensures
        is_internal_error(r),
{
    Response {
        status_code: 500,
        status_line: StatusCode::InternalServerError,
        headers: Vec::new(),
        body: "Internal Server Error".as_bytes_vec(),
    }
}

/// Build the canonical Not-Found response.
pub fn build_not_found_error() -> (r: Response)
    ensures
        is_not_found(r),
{
    Response {
        status_code: 404,
        status_line: StatusCode::NotFound,
        headers: Vec::new(),
        body: "Not Found".as_bytes_vec(),
    }
}

} // verus!

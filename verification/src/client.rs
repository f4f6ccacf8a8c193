//! Client-side protocol logic: building one request frame, and
//! interpreting the one response each call awaits.
//!
//! The connection itself (connect, write, flush, read) lives outside the
//! library. For each public call the caller writes the frame returned by
//! [`request_frame`], reads back one frame, decodes it with
//! [`crate::codec::decode_response`], and hands the result to the
//! interpreter of the call it made: a response of the expected tag yields
//! the call's result, a server-reported error or a response of any other
//! tag yields an error, and so does a missing response.

use vstd::prelude::*;

use crate::codec::{enc_request, encode_request, request_fits};
use crate::error::KvsError;
use crate::protocol::{Request, Response};
use crate::wire::{frame_of, make_frame};

verus! {

/// The complete frame carrying one request: header, then encoded payload.
/// `None` exactly when a field is too long for the frame's length prefixes.
pub fn request_frame(req: &Request) -> (r: Option<Vec<u8>>)
    ensures
        match r {
            Some(f) => request_fits(req@) && enc_request(req@).len() <= u32::MAX && f@
                == frame_of(enc_request(req@)),
            None => !(request_fits(req@) && enc_request(req@).len() <= u32::MAX),
        },
{
    match encode_request(req) {
        Some(payload) => {
            if payload.len() <= (u32::MAX as usize) {
                Some(make_frame(payload))
            } else {
                None
            }
        },
        None => None,
    }
}

/// The result of a get call: the optional value of a get response, a
/// server-reported error's message, and otherwise the invalid-response or
/// no-response error.
pub fn interpret_get(resp: Option<Response>) -> (r: Result<Option<String>, KvsError>)
    ensures
        match resp {
            Some(rv) => match rv {
                Response::Get(v) => r matches Ok(out) && out.deep_view() == v.deep_view(),
                Response::Error(m) => (r matches Err(e) && e matches KvsError::StringError(s)
                    && s@ == m@),
                _ => (r matches Err(e) && e.message_view() == "Invalid response"@),
            },
            None => r matches Err(e) && e.message_view() == "No response received"@,
        },
{
    match resp {
        Some(Response::Get(v)) => Ok(v),
        Some(Response::Error(m)) => Err(KvsError::StringError(m)),
        Some(_) => Err(KvsError::StringError("Invalid response".to_owned())),
        None => Err(KvsError::StringError("No response received".to_owned())),
    }
}

/// The result of a set call: the put acknowledgement, with the same error
/// taxonomy as a get.
pub fn interpret_set(resp: Option<Response>) -> (r: Result<(), KvsError>)
    ensures
        match resp {
            Some(rv) => match rv {
                Response::Put => r is Ok,
                Response::Error(m) => (r matches Err(e) && e matches KvsError::StringError(s)
                    && s@ == m@),
                _ => (r matches Err(e) && e.message_view() == "Invalid response"@),
            },
            None => r matches Err(e) && e.message_view() == "No response received"@,
        },
{
    match resp {
        Some(Response::Put) => Ok(()),
        Some(Response::Error(m)) => Err(KvsError::StringError(m)),
        Some(_) => Err(KvsError::StringError("Invalid response".to_owned())),
        None => Err(KvsError::StringError("No response received".to_owned())),
    }
}

/// The result of a remove call: the remove acknowledgement, with the same
/// error taxonomy as a get.
pub fn interpret_remove(resp: Option<Response>) -> (r: Result<(), KvsError>)
    ensures
        match resp {
            Some(rv) => match rv {
                Response::Remove => r is Ok,
                Response::Error(m) => (r matches Err(e) && e matches KvsError::StringError(s)
                    && s@ == m@),
                _ => (r matches Err(e) && e.message_view() == "Invalid response"@),
            },
            None => r matches Err(e) && e.message_view() == "No response received"@,
        },
{
    match resp {
        Some(Response::Remove) => Ok(()),
        Some(Response::Error(m)) => Err(KvsError::StringError(m)),
        Some(_) => Err(KvsError::StringError("Invalid response".to_owned())),
        None => Err(KvsError::StringError("No response received".to_owned())),
    }
}

/// The result of a scan call: the matched keys of a scan response — an
/// empty list comes back as-is, distinct from any error — with the same
/// error taxonomy as a get.
pub fn interpret_scan(resp: Option<Response>) -> (r: Result<Vec<String>, KvsError>)
    ensures
        match resp {
            Some(rv) => match rv {
                Response::Scan(values) => (r matches Ok(out) && out.deep_view()
                    == values.deep_view()),
                Response::Error(m) => (r matches Err(e) && e matches KvsError::StringError(s)
                    && s@ == m@),
                _ => (r matches Err(e) && e.message_view() == "Invalid response"@),
            },
            None => r matches Err(e) && e.message_view() == "No response received"@,
        },
{
    match resp {
        Some(Response::Scan(values)) => Ok(values),
        Some(Response::Error(m)) => Err(KvsError::StringError(m)),
        Some(_) => Err(KvsError::StringError("Invalid response".to_owned())),
        None => Err(KvsError::StringError("No response received".to_owned())),
    }
}

} // verus!

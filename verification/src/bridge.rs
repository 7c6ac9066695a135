//! The framing of requests to the calendar helper process and the reading of its replies.
use crate::format::push_str;
use vstd::prelude::*;

verus! {

/// The error that the helper reports for a request it could not serve.
pub struct BridgeError {
    pub code: String,
    pub message: String,
}

/// A request's bytes as they go down the pipe: the encoded request and a line break.
pub fn frame_request(payload: Vec<u8>) -> (r: Vec<u8>)
    ensures
        r@ == payload@.push(10u8),
{
    let mut r = payload;
    r.push(10u8);
    r
}

/// What a decoded reply comes to. A reply to another request is refused; a reply that
/// succeeds gives its result, and is refused when it has none; a failed reply gives the
/// helper's `code: message`, or `unknown: Unknown EventKit error` when it sent no error.
pub open spec fn reply_outcome_of<T>(
    request_id: u64,
    reply_id: u64,
    ok: bool,
    result: Option<T>,
    error: Option<(Seq<char>, Seq<char>)>,
) -> Result<T, Seq<char>> {
    if reply_id != request_id {
        Err("EventKit bridge response id did not match request"@)
    } else if ok {
        match result {
            Some(v) => Ok(v),
            None => Err("EventKit bridge returned an empty result"@),
        }
    } else {
        match error {
            Some((code, message)) => Err(code + ": "@ + message),
            None => Err("unknown: Unknown EventKit error"@),
        }
    }
}

/// The plain-value form of an outcome.
pub open spec fn outcome_view<T>(r: Result<T, String>) -> Result<T, Seq<char>> {
    match r {
        Ok(v) => Ok(v),
        Err(m) => Err(m@),
    }
}

/// What a decoded reply comes to (see `reply_outcome_of`).
pub fn reply_outcome<T>(
    request_id: u64,
    reply_id: u64,
    ok: bool,
    result: Option<T>,
    error: Option<BridgeError>,
) -> (r: Result<T, String>)
    ensures
        outcome_view(r) == reply_outcome_of(
            request_id,
            reply_id,
            ok,
            result,
            match error {
                Some(e) => Some((e.code@, e.message@)),
                None => None,
            },
        ),
{
    proof {
        reveal_strlit("EventKit bridge response id did not match request");
        reveal_strlit("EventKit bridge returned an empty result");
        reveal_strlit("unknown: Unknown EventKit error");
        reveal_strlit(": ");
    }
    if reply_id != request_id {
        return Err(String::from_str("EventKit bridge response id did not match request"));
    }
    if ok {
        match result {
            Some(v) => Ok(v),
            None => Err(String::from_str("EventKit bridge returned an empty result")),
        }
    } else {
        match error {
            Some(e) => {
                let mut text = e.code;
                push_str(&mut text, ": ");
                push_str(&mut text, e.message.as_str());
                Err(text)
            },
            None => Err(String::from_str("unknown: Unknown EventKit error")),
        }
    }
}

} // verus!

use vstd::prelude::*;

verus! {

/// A request to add two numbers.
#[derive(Debug, Clone, Copy, PartialEq, Eq, Structural)]
pub struct RequestAdd {
    pub v1: i32,
    pub v2: i32,
}

/// A message from a foreign caller.
#[derive(Debug, Clone, Copy, PartialEq, Eq, Structural)]
pub struct ToRust {
    pub request_add: Option<RequestAdd>,
}

/// The answer to a [`ToRust`] message.
#[derive(Debug, Clone, Copy, PartialEq, Eq, Structural)]
pub struct FromRust {
    pub add_result: i32,
}

/// The reply length that tells a foreign caller that its request could not
/// be decoded.
pub const DECODE_FAILURE: usize = 1;

/// Whether the sum that a request asks for fits in an `i32`.
pub open spec fn sum_fits(request: ToRust) -> bool {
    match request.request_add {
        Some(add) => i32::MIN <= add.v1 + add.v2 <= i32::MAX,
        None => true,
    }
}

/// The answer to a request: the sum it asks for, or zero when it asks for none.
pub open spec fn spec_process_request(request: ToRust) -> FromRust {
    FromRust {
        add_result: match request.request_add {
            Some(add) => (add.v1 + add.v2) as i32,
            None => 0,
        },
    }
}

/// Answers a request.
pub fn process_request(request: ToRust) -> (r: FromRust)
    requires
        sum_fits(request),
    ensures
        r == spec_process_request(request),
{
    let mut retval = FromRust { add_result: 0 };
    if let Some(add_req) = request.request_add {
        retval.add_result = add_req.v1 + add_req.v2;
    }
    retval
}

/// What a foreign caller gets for its message: the answer when the message
/// decoded, or the error length [`DECODE_FAILURE`] when it did not.
pub fn reply(decoded: Option<ToRust>) -> (r: Result<FromRust, usize>)
    requires
        decoded matches Some(request) ==> sum_fits(request),
    ensures
        match decoded {
            Some(request) => r == Ok::<FromRust, usize>(spec_process_request(request)),
            None => r == Err::<FromRust, usize>(DECODE_FAILURE),
        },
{
    match decoded {
        Some(request) => Ok(process_request(request)),
        None => Err(DECODE_FAILURE),
    }
}

/// The answer to an add request is the integer sum of its two operands,
/// whatever their signs, and a request without an add is answered with zero;
/// [`reply`] passes that answer on for every decoded request.
pub proof fn law_answer_is_sum(v1: i32, v2: i32)
    requires
        i32::MIN <= v1 + v2 <= i32::MAX,
    ensures
        spec_process_request(ToRust { request_add: Some(RequestAdd { v1, v2 }) }).add_result == v1
            + v2,
        spec_process_request(ToRust { request_add: None }).add_result == 0,
{
}

} // verus!

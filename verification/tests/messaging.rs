use proto_bridge::messaging::{process_request, reply, FromRust, RequestAdd, ToRust, DECODE_FAILURE};

#[test]
fn process_request_adds() {
    let r = process_request(ToRust { request_add: Some(RequestAdd { v1: 2, v2: 3 }) });
    assert_eq!(r, FromRust { add_result: 5 });
    let r = process_request(ToRust { request_add: Some(RequestAdd { v1: -7, v2: 3 }) });
    assert_eq!(r.add_result, -4);
}

#[test]
fn process_request_without_add() {
    assert_eq!(process_request(ToRust { request_add: None }), FromRust { add_result: 0 });
}

#[test]
fn reply_to_undecodable_message() {
    assert_eq!(reply(None), Err(DECODE_FAILURE));
    assert_eq!(DECODE_FAILURE, 1);
}

#[test]
fn reply_to_request() {
    let r = reply(Some(ToRust { request_add: Some(RequestAdd { v1: 40, v2: 2 }) }));
    assert_eq!(r, Ok(FromRust { add_result: 42 }));
}

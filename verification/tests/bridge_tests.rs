use kalendar::bridge::{frame_request, reply_outcome, BridgeError};

#[test]
fn requests_end_with_a_line_break() {
    assert_eq!(frame_request(b"{\"id\":1}".to_vec()), b"{\"id\":1}\n".to_vec());
    assert_eq!(frame_request(Vec::new()), vec![b'\n']);
}

#[test]
fn replies_to_other_requests_are_refused() {
    let outcome = reply_outcome(4, 5, true, Some(7), None);
    assert_eq!(outcome, Err("EventKit bridge response id did not match request".to_string()));
}

#[test]
fn successful_replies_give_their_result() {
    assert_eq!(reply_outcome(4, 4, true, Some(7), None), Ok(7));
    assert_eq!(
        reply_outcome::<u32>(4, 4, true, None, None),
        Err("EventKit bridge returned an empty result".to_string())
    );
}

#[test]
fn failed_replies_give_the_helper_error() {
    let error = BridgeError { code: "denied".into(), message: "Calendar access was denied".into() };
    assert_eq!(
        reply_outcome::<u32>(4, 4, false, Some(7), Some(error)),
        Err("denied: Calendar access was denied".to_string())
    );
    assert_eq!(
        reply_outcome::<u32>(4, 4, false, None, None),
        Err("unknown: Unknown EventKit error".to_string())
    );
}

use dlnzb::protocol::{
    auth_pass_decision, auth_user_decision, body_command, greeting_ok, group_command, group_ok,
    needs_group_select, noop_ok, plan_pipeline_commands, process_body_line, redact_auth_response,
    response_code, AuthStep, BodyLine, PipelineReader, ReadDirective, SegmentRequest,
};

fn req(id: &[u8], number: u32) -> SegmentRequest {
    SegmentRequest {
        message_id: id.to_vec(),
        group: b"alt.binaries.test".to_vec(),
        segment_number: number,
    }
}

#[test]
fn test_response_codes() {
    assert_eq!(response_code(b"222 0 <x> body follows"), Some(222));
    assert_eq!(response_code(b"430 no such article"), Some(430));
    assert_eq!(response_code(b"hi"), None);
    assert_eq!(response_code(b"2x2 nope"), None);
    assert!(greeting_ok(b"200 ready"));
    assert!(greeting_ok(b"201 ready, no posting"));
    assert!(!greeting_ok(b"400 unavailable"));
    assert!(group_ok(b"211 5 1 5 alt.binaries.test"));
    assert!(!group_ok(b"411 no such group"));
    assert!(noop_ok(b"200 ok"));
    assert!(!noop_ok(b"500 what"));
}

#[test]
fn test_command_framing() {
    assert_eq!(body_command(b"id@host"), b"BODY <id@host>\r\n".to_vec());
    assert_eq!(
        group_command(b"alt.binaries.test"),
        b"GROUP alt.binaries.test\r\n".to_vec()
    );
    let cmds = plan_pipeline_commands(&vec![req(b"a@x", 1), req(b"b@x", 2)]);
    assert_eq!(cmds, vec![b"BODY <a@x>\r\n".to_vec(), b"BODY <b@x>\r\n".to_vec()]);
}

#[test]
fn test_group_caching() {
    assert!(needs_group_select(&None, b"alt.binaries.test"));
    assert!(!needs_group_select(
        &Some(b"alt.binaries.test".to_vec()),
        b"alt.binaries.test"
    ));
    assert!(needs_group_select(
        &Some(b"alt.binaries.other".to_vec()),
        b"alt.binaries.test"
    ));
}

#[test]
fn test_body_line_processing() {
    assert!(matches!(process_body_line(b".\r\n"), BodyLine::Terminator));
    assert!(matches!(process_body_line(b".\n"), BodyLine::Terminator));
    match process_body_line(b"..leading dot\r\n") {
        BodyLine::Data(d) => assert_eq!(d, b".leading dot\n".to_vec()),
        BodyLine::Terminator => panic!("not a terminator"),
    }
    match process_body_line(b"plain line\n") {
        BodyLine::Data(d) => assert_eq!(d, b"plain line\n".to_vec()),
        BodyLine::Terminator => panic!("not a terminator"),
    }
}

// Authentication outcomes and the redaction rule: the logged token is
// the status code alone, never what follows it.
#[test]
fn test_auth_decisions_and_redaction() {
    assert!(matches!(auth_user_decision(b"381 send password"), AuthStep::SendPass));
    assert!(matches!(auth_user_decision(b"281 welcome"), AuthStep::Accepted));
    match auth_user_decision(b"481 invalid user hugo password pw123") {
        AuthStep::Rejected(m) => assert_eq!(m, b"481".to_vec()),
        _ => panic!("expected rejection"),
    }
    assert!(matches!(auth_pass_decision(b"281 ok"), AuthStep::Accepted));
    match auth_pass_decision(b"482 bad password hunter2") {
        AuthStep::Rejected(m) => assert_eq!(m, b"482".to_vec()),
        _ => panic!("expected rejection"),
    }
    assert_eq!(redact_auth_response(b"  \t  "), b"Unknown".to_vec());
    assert_eq!(redact_auth_response(b""), b"Unknown".to_vec());
    assert_eq!(redact_auth_response(b"  502 try later"), b"502".to_vec());
}

// Pipelining order: results line up positionally with the requests,
// missing articles and all.
#[test]
fn test_pipeline_reader_order() {
    let reqs = vec![req(b"a@x", 1), req(b"b@x", 2), req(b"c@x", 3)];
    let mut reader = PipelineReader::new(reqs);

    // Segment 1: a 222 with a tiny yEnc body.
    assert!(matches!(reader.on_status(b"222 0 <a@x>"), ReadDirective::ReadBody));
    let mut body = b"=ybegin line=128 size=2 name=s\n".to_vec();
    body.extend_from_slice(&[b'h' + 42, b'i' + 42, b'\n']);
    body.extend_from_slice(b"=yend size=2\n");
    reader.on_body(&body);

    // Segment 2: the article is gone.
    assert!(matches!(reader.on_status(b"430 no such article"), ReadDirective::Next));

    // Segment 3: an unexpected code; the reader asks for a drain to
    // keep the remaining responses aligned.
    assert!(matches!(reader.on_status(b"500 surprise"), ReadDirective::DrainBody));

    assert!(reader.is_done());
    let (results, poisoned) = reader.into_results();
    assert!(!poisoned);
    assert_eq!(results.len(), 3);
    assert_eq!(results[0].0, 1);
    assert_eq!(results[0].1, Some(b"hi".to_vec()));
    assert_eq!(results[1].0, 2);
    assert_eq!(results[1].1, None);
    assert_eq!(results[2].0, 3);
    assert_eq!(results[2].1, None);
}

// A transport failure fails the remaining requests and poisons the
// connection.
#[test]
fn test_pipeline_reader_transport_failure() {
    let reqs = vec![req(b"a@x", 1), req(b"b@x", 2), req(b"c@x", 3)];
    let mut reader = PipelineReader::new(reqs);
    assert!(matches!(reader.on_status(b"430 gone"), ReadDirective::Next));
    reader.on_transport_failure();
    assert!(reader.is_done());
    let (results, poisoned) = reader.into_results();
    assert!(poisoned);
    assert_eq!(results.len(), 3);
    assert_eq!(results[1].0, 2);
    assert!(results[1].1.is_none());
    assert!(results[2].1.is_none());
}

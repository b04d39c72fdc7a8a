use gateway_core::channel::EventRing;
use gateway_core::channel::RecvOutcome;
use gateway_core::channel::CONNECTION_RING_CAPACITY;
use gateway_core::codec::decode_payload;
use gateway_core::codec::encode_payload;
use gateway_core::connection::transport_step;
use gateway_core::connection::TransportAction;
use gateway_core::connection::TransportEvent;
use gateway_core::connection::CLOSE_CODE_ERROR;
use gateway_core::error::Error;
use gateway_core::events::Event;
use gateway_core::events::EventType;
use gateway_core::events::GatewayPayload;
use gateway_core::heartbeat::compare_sequence_numbers;
use gateway_core::heartbeat::handle_heartbeat;
use gateway_core::heartbeat::liveness_expired;
use gateway_core::heartbeat::poll_window_ms;
use gateway_core::heartbeat::HeartbeatOutcome;
use gateway_core::heartbeat::SequenceNumberComparison;
use gateway_core::resume::ResumableClientsStore;
use gateway_core::session::heartbeat_ack_frame;
use gateway_core::session::hello_payload;
use gateway_core::session::invalid_session_payload;
use gateway_core::session::on_broadcast_lag;
use gateway_core::session::parse_client_frame;
use gateway_core::session::reconnect_frame;
use gateway_core::session::replay_missed;
use gateway_core::session::session_step;
use gateway_core::session::ClientFrame;
use gateway_core::session::ServerAction;
use gateway_core::session::Session;
use gateway_core::session::SessionState;

fn dispatch_event_payload(name: &[u8], data: &[u8]) -> GatewayPayload {
    GatewayPayload {
        op_code: 0,
        event_data: data.to_vec(),
        sequence_number: None,
        event_name: Some(name.to_vec()),
    }
}

fn message_create_event() -> Event {
    Event {
        event_type: EventType::MessageCreate,
        payload: dispatch_event_payload(b"MESSAGE_CREATE", b"{\"content\":\"hi\"}"),
    }
}

// --- wire envelope -------------------------------------------------------

#[test]
fn payload_round_trip_all_fields() {
    let p = GatewayPayload {
        op_code: 0,
        event_data: b"{\"a\":[1,2,{\"b\":\"x,y}\"}]}".to_vec(),
        sequence_number: Some(7),
        event_name: Some(b"MESSAGE_CREATE".to_vec()),
    };
    let bytes = encode_payload(&p);
    let q = decode_payload(&bytes).expect("round trip");
    assert_eq!(q, p);
}

#[test]
fn payload_round_trip_absent_s_and_t_stay_absent() {
    let p = GatewayPayload {
        op_code: 1,
        event_data: b"6".to_vec(),
        sequence_number: None,
        event_name: None,
    };
    let bytes = encode_payload(&p);
    assert_eq!(bytes, b"{\"op\":1,\"d\":6}".to_vec());
    let q = decode_payload(&bytes).expect("round trip");
    assert!(q.sequence_number.is_none());
    assert!(q.event_name.is_none());
    assert_eq!(q, p);
}

#[test]
fn payload_round_trip_extreme_sequence_number() {
    let p = GatewayPayload {
        op_code: 255,
        event_data: b"null".to_vec(),
        sequence_number: Some(u64::MAX),
        event_name: None,
    };
    let q = decode_payload(&encode_payload(&p)).expect("round trip");
    assert_eq!(q, p);
}

#[test]
fn decode_rejects_missing_d() {
    assert_eq!(decode_payload(&b"{\"op\":1}".to_vec()), Err(Error::ProtocolViolation));
}

#[test]
fn decode_rejects_missing_op() {
    assert_eq!(decode_payload(&b"{\"d\":6}".to_vec()), Err(Error::ProtocolViolation));
    assert_eq!(decode_payload(&b"".to_vec()), Err(Error::ProtocolViolation));
    assert_eq!(decode_payload(&b"not json".to_vec()), Err(Error::ProtocolViolation));
}

#[test]
fn decode_accepts_client_heartbeat_frame() {
    let q = decode_payload(&b"{\"op\":1,\"d\":6}".to_vec()).expect("heartbeat frame");
    assert_eq!(q.op_code, 1);
    assert_eq!(q.event_data, b"6".to_vec());
}

// --- heartbeat reconciliation -------------------------------------------

#[test]
fn sequence_comparison_boundaries() {
    assert_eq!(compare_sequence_numbers(5, 5), SequenceNumberComparison::Correct);
    assert_eq!(compare_sequence_numbers(5, 6), SequenceNumberComparison::SlightlyOff(1));
    assert_eq!(compare_sequence_numbers(5, 7), SequenceNumberComparison::SlightlyOff(2));
    assert_eq!(compare_sequence_numbers(5, 8), SequenceNumberComparison::WayOff(3));
    assert_eq!(compare_sequence_numbers(8, 5), SequenceNumberComparison::WayOff(3));
}

#[test]
fn heartbeat_matching_sequence_earns_exactly_one_ack() {
    assert_eq!(handle_heartbeat(42, Some(42)), HeartbeatOutcome::Ack);
    assert_eq!(handle_heartbeat(42, None), HeartbeatOutcome::Ack);
}

#[test]
fn heartbeat_drift_rules() {
    assert_eq!(handle_heartbeat(5, Some(5)), HeartbeatOutcome::Ack);
    assert_eq!(handle_heartbeat(5, Some(7)), HeartbeatOutcome::Ack);
    assert_eq!(handle_heartbeat(5, Some(8)), HeartbeatOutcome::ReconnectAndKill);
}

#[test]
fn liveness_window() {
    assert!(!liveness_expired(45000));
    assert!(liveness_expired(45001));
    assert_eq!(poll_window_ms(), 50000);
}

// --- session scenarios ---------------------------------------------------

#[test]
fn hello_identify_ready() {
    // Connect: the server sends Hello with the heartbeat interval.
    let hello = encode_payload(&hello_payload());
    assert_eq!(hello, b"{\"op\":10,\"d\":{\"heartbeat_interval\":45000}}".to_vec());

    // The client identifies; credentials are checked out of band.
    let frame = parse_client_frame(&b"{\"op\":2,\"d\":{\"token\":\"T\",\"intents\":0}}".to_vec())
        .expect("identify frame");
    assert_eq!(frame, ClientFrame::Identify);

    let store = ResumableClientsStore::new(8);
    let mut session = Session::new();
    let actions = session_step(&mut session, &frame, &store);
    assert_eq!(actions, vec![ServerAction::SendReady { s: 1 }]);
    assert_eq!(session.state, SessionState::Ready);
    assert_eq!(session.last_sequence, 1);

    // The Ready dispatch is stamped with sequence number 1.
    let ready = GatewayPayload {
        op_code: 0,
        event_data: b"{}".to_vec(),
        sequence_number: Some(1),
        event_name: Some(b"READY".to_vec()),
    };
    assert_eq!(encode_payload(&ready), b"{\"op\":0,\"d\":{},\"s\":1,\"t\":\"READY\"}".to_vec());
}

#[test]
fn heartbeat_drift_small_is_acked() {
    let store = ResumableClientsStore::new(8);
    let mut session = Session { state: SessionState::Ready, last_sequence: 5 };
    let frame = parse_client_frame(&b"{\"op\":1,\"d\":6}".to_vec()).expect("heartbeat");
    assert_eq!(frame, ClientFrame::Heartbeat { d: Some(6) });
    let actions = session_step(&mut session, &frame, &store);
    assert_eq!(actions, vec![ServerAction::SendAck]);
    assert_eq!(session.state, SessionState::Ready);
    assert_eq!(heartbeat_ack_frame(), b"{\"op\":11}".to_vec());
}

#[test]
fn heartbeat_drift_large_reconnects_and_kills() {
    let store = ResumableClientsStore::new(8);
    let mut session = Session { state: SessionState::Ready, last_sequence: 5 };
    let frame = parse_client_frame(&b"{\"op\":1,\"d\":10}".to_vec()).expect("heartbeat");
    let actions = session_step(&mut session, &frame, &store);
    assert_eq!(actions, vec![ServerAction::SendReconnect, ServerAction::Kill]);
    assert_eq!(session.state, SessionState::Closing);
    assert_eq!(reconnect_frame(), b"{\"op\":7}".to_vec());
    assert_eq!(CLOSE_CODE_ERROR, 1011);
}

#[test]
fn resume_success_replays_in_order() {
    // The client disconnected at sequence 42 holding token "S".
    let mut store = ResumableClientsStore::new(8);
    store.insert(b"S".to_vec(), 42, 7, 1);

    let frame = parse_client_frame(
        &b"{\"op\":6,\"d\":{\"token\":\"T\",\"session_id\":\"S\",\"seq\":42}}".to_vec(),
    )
    .expect("resume frame");
    assert_eq!(frame, ClientFrame::Resume { session_id: b"S".to_vec(), seq: 42 });

    let mut session = Session::new();
    let actions = session_step(&mut session, &frame, &store);
    assert_eq!(actions, vec![ServerAction::ReplayFrom { from: 42 }]);
    assert_eq!(session.state, SessionState::Ready);
    assert_eq!(session.last_sequence, 42);

    // Two missed events are replayed as 43 and 44, then Resumed as 45.
    let missed = vec![message_create_event(), message_create_event()];
    let replayed = replay_missed(&mut session, &missed);
    assert_eq!(replayed.len(), 3);
    assert_eq!(replayed[0].sequence_number, Some(43));
    assert_eq!(replayed[1].sequence_number, Some(44));
    assert_eq!(replayed[2].sequence_number, Some(45));
    assert_eq!(replayed[2].event_name, Some(b"RESUMED".to_vec()));
    assert_eq!(session.last_sequence, 45);
}

#[test]
fn resume_unknown_token_is_invalid_session() {
    let store = ResumableClientsStore::new(8);
    let frame = parse_client_frame(
        &b"{\"op\":6,\"d\":{\"token\":\"T\",\"session_id\":\"S\",\"seq\":42}}".to_vec(),
    )
    .expect("resume frame");
    let mut session = Session::new();
    let actions = session_step(&mut session, &frame, &store);
    assert_eq!(actions, vec![ServerAction::SendInvalidSession, ServerAction::Kill]);
    assert_eq!(session.state, SessionState::Closing);
    assert_eq!(
        encode_payload(&invalid_session_payload()),
        b"{\"op\":9,\"d\":false}".to_vec()
    );
}

#[test]
fn two_identify_frames_are_a_protocol_violation() {
    let store = ResumableClientsStore::new(8);
    let mut session = Session::new();
    let first = session_step(&mut session, &ClientFrame::Identify, &store);
    assert_eq!(first, vec![ServerAction::SendReady { s: 1 }]);
    let second = session_step(&mut session, &ClientFrame::Identify, &store);
    assert_eq!(second, vec![ServerAction::SendInvalidSession, ServerAction::Kill]);
    assert_eq!(session.state, SessionState::Closing);
}

#[test]
fn heartbeat_before_identify_is_a_protocol_violation() {
    let store = ResumableClientsStore::new(8);
    let mut session = Session::new();
    let actions = session_step(&mut session, &ClientFrame::Heartbeat { d: Some(0) }, &store);
    assert_eq!(actions, vec![ServerAction::SendInvalidSession, ServerAction::Kill]);
}

// --- broadcast lag -------------------------------------------------------

#[test]
fn full_ring_of_unread_messages_kills_the_client() {
    assert_eq!(CONNECTION_RING_CAPACITY, 100);
    let mut ring = EventRing::new(100);
    let mut receiver = ring.subscribe();
    for _ in 0..100 {
        ring.send(message_create_event());
    }
    // The ring is full of unread messages; the next send pushes the oldest
    // out from under the receiver.
    ring.send(message_create_event());
    match ring.recv(&mut receiver) {
        RecvOutcome::Lagged(n) => assert_eq!(n, 1),
        _ => panic!("expected lag"),
    }
    let mut session = Session { state: SessionState::Ready, last_sequence: 3 };
    let actions = on_broadcast_lag(&mut session);
    assert_eq!(actions, vec![ServerAction::SendInvalidSession, ServerAction::Kill]);
    assert_eq!(session.state, SessionState::Closing);
}

#[test]
fn ring_delivers_in_order_without_lag() {
    let mut ring = EventRing::new(4);
    let mut receiver = ring.subscribe();
    ring.send(message_create_event());
    ring.send(Event {
        event_type: EventType::TypingStart,
        payload: dispatch_event_payload(b"TYPING_START", b"{}"),
    });
    match ring.recv(&mut receiver) {
        RecvOutcome::Item(e) => assert_eq!(e.event_type, EventType::MessageCreate),
        _ => panic!("expected first event"),
    }
    match ring.recv(&mut receiver) {
        RecvOutcome::Item(e) => assert_eq!(e.event_type, EventType::TypingStart),
        _ => panic!("expected second event"),
    }
    match ring.recv(&mut receiver) {
        RecvOutcome::Empty => {}
        _ => panic!("expected empty"),
    }
}

// --- transport adapter ---------------------------------------------------

#[test]
fn transport_failures_publish_close_and_stop() {
    assert_eq!(transport_step(TransportEvent::SinkWriteOk), TransportAction::Continue);
    assert_eq!(transport_step(TransportEvent::InboundPublished), TransportAction::Continue);
    assert_eq!(
        transport_step(TransportEvent::SinkWriteFailed),
        TransportAction::PublishCloseAndStop
    );
    assert_eq!(transport_step(TransportEvent::StreamEnded), TransportAction::PublishCloseAndStop);
    assert_eq!(
        transport_step(TransportEvent::StreamErrored),
        TransportAction::PublishCloseAndStop
    );
    assert_eq!(
        transport_step(TransportEvent::InboundPublishFailed),
        TransportAction::PublishCloseAndStop
    );
    assert_eq!(transport_step(TransportEvent::OutboundClosed), TransportAction::Stop);
    assert_eq!(
        Error::TransportFailure.message(),
        "Channel closed or error encountered"
    );
}

// --- grammar edges -------------------------------------------------------

#[test]
fn decoder_accepts_any_member_order() {
    let q = decode_payload(&b"{\"d\":6,\"op\":1}".to_vec()).expect("reordered frame");
    assert_eq!(q.op_code, 1);
    assert_eq!(q.event_data, b"6".to_vec());
    assert!(q.sequence_number.is_none());
    let q2 = decode_payload(&b"{\"op\":1,\"s\":2,\"d\":6}".to_vec()).expect("s before d");
    assert_eq!(q2.sequence_number, Some(2));
    assert_eq!(q2.event_data, b"6".to_vec());
    let q3 = decode_payload(&b"{\"t\":\"READY\",\"s\":1,\"d\":{},\"op\":0}".to_vec())
        .expect("fully reversed");
    assert_eq!(q3.op_code, 0);
    assert_eq!(q3.event_name, Some(b"READY".to_vec()));
}

#[test]
fn decoder_accepts_whitespace_and_unknown_members() {
    let q = decode_payload(&b"{ \"op\" : 1 , \"d\" : 6 }".to_vec()).expect("spaced frame");
    assert_eq!(q.op_code, 1);
    assert_eq!(q.event_data, b"6".to_vec());
    let q2 = decode_payload(&b"{\"op\":1,\"x\":[1,{\"y\":\"z\"}],\"d\":6}".to_vec())
        .expect("unknown member skipped");
    assert_eq!(q2.event_data, b"6".to_vec());
    // A non-string `t` reads as an absent event name, as the original wire
    // format treats it.
    let q3 = decode_payload(&b"{\"op\":1,\"d\":6,\"t\":null}".to_vec()).expect("null name");
    assert!(q3.event_name.is_none());
}

#[test]
fn decoder_rejects_repeated_members_and_bad_numbers() {
    assert_eq!(
        decode_payload(&b"{\"op\":1,\"op\":2,\"d\":6}".to_vec()),
        Err(Error::ProtocolViolation)
    );
    assert_eq!(
        decode_payload(&b"{\"op\":300,\"d\":6}".to_vec()),
        Err(Error::ProtocolViolation)
    );
    assert_eq!(
        decode_payload(&b"{\"op\":1,\"d\":6,\"s\":null}".to_vec()),
        Err(Error::ProtocolViolation)
    );
}

#[test]
fn resume_data_accepts_any_member_order() {
    let frame = parse_client_frame(
        &b"{\"op\":6,\"d\":{ \"seq\": 42, \"session_id\": \"S\", \"token\": \"T\" }}".to_vec(),
    )
    .expect("reordered resume data");
    assert_eq!(frame, ClientFrame::Resume { session_id: b"S".to_vec(), seq: 42 });
}

#[test]
fn heartbeat_with_null_sequence_is_still_acked() {
    let store = ResumableClientsStore::new(8);
    let frame = parse_client_frame(&b"{\"op\":1,\"d\":null}".to_vec()).expect("heartbeat");
    assert_eq!(frame, ClientFrame::Heartbeat { d: None });
    let mut session = Session { state: SessionState::Ready, last_sequence: 5 };
    let actions = session_step(&mut session, &frame, &store);
    assert_eq!(actions, vec![ServerAction::SendAck]);
}

#[test]
fn malformed_resume_data_is_a_protocol_violation() {
    assert_eq!(
        parse_client_frame(&b"{\"op\":6,\"d\":{\"token\":\"T\"}}".to_vec()),
        Err(Error::ProtocolViolation)
    );
}

#[test]
fn side_opcodes_are_accepted_when_ready() {
    let store = ResumableClientsStore::new(8);
    let mut session = Session { state: SessionState::Ready, last_sequence: 1 };
    for op in [3u8, 4, 8] {
        let actions = session_step(&mut session, &ClientFrame::Other { op }, &store);
        assert!(actions.is_empty());
        assert_eq!(session.state, SessionState::Ready);
    }
    let actions = session_step(&mut session, &ClientFrame::Other { op: 12 }, &store);
    assert_eq!(actions, vec![ServerAction::SendInvalidSession, ServerAction::Kill]);
}

#[test]
fn decoded_frames_reencode_to_the_same_bytes() {
    let frames: Vec<&[u8]> = vec![
        b"{\"op\":1,\"d\":6}",
        b"{\"op\":0,\"d\":{},\"s\":1,\"t\":\"READY\"}",
        b"{\"op\":6,\"d\":{\"token\":\"T\",\"session_id\":\"S\",\"seq\":42}}",
        b"{\"op\":0,\"d\":[1,\"two\",{\"three\":3}],\"s\":9}",
    ];
    for bytes in frames {
        let decoded = decode_payload(&bytes.to_vec()).expect("canonical frame");
        assert_eq!(encode_payload(&decoded), bytes.to_vec());
    }
}

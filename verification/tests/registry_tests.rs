use gateway_core::channel::events_since;
use gateway_core::error::Error;
use gateway_core::events::Event;
use gateway_core::events::EventType;
use gateway_core::events::GatewayPayload;
use gateway_core::registry::ConnectedUsers;
use gateway_core::session::parse_client_frame;
use gateway_core::session::replay_missed;
use gateway_core::session::session_step;
use gateway_core::session::ClientFrame;
use gateway_core::session::ServerAction;
use gateway_core::session::Session;
use gateway_core::session::SessionState;

fn sample_event() -> Event {
    Event {
        event_type: EventType::MessageCreate,
        payload: GatewayPayload {
            op_code: 0,
            event_data: b"{\"content\":\"hi\"}".to_vec(),
            sequence_number: None,
            event_name: Some(b"MESSAGE_CREATE".to_vec()),
        },
    }
}

#[test]
fn inbox_exists_iff_user_exists() {
    let mut cu = ConnectedUsers::new();
    cu.get_user_or_new(11);
    cu.get_user_or_new(12);
    assert!(cu.store.users.contains_key(11) && cu.store.inboxes.contains_key(11));
    assert!(cu.store.users.contains_key(12) && cu.store.inboxes.contains_key(12));
    assert!(!cu.store.users.contains_key(13) && !cu.store.inboxes.contains_key(13));
    cu.deregister(11);
    assert!(!cu.store.users.contains_key(11) && !cu.store.inboxes.contains_key(11));
    assert!(cu.store.users.contains_key(12) && cu.store.inboxes.contains_key(12));
}

#[test]
fn client_sits_under_its_own_session_token() {
    let mut cu = ConnectedUsers::new();
    cu.get_user_or_new(7);
    cu.new_client(7, &b"tok-a".to_vec(), 0);
    let user = cu.store.users.get(7).expect("user");
    let client = user.clients.get(&b"tok-a".to_vec()).expect("client");
    assert_eq!(client.session_token, b"tok-a".to_vec());
    assert_eq!(client.last_sequence, 0);
}

#[test]
fn deregistered_identity_comes_back_fresh() {
    let mut cu = ConnectedUsers::new();
    let created = cu.get_user_or_new(7);
    assert!(created);
    cu.new_client(7, &b"tok-a".to_vec(), 5);
    assert_eq!(cu.store.users.get(7).expect("user").clients.len(), 1);
    cu.deregister(7);
    let created_again = cu.get_user_or_new(7);
    assert!(created_again);
    let fresh = cu.store.users.get(7).expect("fresh user");
    assert_eq!(fresh.clients.len(), 0);
    assert_eq!(fresh.id, 7);
}

#[test]
fn dying_last_client_deregisters_user_and_records_resume_info() {
    let mut cu = ConnectedUsers::new();
    cu.get_user_or_new(7);
    cu.new_client(7, &b"tok-a".to_vec(), 41);
    cu.die(7, &b"tok-a".to_vec());
    assert!(!cu.store.users.contains_key(7));
    assert!(!cu.store.inboxes.contains_key(7));
    let info = cu
        .store
        .resumeable_clients_store
        .lookup(&b"tok-a".to_vec())
        .expect("disconnect info");
    assert_eq!(info, 41);
    // The client's inbox-ring position is recorded for replay.
    let pos = cu
        .store
        .resumeable_clients_store
        .lookup_position(&b"tok-a".to_vec())
        .expect("inbox position");
    assert_eq!(pos, 0);
}

#[test]
fn dying_client_with_siblings_keeps_the_user() {
    let mut cu = ConnectedUsers::new();
    cu.get_user_or_new(7);
    cu.new_client(7, &b"tok-a".to_vec(), 10);
    cu.new_client(7, &b"tok-b".to_vec(), 20);
    cu.die(7, &b"tok-a".to_vec());
    assert!(cu.store.users.contains_key(7));
    assert!(cu.store.inboxes.contains_key(7));
    let user = cu.store.users.get(7).expect("user");
    assert_eq!(user.clients.len(), 1);
    assert!(user.clients.get(&b"tok-b".to_vec()).is_some());
}

#[test]
fn subscriptions_are_not_duplicated() {
    let mut cu = ConnectedUsers::new();
    cu.get_user_or_new(7);
    cu.subscribe_user(7, 100);
    cu.subscribe_user(7, 100);
    cu.subscribe_user(7, 200);
    let user = cu.store.users.get(7).expect("user");
    assert_eq!(user.subscriptions, vec![100, 200]);
}

#[test]
fn role_map_init_holds_every_scanned_role() {
    let mut cu = ConnectedUsers::new();
    let roles = vec![1u64, 2, 3];
    let pairs = vec![(11u64, 1u64), (12, 1), (12, 2), (13, 2)];
    cu.init_role_user_map(&roles, &pairs);
    assert!(cu.role_user_map.map.contains_key(1));
    assert!(cu.role_user_map.map.contains_key(2));
    // A role with no members is still a key, mapping to no users.
    assert!(cu.role_user_map.map.contains_key(3));
    assert_eq!(cu.role_user_map.map.get(3).expect("role 3"), &Vec::<u64>::new());
    assert_eq!(cu.role_user_map.map.get(1).expect("role 1"), &vec![11u64, 12]);
    assert_eq!(cu.role_user_map.map.get(2).expect("role 2"), &vec![12u64, 13]);
}

#[test]
fn bulk_fan_out_by_role_reaches_each_user_exactly_once() {
    let mut cu = ConnectedUsers::new();
    for id in [11u64, 12, 13] {
        cu.get_user_or_new(id);
    }
    // R1 -> {U11, U12}, R2 -> {U12, U13}
    cu.init_role_user_map(&vec![1, 2], &vec![(11, 1), (12, 1), (12, 2), (13, 2)]);

    let mut builder = cu.bulk_message_builder();
    builder.add_role_recipients(&vec![1, 2]);
    builder.set_message(sample_event());
    builder.send(&mut cu).expect("send");

    for id in [11u64, 12, 13] {
        let ring = cu.inbox(id).expect("inbox");
        assert_eq!(ring.buffer.len(), 1, "user {id} must get the message exactly once");
        assert_eq!(ring.buffer[0].event_type, EventType::MessageCreate);
    }
}

#[test]
fn bulk_fan_out_includes_explicit_users_even_with_no_roles() {
    let mut cu = ConnectedUsers::new();
    cu.get_user_or_new(11);
    cu.get_user_or_new(12);
    let mut builder = cu.bulk_message_builder();
    builder.add_user_recipients(&vec![11]);
    builder.set_message(sample_event());
    builder.send(&mut cu).expect("send");
    assert_eq!(cu.inbox(11).expect("inbox").buffer.len(), 1);
    assert_eq!(cu.inbox(12).expect("inbox").buffer.len(), 0);
}

#[test]
fn bulk_send_without_message_fails() {
    let mut cu = ConnectedUsers::new();
    cu.get_user_or_new(11);
    let mut builder = cu.bulk_message_builder();
    builder.add_user_recipients(&vec![11]);
    let err = builder.send(&mut cu).expect_err("no message set");
    assert_eq!(err, Error::NoMessage);
    assert_eq!(err.message(), "No message to send");
    assert_eq!(cu.inbox(11).expect("inbox").buffer.len(), 0);
}

#[test]
fn bulk_send_skips_recipients_without_an_inbox() {
    let mut cu = ConnectedUsers::new();
    cu.get_user_or_new(11);
    let mut builder = cu.bulk_message_builder();
    builder.add_user_recipients(&vec![11, 99]);
    builder.set_message(sample_event());
    builder.send(&mut cu).expect("send");
    assert_eq!(cu.inbox(11).expect("inbox").buffer.len(), 1);
    assert!(cu.inbox(99).is_none());
}

#[test]
fn resume_store_evicts_oldest_when_full() {
    let mut cu = ConnectedUsers::new();
    cu.get_user_or_new(1);
    let mut store = gateway_core::resume::ResumableClientsStore::new(2);
    store.insert(b"a".to_vec(), 1, 0, 1);
    store.insert(b"b".to_vec(), 2, 0, 1);
    store.insert(b"c".to_vec(), 3, 0, 1);
    assert!(store.lookup(&b"a".to_vec()).is_none());
    assert_eq!(store.lookup(&b"b".to_vec()), Some(2));
    assert_eq!(store.lookup(&b"c".to_vec()), Some(3));
}

#[test]
fn resume_replays_missed_events_from_the_inbox() {
    let mut cu = ConnectedUsers::new();
    cu.get_user_or_new(1);
    // Two clients, so the user outlives the disconnecting one.
    cu.new_client(1, &b"S".to_vec(), 42);
    cu.new_client(1, &b"K".to_vec(), 0);
    cu.die(1, &b"S".to_vec());

    // Two events reach the user's inbox while the session is away.
    for _ in 0..2 {
        let mut builder = cu.bulk_message_builder();
        builder.add_user_recipients(&vec![1]);
        builder.set_message(sample_event());
        builder.send(&mut cu).expect("send");
    }

    // The client reconnects and resumes with its recorded token.
    let frame = parse_client_frame(
        &b"{\"op\":6,\"d\":{\"token\":\"T\",\"session_id\":\"S\",\"seq\":42}}".to_vec(),
    )
    .expect("resume frame");
    assert_eq!(frame, ClientFrame::Resume { session_id: b"S".to_vec(), seq: 42 });
    let mut session = Session::new();
    let actions = {
        let store = &cu.store.resumeable_clients_store;
        session_step(&mut session, &frame, store)
    };
    assert_eq!(actions, vec![ServerAction::ReplayFrom { from: 42 }]);
    assert_eq!(session.state, SessionState::Ready);

    // The store remembers where the dead client stood in the inbox ring and
    // whose inbox to replay from.
    let position = cu
        .store
        .resumeable_clients_store
        .lookup_position(&b"S".to_vec())
        .expect("recorded position");
    let user = cu
        .store
        .resumeable_clients_store
        .lookup_user(&b"S".to_vec())
        .expect("recorded user");
    assert_eq!(user, 1);
    let missed = events_since(cu.inbox(user).expect("inbox"), position);
    assert_eq!(missed.len(), 2);

    // Replay stamps 43 and 44, then Resumed at 45.
    let payloads = replay_missed(&mut session, &missed);
    assert_eq!(payloads.len(), 3);
    assert_eq!(payloads[0].sequence_number, Some(43));
    assert_eq!(payloads[1].sequence_number, Some(44));
    assert_eq!(payloads[2].sequence_number, Some(45));
    assert_eq!(payloads[2].event_name, Some(b"RESUMED".to_vec()));
}

use mesquitte_core::handlers::{
    handle_clean_session, handle_connect, handle_incoming, get_unsent_outgoing_packet,
    receive_outgoing, ConnackCode, ConnectOutcome, ConnectPacket, GlobalState, Outgoing,
    OutboundPacket, Packet, ReturnCode,
};
use mesquitte_core::publish::PublishMessage;
use mesquitte_core::qos::QualityOfService;
use mesquitte_core::queue::MemoryQueue;
use mesquitte_core::session::{keep_alive_expired, Session};

fn msg(topic: &str, payload: &[u8], qos: QualityOfService, retain: bool) -> PublishMessage {
    PublishMessage::new(topic.to_string(), payload.to_vec(), qos, retain, false)
}

fn connect(
    global: &mut GlobalState,
    queue: &mut MemoryQueue,
    client_id: &str,
    clean_session: bool,
    keep_alive: u16,
    now: u64,
) -> (Session, bool, bool) {
    let packet = ConnectPacket {
        protocol_name: "MQTT".to_string(),
        protocol_level: 4,
        client_id: client_id.to_string(),
        clean_session,
        keep_alive,
        will: None,
    };
    match handle_connect(global, queue, packet, now) {
        ConnectOutcome::Accept { session, session_present, takeover } => {
            (session, session_present, takeover)
        }
        ConnectOutcome::Reject(_) => panic!("connect rejected"),
    }
}

#[test]
fn qos1_round_trip() {
    let mut global = GlobalState::new();
    let mut queue = MemoryQueue::new(16, 60);
    let (mut a, present, _) = connect(&mut global, &mut queue, "A", true, 0, 0);
    assert!(!present);
    global.add_client(a.client_id());
    let (stop, out, deliveries) = handle_incoming(
        &mut a,
        &mut global,
        &mut queue,
        Packet::Subscribe {
            packet_id: 1,
            subscribes: vec![("a/b".to_string(), QualityOfService::Level1)],
        },
        0,
    );
    assert!(!stop);
    assert_eq!(out.len(), 1);
    match &out[0] {
        OutboundPacket::Suback { packet_id, return_codes } => {
            assert_eq!(*packet_id, 1);
            assert_eq!(return_codes.len(), 1);
            assert_eq!(return_codes[0], ReturnCode::Granted(QualityOfService::Level1));
        }
        _ => panic!("expected suback"),
    }
    assert!(deliveries.is_empty());

    let (mut b, _, _) = connect(&mut global, &mut queue, "B", true, 0, 0);
    global.add_client(b.client_id());
    let (stop, out, deliveries) = handle_incoming(
        &mut b,
        &mut global,
        &mut queue,
        Packet::Publish { packet_id: 10, message: msg("a/b", b"hi", QualityOfService::Level1, false) },
        0,
    );
    assert!(!stop);
    assert_eq!(out, vec![OutboundPacket::Puback(10)]);
    assert_eq!(deliveries.len(), 1);
    assert_eq!(deliveries[0].client_id, "A");
    assert_eq!(deliveries[0].subscribe_qos, QualityOfService::Level1);

    // A's writer receives the fanned-out message from its channel.
    let d = deliveries.into_iter().next().unwrap();
    let (stop, resp, reply) =
        receive_outgoing(&mut a, &mut global, &mut queue, Outgoing::Publish(d.subscribe_qos, d.message), 0);
    assert!(!stop);
    assert!(reply.is_none());
    match resp {
        Some(OutboundPacket::Publish { packet_id, message }) => {
            assert_eq!(packet_id, 1);
            assert_eq!(message.topic_name, "a/b");
            assert_eq!(message.payload, b"hi".to_vec());
            assert_eq!(message.qos, QualityOfService::Level1);
        }
        _ => panic!("expected publish to A"),
    }

    // A acknowledges; its outgoing store then owes nothing on reconnect.
    handle_incoming(&mut a, &mut global, &mut queue, Packet::Puback(1), 0);
    let pending = get_unsent_outgoing_packet(&a, &queue, 0);
    assert!(pending.is_empty());
}

#[test]
fn qos2_duplicate_delivered_once() {
    let mut global = GlobalState::new();
    let mut queue = MemoryQueue::new(16, 60);
    let (mut a, _, _) = connect(&mut global, &mut queue, "A", true, 0, 0);
    global.add_client(a.client_id());
    handle_incoming(
        &mut a,
        &mut global,
        &mut queue,
        Packet::Subscribe { packet_id: 1, subscribes: vec![("t".to_string(), QualityOfService::Level2)] },
        0,
    );
    let (mut b, _, _) = connect(&mut global, &mut queue, "B", true, 0, 0);
    global.add_client(b.client_id());

    let mut total_deliveries = 0;
    let (_, out, deliveries) = handle_incoming(
        &mut b,
        &mut global,
        &mut queue,
        Packet::Publish { packet_id: 7, message: msg("t", b"x", QualityOfService::Level2, false) },
        0,
    );
    assert_eq!(out, vec![OutboundPacket::Pubrec(7)]);
    total_deliveries += deliveries.len();

    // the client resends the same PUBLISH (dup) before its PUBREL
    let mut dup_msg = msg("t", b"x", QualityOfService::Level2, false);
    dup_msg.set_dup();
    let (stop, out, deliveries) = handle_incoming(
        &mut b,
        &mut global,
        &mut queue,
        Packet::Publish { packet_id: 7, message: dup_msg },
        0,
    );
    assert!(!stop);
    assert_eq!(out, vec![OutboundPacket::Pubrec(7)]);
    total_deliveries += deliveries.len();

    let (_, out, deliveries) =
        handle_incoming(&mut b, &mut global, &mut queue, Packet::Pubrel(7), 0);
    assert_eq!(out, vec![OutboundPacket::Pubcomp(7)]);
    total_deliveries += deliveries.len();
    assert_eq!(total_deliveries, 1);

    // a stray second PUBREL releases nothing more
    let (_, out, deliveries) =
        handle_incoming(&mut b, &mut global, &mut queue, Packet::Pubrel(7), 0);
    assert_eq!(out, vec![OutboundPacket::Pubcomp(7)]);
    assert!(deliveries.is_empty());
}

#[test]
fn session_takeover_replays_inflight() {
    let mut global = GlobalState::new();
    let mut queue = MemoryQueue::new(16, 60);
    let (mut a, present, takeover) = connect(&mut global, &mut queue, "c1", false, 0, 0);
    assert!(!present);
    assert!(!takeover);
    global.add_client(a.client_id());
    handle_incoming(
        &mut a,
        &mut global,
        &mut queue,
        Packet::Subscribe { packet_id: 1, subscribes: vec![("s".to_string(), QualityOfService::Level1)] },
        0,
    );
    let (mut b, _, _) = connect(&mut global, &mut queue, "B", true, 0, 0);
    global.add_client(b.client_id());
    let (_, _, deliveries) = handle_incoming(
        &mut b,
        &mut global,
        &mut queue,
        Packet::Publish { packet_id: 3, message: msg("s", b"m1", QualityOfService::Level1, false) },
        0,
    );
    assert_eq!(deliveries.len(), 1);
    let d = deliveries.into_iter().next().unwrap();
    let (_, resp, _) =
        receive_outgoing(&mut a, &mut global, &mut queue, Outgoing::Publish(d.subscribe_qos, d.message), 0);
    let first_pid = match resp {
        Some(OutboundPacket::Publish { packet_id, .. }) => packet_id,
        _ => panic!("expected publish"),
    };

    // the socket drops without DISCONNECT; the loop runs the offline routine
    let (will_deliveries, keep) = handle_clean_session(&mut a, &mut global, 1);
    assert!(will_deliveries.is_empty());
    assert!(keep);

    // a new CONNECT with the same id arrives while the old session drains
    assert!(global.contains_client(&"c1".to_string()));
    let (_, resp, reply) = receive_outgoing(&mut a, &mut global, &mut queue, Outgoing::Online, 1);
    assert_eq!(reply, Some(first_pid));
    assert!(resp.is_none()); // already disconnected: no DISCONNECT frame
    global.store_session(a);

    let (a2, present, takeover) = connect(&mut global, &mut queue, "c1", false, 0, 1);
    assert!(present);
    assert!(!takeover); // the old entry has already left the directory
    global.add_client(a2.client_id());
    let pending = get_unsent_outgoing_packet(&a2, &queue, 1);
    assert_eq!(pending.len(), 1);
    match &pending[0] {
        OutboundPacket::Publish { packet_id, message } => {
            assert_eq!(*packet_id, first_pid);
            assert!(message.dup);
            assert_eq!(message.payload, b"m1".to_vec());
            assert_eq!(message.topic_name, "s");
        }
        _ => panic!("expected replayed publish"),
    }
}

#[test]
fn retain_lifecycle() {
    let mut global = GlobalState::new();
    let mut queue = MemoryQueue::new(16, 60);
    let (mut p, _, _) = connect(&mut global, &mut queue, "P", true, 0, 0);
    global.add_client(p.client_id());
    let (_, out, _) = handle_incoming(
        &mut p,
        &mut global,
        &mut queue,
        Packet::Publish { packet_id: 0, message: msg("r", b"v1", QualityOfService::Level0, true) },
        0,
    );
    assert!(out.is_empty());

    let (mut s1, _, _) = connect(&mut global, &mut queue, "S1", true, 0, 0);
    global.add_client(s1.client_id());
    let (_, out, _) = handle_incoming(
        &mut s1,
        &mut global,
        &mut queue,
        Packet::Subscribe { packet_id: 2, subscribes: vec![("r".to_string(), QualityOfService::Level0)] },
        0,
    );
    assert_eq!(out.len(), 2);
    match &out[1] {
        OutboundPacket::Publish { packet_id, message } => {
            assert_eq!(*packet_id, 0);
            assert_eq!(message.payload, b"v1".to_vec());
            assert!(message.retain);
        }
        _ => panic!("expected retained publish"),
    }

    // an empty retained payload deletes the entry
    handle_incoming(
        &mut p,
        &mut global,
        &mut queue,
        Packet::Publish { packet_id: 0, message: msg("r", b"", QualityOfService::Level0, true) },
        0,
    );
    let (mut s2, _, _) = connect(&mut global, &mut queue, "S2", true, 0, 0);
    global.add_client(s2.client_id());
    let (_, out, _) = handle_incoming(
        &mut s2,
        &mut global,
        &mut queue,
        Packet::Subscribe { packet_id: 3, subscribes: vec![("r".to_string(), QualityOfService::Level0)] },
        0,
    );
    assert_eq!(out.len(), 1); // the suback alone: no retained delivery
}

#[test]
fn keep_alive_expiry() {
    // keep_alive 2: expired strictly after one and a half periods
    assert!(!keep_alive_expired(2, 0, 3));
    assert!(keep_alive_expired(2, 0, 4));
    // a frame per period keeps the session alive
    assert!(!keep_alive_expired(2, 10, 12));
    // keep_alive 0 disables the watchdog
    assert!(!keep_alive_expired(0, 0, 1_000_000));
}

#[test]
fn shared_subscription_rejected() {
    let mut global = GlobalState::new();
    let mut queue = MemoryQueue::new(16, 60);
    let (mut a, _, _) = connect(&mut global, &mut queue, "A", true, 0, 0);
    global.add_client(a.client_id());
    let (stop, out, _) = handle_incoming(
        &mut a,
        &mut global,
        &mut queue,
        Packet::Subscribe {
            packet_id: 9,
            subscribes: vec![("$share/g/t".to_string(), QualityOfService::Level1)],
        },
        0,
    );
    assert!(!stop);
    assert_eq!(out.len(), 1);
    match &out[0] {
        OutboundPacket::Suback { packet_id, return_codes } => {
            assert_eq!(*packet_id, 9);
            assert_eq!(return_codes, &vec![ReturnCode::Failure]);
            assert_eq!(return_codes[0].value(), 0x80);
        }
        _ => panic!("expected suback"),
    }
}

#[test]
fn connect_rejects_bad_protocol_and_empty_id() {
    let mut global = GlobalState::new();
    let mut queue = MemoryQueue::new(16, 60);
    let bad = ConnectPacket {
        protocol_name: "MQIsdp".to_string(),
        protocol_level: 3,
        client_id: "x".to_string(),
        clean_session: true,
        keep_alive: 0,
        will: None,
    };
    match handle_connect(&mut global, &mut queue, bad, 0) {
        ConnectOutcome::Reject(code) => {
            assert_eq!(code, ConnackCode::UnacceptableProtocolVersion)
        }
        _ => panic!("expected rejection"),
    }
    let empty = ConnectPacket {
        protocol_name: "MQTT".to_string(),
        protocol_level: 4,
        client_id: String::new(),
        clean_session: true,
        keep_alive: 0,
        will: None,
    };
    match handle_connect(&mut global, &mut queue, empty, 0) {
        ConnectOutcome::Reject(code) => assert_eq!(code, ConnackCode::IdentifierRejected),
        _ => panic!("expected rejection"),
    }
}

#[test]
fn disconnect_clears_will_and_stops() {
    let mut global = GlobalState::new();
    let mut queue = MemoryQueue::new(16, 60);
    let packet = ConnectPacket {
        protocol_name: "MQTT".to_string(),
        protocol_level: 4,
        client_id: "W".to_string(),
        clean_session: true,
        keep_alive: 0,
        will: Some(msg("gone", b"bye", QualityOfService::Level0, false)),
    };
    let mut w = match handle_connect(&mut global, &mut queue, packet, 0) {
        ConnectOutcome::Accept { session, .. } => session,
        _ => panic!("expected accept"),
    };
    global.add_client(w.client_id());
    let (stop, out, deliveries) =
        handle_incoming(&mut w, &mut global, &mut queue, Packet::Disconnect, 0);
    assert!(stop);
    assert!(out.is_empty());
    assert!(deliveries.is_empty());
    // the graceful disconnect killed the will: the offline routine fans nothing out
    let (will_deliveries, keep) = handle_clean_session(&mut w, &mut global, 1);
    assert!(will_deliveries.is_empty());
    assert!(!keep);
}

#[test]
fn ungraceful_disconnect_publishes_will() {
    let mut global = GlobalState::new();
    let mut queue = MemoryQueue::new(16, 60);
    let (mut sub, _, _) = connect(&mut global, &mut queue, "S", true, 0, 0);
    global.add_client(sub.client_id());
    handle_incoming(
        &mut sub,
        &mut global,
        &mut queue,
        Packet::Subscribe { packet_id: 1, subscribes: vec![("gone".to_string(), QualityOfService::Level0)] },
        0,
    );
    let packet = ConnectPacket {
        protocol_name: "MQTT".to_string(),
        protocol_level: 4,
        client_id: "W".to_string(),
        clean_session: true,
        keep_alive: 0,
        will: Some(msg("gone", b"bye", QualityOfService::Level0, false)),
    };
    let mut w = match handle_connect(&mut global, &mut queue, packet, 0) {
        ConnectOutcome::Accept { session, .. } => session,
        _ => panic!("expected accept"),
    };
    global.add_client(w.client_id());
    // the socket dies without DISCONNECT
    let (will_deliveries, _) = handle_clean_session(&mut w, &mut global, 1);
    assert_eq!(will_deliveries.len(), 1);
    assert_eq!(will_deliveries[0].client_id, "S");
    assert_eq!(will_deliveries[0].message.payload, b"bye".to_vec());
}

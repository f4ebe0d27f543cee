use mesquitte_core::handlers::{publish_to_subscribers, receive_outgoing_publish, GlobalState};
use mesquitte_core::publish::{get_unix_ts, IncomingPublishPacket, OutgoingPublishPacket, PublishMessage};
use mesquitte_core::qos::{min_qos, QualityOfService};
use mesquitte_core::queue::MemoryQueue;
use mesquitte_core::retain::{RetainContent, RetainTable};
use mesquitte_core::router::{RouteOptions, RouteTable};
use mesquitte_core::session::{keep_alive_expired, Session};
use mesquitte_core::topic::{is_shared, split_levels, topic_matches};

fn msg(topic: &str, payload: &[u8], qos: QualityOfService) -> PublishMessage {
    PublishMessage::new(topic.to_string(), payload.to_vec(), qos, false, false)
}

#[test]
fn qos_values_and_min() {
    assert_eq!(QualityOfService::Level0.value(), 0);
    assert_eq!(QualityOfService::Level1.value(), 1);
    assert_eq!(QualityOfService::Level2.value(), 2);
    assert_eq!(QualityOfService::from_value(1), Some(QualityOfService::Level1));
    assert_eq!(QualityOfService::from_value(3), None);
    assert_eq!(
        min_qos(QualityOfService::Level2, QualityOfService::Level1),
        QualityOfService::Level1
    );
    assert_eq!(
        min_qos(QualityOfService::Level0, QualityOfService::Level2),
        QualityOfService::Level0
    );
}

#[test]
fn topic_matching() {
    assert!(topic_matches("a/b", "a/b"));
    assert!(!topic_matches("a/b", "a/c"));
    assert!(topic_matches("a/+", "a/b"));
    assert!(!topic_matches("a/+", "a/b/c"));
    assert!(topic_matches("a/#", "a/b/c"));
    assert!(topic_matches("sport/#", "sport"));
    assert!(topic_matches("#", "a/b"));
    assert!(topic_matches("+/b/+", "a/b/c"));
    assert!(!topic_matches("+/b", "a/c"));
    // wildcards never match topics under `$`
    assert!(!topic_matches("#", "$SYS/x"));
    assert!(!topic_matches("+/x", "$SYS/x"));
    assert!(topic_matches("$SYS/x", "$SYS/x"));
    // empty levels are real levels
    assert!(topic_matches("a//b", "a//b"));
    assert!(!topic_matches("a/b", "a//b"));
}

#[test]
fn split_and_shared() {
    let levels = split_levels("a/b/c");
    assert_eq!(levels, vec!["a".to_string(), "b".to_string(), "c".to_string()]);
    assert_eq!(split_levels(""), vec![String::new()]);
    assert_eq!(split_levels("/a/"), vec![String::new(), "a".to_string(), String::new()]);
    assert!(is_shared("$share/g/t"));
    assert!(is_shared("$share/"));
    assert!(!is_shared("$shar"));
    assert!(!is_shared("a/b"));
}

#[test]
fn packet_types_carry_their_fields() {
    let m = msg("t", b"p", QualityOfService::Level2);
    assert_eq!(m.topic_name(), "t");
    assert_eq!(m.payload(), &b"p".to_vec());
    assert_eq!(m.qos(), QualityOfService::Level2);
    assert!(!m.dup());
    assert!(!m.retain());
    let mut o = OutgoingPublishPacket::new(4, QualityOfService::Level1, m, 100);
    assert_eq!(o.packet_id(), 4);
    assert_eq!(o.subscribe_qos(), QualityOfService::Level1);
    assert_eq!(o.final_qos(), QualityOfService::Level1);
    assert_eq!(o.added_at(), 100);
    assert_eq!(o.pubrec_at(), None);
    o.renew_pubrec_at(101);
    assert_eq!(o.pubrec_at(), Some(101));
    o.renew_pubcomp_at(102);
    assert_eq!(o.pubcomp_at(), Some(102));
    o.get_mut_message().set_dup();
    assert!(o.message().dup());
    let mut i = IncomingPublishPacket::new(9, msg("t", b"x", QualityOfService::Level2), 5);
    assert_eq!(i.packet_id(), 9);
    assert_eq!(i.receive_at(), 5);
    assert_eq!(i.deliver_at(), None);
    i.renew_deliver_at(6);
    assert_eq!(i.deliver_at(), Some(6));
    assert_eq!(i.message().payload(), &b"x".to_vec());
}

#[test]
fn unix_timestamp_is_sane() {
    // well after the epoch on any correctly-set clock
    assert!(get_unix_ts() > 1_000_000_000);
}

#[test]
fn queue_acknowledgement_lifecycle() {
    let cid = "c".to_string();
    let mut q = MemoryQueue::new(4, 60);
    assert!(!q.push_outgoing_back(&cid, 1, QualityOfService::Level2, msg("t", b"a", QualityOfService::Level2), 0));
    assert!(!q.push_outgoing_back(&cid, 2, QualityOfService::Level1, msg("t", b"b", QualityOfService::Level1), 0));

    // PUBREC advances only the matching quality-of-service-2 entry
    assert!(!q.pubrec(&cid, 2, 1)); // id 2 is level 1
    assert!(q.pubrec(&cid, 1, 1));
    assert!(!q.pubrec(&cid, 1, 1)); // already advanced

    // PUBACK completes the level-1 entry
    assert!(q.puback(&cid, 2, 2));
    assert!(!q.puback(&cid, 2, 2));

    // PUBCOMP finishes the level-2 entry once its PUBREC was seen
    assert!(q.pubcomp(&cid, 1, 3));

    // both complete: nothing awaits a first transmission
    let unsent = q.get_unsent_outgoing_packets(&cid, 3).unwrap();
    assert!(unsent.is_empty());

    // the clean pass purges one completed entry per call
    q.clean_outgoing(&cid, 3);
    q.clean_outgoing(&cid, 3);
    assert_eq!(q.outgoing_packet_ids(&cid), Vec::<u16>::new());
}

#[test]
fn queue_capacity_and_replay_order() {
    let cid = "c".to_string();
    let mut q = MemoryQueue::new(2, 60);
    assert!(!q.push_outgoing_back(&cid, 1, QualityOfService::Level1, msg("t", b"a", QualityOfService::Level1), 0));
    assert!(!q.push_outgoing_back(&cid, 2, QualityOfService::Level1, msg("t", b"b", QualityOfService::Level1), 0));
    // the queue is at max_inflight: the caller must drop
    assert!(q.push_outgoing_back(&cid, 3, QualityOfService::Level1, msg("t", b"c", QualityOfService::Level1), 0));
    let unsent = q.get_unsent_outgoing_packets(&cid, 0).unwrap();
    assert_eq!(unsent.len(), 2);
    assert_eq!(unsent[0].packet_id, 1);
    assert_eq!(unsent[1].packet_id, 2);
    // an entry past its time-to-live is not replayed
    let unsent = q.get_unsent_outgoing_packets(&cid, 61).unwrap();
    assert!(unsent.is_empty());
    // an unknown client has no queue at all
    assert!(q.get_unsent_outgoing_packets(&"other".to_string(), 0).is_none());
}

#[test]
fn queue_incoming_dedup_and_clean() {
    let cid = "c".to_string();
    let mut q = MemoryQueue::new(4, 60);
    assert!(!q.push_qos2_back(&cid, 7, msg("t", b"x", QualityOfService::Level2), 0));
    assert!(q.contains_incoming(&cid, 7));
    assert!(!q.contains_incoming(&cid, 8));
    let ready = q.get_ready_incoming_packets(&cid, 0).unwrap();
    assert_eq!(ready.len(), 1);
    assert_eq!(ready[0].packet_id, 7);
    let released = q.pubrel(&cid, 7, 1).expect("entry released");
    assert_eq!(released.payload, b"x".to_vec());
    assert!(q.pubrel(&cid, 7, 1).is_none()); // released once
    assert!(!q.contains_incoming(&cid, 7));
    // the delivered entry is purged by the clean pass
    q.clean_incoming(&cid, 1);
    assert!(q.get_ready_incoming_packets(&cid, 1).unwrap().is_empty());
    q.remove(&cid);
    assert!(q.get_ready_incoming_packets(&cid, 1).is_none());
}

#[test]
fn session_packet_id_allocation_skips_inflight() {
    let mut s = Session::new("c".to_string(), true, 0, None, 0);
    assert_eq!(s.server_packet_id(), 0);
    assert_eq!(s.incr_server_packet_id(&vec![]), Some(1));
    assert_eq!(s.incr_server_packet_id(&vec![2, 3]), Some(4));
    assert_eq!(s.server_packet_id(), 4);
    // wraps past 65535, skipping id 0
    let mut w = Session::new("c".to_string(), true, 0, None, 0);
    w.incr_server_packet_id(&vec![]);
    for _ in 0..2 {
        // drive the counter to the top by allocating with everything
        // below the top inflight
        let inflight: Vec<u16> = (1..65535).collect();
        assert_eq!(w.incr_server_packet_id(&inflight), Some(65535));
        assert_eq!(w.incr_server_packet_id(&vec![]), Some(1));
    }
}

#[test]
fn packet_id_space_exhaustion() {
    let mut s = Session::new("c".to_string(), true, 0, None, 0);
    let all: Vec<u16> = (1..=65535).collect();
    assert_eq!(s.incr_server_packet_id(&all), None);
    assert_eq!(s.server_packet_id(), 0); // the counter is untouched on failure
    let almost: Vec<u16> = (1..65535).collect();
    assert_eq!(s.incr_server_packet_id(&almost), Some(65535));
}

#[test]
fn keep_alive_half_period_boundary() {
    // keep_alive 3: one and a half periods is 4.5 seconds
    assert!(!keep_alive_expired(3, 0, 4));
    assert!(keep_alive_expired(3, 0, 5));
}

#[test]
fn session_subscriptions_are_a_set() {
    let mut s = Session::new("c".to_string(), false, 30, None, 0);
    s.subscribe("a/b".to_string());
    s.subscribe("a/b".to_string());
    s.subscribe("c".to_string());
    assert_eq!(s.subscriptions().len(), 2);
    assert!(s.unsubscribe(&"a/b".to_string()));
    assert!(!s.unsubscribe(&"a/b".to_string()));
    assert_eq!(s.subscriptions().len(), 1);
    assert_eq!(s.keep_alive(), 30);
    assert!(!s.clean_session());
    assert!(!s.disconnected());
    s.set_server_disconnected();
    assert!(s.disconnected());
}

#[test]
fn retain_table_replace_and_delete() {
    let mut rt = RetainTable::new();
    let prev = rt.insert(RetainContent::new("p".to_string(), "r".to_string(), b"v1".to_vec(), QualityOfService::Level0));
    assert!(prev.is_none());
    let prev = rt.insert(RetainContent::new("p".to_string(), "r".to_string(), b"v2".to_vec(), QualityOfService::Level1));
    assert_eq!(prev.expect("replaced").payload, b"v1".to_vec());
    let hits = rt.get_matches("r");
    assert_eq!(hits.len(), 1);
    assert_eq!(hits[0].payload, b"v2".to_vec());
    assert_eq!(hits[0].qos, QualityOfService::Level1);
    let gone = rt.remove(&"r".to_string()).expect("deleted");
    assert_eq!(gone.payload, b"v2".to_vec());
    assert!(rt.get_matches("r").is_empty());
    assert!(rt.remove(&"r".to_string()).is_none());
}

#[test]
fn retain_matches_by_filter() {
    let mut rt = RetainTable::new();
    rt.insert(RetainContent::new("p".to_string(), "a/1".to_string(), b"x".to_vec(), QualityOfService::Level0));
    rt.insert(RetainContent::new("p".to_string(), "a/2".to_string(), b"y".to_vec(), QualityOfService::Level0));
    rt.insert(RetainContent::new("p".to_string(), "b/1".to_string(), b"z".to_vec(), QualityOfService::Level0));
    let hits = rt.get_matches("a/+");
    assert_eq!(hits.len(), 2);
    assert_eq!(hits[0].topic_name, "a/1");
    assert_eq!(hits[1].topic_name, "a/2");
    assert_eq!(rt.get_matches("#").len(), 3);
}

#[test]
fn router_subscribe_and_fan_out() {
    let mut router = RouteTable::new();
    let a = "A".to_string();
    let b = "B".to_string();
    assert!(router.subscribe(&a, &"t/+".to_string(), RouteOptions::V4(QualityOfService::Level1)));
    assert!(router.subscribe(&b, &"t/x".to_string(), RouteOptions::V4(QualityOfService::Level0)));
    // a renewed subscription replaces the options in place
    assert!(!router.subscribe(&a, &"t/+".to_string(), RouteOptions::V4(QualityOfService::Level2)));
    let targets = router.get_matches("t/x");
    assert_eq!(targets.len(), 2);
    assert_eq!(targets[0].0, "A");
    assert_eq!(targets[0].1, RouteOptions::V4(QualityOfService::Level2));
    assert_eq!(targets[1].0, "B");
    assert!(router.unsubscribe(&a, &"t/+".to_string()));
    assert!(!router.unsubscribe(&a, &"t/+".to_string()));
    assert_eq!(router.get_matches("t/x").len(), 1);
    router.remove_client(&b);
    assert!(router.get_matches("t/x").is_empty());
}

#[test]
fn fan_out_lowers_to_granted_level() {
    let mut global = GlobalState::new();
    let a = "A".to_string();
    global.router.subscribe(&a, &"t".to_string(), RouteOptions::V4(QualityOfService::Level1));
    let deliveries = publish_to_subscribers(&global.router, &msg("t", b"m", QualityOfService::Level2));
    assert_eq!(deliveries.len(), 1);
    let d = deliveries.into_iter().next().unwrap();
    let mut session = Session::new(a, true, 0, None, 0);
    let mut q = MemoryQueue::new(4, 60);
    let out = receive_outgoing_publish(&mut session, &mut q, d.subscribe_qos, d.message, 0).unwrap();
    match out {
        mesquitte_core::handlers::OutboundPacket::Publish { packet_id, message } => {
            assert_eq!(packet_id, 1);
            assert_eq!(message.qos, QualityOfService::Level1);
            // the stored copy awaits its acknowledgement under that id
            assert_eq!(q.outgoing_packet_ids(&session.client_id), vec![1]);
        }
        _ => panic!("expected publish"),
    }
}

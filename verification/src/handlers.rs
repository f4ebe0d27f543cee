use vstd::map::*;
use vstd::prelude::*;

use crate::alist::{kv_find, kv_map, kv_unique, lemma_kv_contains, lemma_kv_index, lemma_kv_push, lemma_kv_remove};
use crate::publish::{PublishMessage, SpecOutgoingPublishPacket, SpecPublishMessage};
use crate::qos::{min_qos, spec_min_qos, QualityOfService};
use crate::queue::{spec_has_packet_id, spec_ids_exhausted, MemoryQueue};
use crate::retain::{RetainTable, SpecRetainContent};
use crate::router::{RouteOptions, RouteTable, SpecRouteContent};
use crate::session::{Session, SpecSession};

verus! {

/// A decoded inbound MQTT control packet, as the codec hands it to the
/// writer fiber. A PUBLISH below quality of service 1 carries packet
/// id 0, which the wire does not encode.
#[derive(Debug)]
pub enum Packet {
    Pingreq,
    Publish { packet_id: u16, message: PublishMessage },
    Puback(u16),
    Pubrec(u16),
    Pubrel(u16),
    Pubcomp(u16),
    Subscribe { packet_id: u16, subscribes: Vec<(String, QualityOfService)> },
    Unsubscribe { packet_id: u16, filters: Vec<String> },
    Disconnect,
    Unsupported,
}

/// A SUBACK return code: the granted level, or failure.
#[derive(Clone, Copy, Debug, PartialEq, Eq, Structural)]
pub enum ReturnCode {
    Granted(QualityOfService),
    Failure,
}

impl ReturnCode {
    /// The code's value on the wire: the granted level, or 0x80.
    pub open spec fn spec_value(self) -> u8 {
        match self {
            ReturnCode::Granted(q) => q.spec_value(),
            ReturnCode::Failure => 0x80,
        }
    }

    pub fn value(self) -> (r: u8)
        ensures
            r == self.spec_value(),
    {
        match self {
            ReturnCode::Granted(q) => q.value(),
            ReturnCode::Failure => 0x80,
        }
    }
}

/// An outbound MQTT control packet the writer fiber must encode and
/// send, in order.
#[derive(Debug, PartialEq)]
pub enum OutboundPacket {
    Pingresp,
    Publish { packet_id: u16, message: PublishMessage },
    Puback(u16),
    Pubrec(u16),
    Pubrel(u16),
    Pubcomp(u16),
    Suback { packet_id: u16, return_codes: Vec<ReturnCode> },
    Unsuback(u16),
    Disconnect,
}

/// Mathematical value of a [`Delivery`].
#[verifier::ext_equal]
pub ghost struct SpecDelivery {
    pub client_id: Seq<char>,
    pub subscribe_qos: QualityOfService,
    pub message: SpecPublishMessage,
}

/// One fan-out step: this message is owed to that subscriber at its
/// granted level. The runtime pushes it onto the subscriber's outgoing
/// channel.
#[derive(Debug)]
pub struct Delivery {
    pub client_id: String,
    pub subscribe_qos: QualityOfService,
    pub message: PublishMessage,
}

impl View for Delivery {
    type V = SpecDelivery;

    open spec fn view(&self) -> SpecDelivery {
        SpecDelivery {
            client_id: self.client_id@,
            subscribe_qos: self.subscribe_qos,
            message: self.message@,
        }
    }
}

impl DeepView for Delivery {
    type V = SpecDelivery;

    open spec fn deep_view(&self) -> SpecDelivery {
        self.view()
    }
}

/// The deliveries a fan-out owes: one per route target, in target
/// order, all carrying the message.
pub open spec fn spec_deliveries(
    targets: Seq<(Seq<char>, RouteOptions)>,
    m: SpecPublishMessage,
) -> Seq<SpecDelivery> {
    targets.map_values(
        |p: (Seq<char>, RouteOptions)|
            SpecDelivery {
                client_id: p.0,
                subscribe_qos: (match p.1 {
                    RouteOptions::V4(q) => q,
                }),
                message: m,
            },
    )
}

/// A message sent to a session's outgoing channel by another session
/// or by the broker itself.
pub enum Outgoing {
    /// Deliver this message at the subscription's granted level.
    Publish(QualityOfService, PublishMessage),
    /// A new CONNECT arrived for this client id; reply with the current
    /// packet-id counter and relinquish.
    Online,
    /// Terminate the session, with a reason for the log.
    Kick(String),
}

/// Broker-wide shared state: the route table, the retained messages,
/// the directory of live clients, and the sessions relinquished by
/// non-clean disconnects.
pub struct GlobalState {
    pub router: RouteTable,
    pub retain_table: RetainTable,
    pub clients: Vec<String>,
    pub stored_sessions: Vec<(String, Session)>,
}

impl GlobalState {
    pub open spec fn wf(self) -> bool {
        &&& self.router.wf()
        &&& self.retain_table.wf()
        &&& (forall|i: int, j: int|
            0 <= i < j < self.clients@.len() ==> self.clients@[i]@ != self.clients@[j]@)
        &&& kv_unique(self.stored_sessions@)
        &&& (forall|i: int|
            0 <= i < self.stored_sessions@.len() ==> (#[trigger] self.stored_sessions@[i]).1.wf())
        &&& (forall|i: int|
            0 <= i < self.stored_sessions@.len() ==> (#[trigger] self.stored_sessions@[
                i
            ]).1.client_id@ == self.stored_sessions@[i].0@)
    }

    /// The client ids of live sessions.
    pub open spec fn directory(self) -> Seq<Seq<char>> {
        self.clients.deep_view()
    }

    /// The relinquished sessions, per client id.
    pub open spec fn stored(self) -> Map<Seq<char>, SpecSession> {
        kv_map(self.stored_sessions@)
    }

    pub fn new() -> (r: GlobalState)
        ensures
            r.wf(),
            r.directory() == Seq::<Seq<char>>::empty(),
            r.stored() == Map::<Seq<char>, SpecSession>::empty(),
            r.router.map() == Map::<Seq<char>, SpecRouteContent>::empty(),
            r.router.contents() == Seq::<SpecRouteContent>::empty(),
            r.retain_table.map() == Map::<Seq<char>, SpecRetainContent>::empty(),
            r.retain_table.contents() == Seq::<SpecRetainContent>::empty(),
    {
        let r = GlobalState {
            router: RouteTable::new(),
            retain_table: RetainTable::new(),
            clients: Vec::new(),
            stored_sessions: Vec::new(),
        };
        proof {
            assert(r.directory() =~= Seq::<Seq<char>>::empty());
        }
        r
    }

    /// Whether a live session holds this client id.
    pub fn contains_client(&self, client_id: &String) -> (r: bool)
        ensures
            r == self.directory().contains(client_id@),
    {
        let mut i: usize = 0;
        while i < self.clients.len()
            invariant
                i <= self.clients@.len(),
                forall|k: int| 0 <= k < i ==> self.clients@[k]@ != client_id@,
            decreases self.clients@.len() - i,
        {
            if self.clients[i] == *client_id {
                proof {
                    assert(self.directory()[i as int] == client_id@);
                }
                return true;
            }
            i += 1;
        }
        proof {
            if self.directory().contains(client_id@) {
                let k = choose|k: int|
                    0 <= k < self.directory().len() && self.directory()[k] == client_id@;
            }
        }
        false
    }

    /// Register a live session's client id in the directory.
    pub fn add_client(&mut self, client_id: &String)
        requires
            old(self).wf(),
        ensures
            final(self).wf(),
            final(self).router == old(self).router,
            final(self).retain_table == old(self).retain_table,
            final(self).stored_sessions == old(self).stored_sessions,
            old(self).directory().contains(client_id@) ==> *final(self) == *old(self),
            !old(self).directory().contains(client_id@) ==> final(self).directory() == old(
                self,
            ).directory().push(client_id@),
    {
        let mut i: usize = 0;
        while i < self.clients.len()
            invariant
                i <= self.clients@.len(),
                old(self).wf(),
                *self == *old(self),
                forall|k: int| 0 <= k < i ==> self.clients@[k]@ != client_id@,
            decreases self.clients@.len() - i,
        {
            if self.clients[i] == *client_id {
                proof {
                    assert(self.directory()[i as int] == client_id@);
                }
                return ;
            }
            i += 1;
        }
        proof {
            if self.directory().contains(client_id@) {
                let k = choose|k: int|
                    0 <= k < self.directory().len() && self.directory()[k] == client_id@;
            }
        }
        let ghost pre = self.clients.deep_view();
        self.clients.push(client_id.clone());
        proof {
            assert(self.directory() =~= pre.push(client_id@));
        }
    }

    /// Unregister the client: drop its directory entry and take it out
    /// of every route entry.
    pub fn remove_client(&mut self, client_id: &String)
        requires
            old(self).wf(),
        ensures
            final(self).wf(),
            final(self).retain_table == old(self).retain_table,
            final(self).stored_sessions == old(self).stored_sessions,
            forall|x: Seq<char>|
                final(self).directory().contains(x) == (old(self).directory().contains(x) && x
                    != client_id@),
            final(self).router.map().dom() == old(self).router.map().dom(),
            forall|f: Seq<char>|
                old(self).router.map().contains_key(f) ==> final(self).router.map()[f]
                    == (SpecRouteContent {
                    topic_filter: old(self).router.map()[f].topic_filter,
                    clients: crate::router::spec_unsubscribe_clients(
                        old(self).router.map()[f].clients,
                        client_id@,
                    ),
                }),
            final(self).router.contents().len() == old(self).router.contents().len(),
            forall|k: int|
                0 <= k < old(self).router.contents().len()
                    ==> #[trigger] final(self).router.contents()[k]
                    == (SpecRouteContent {
                    topic_filter: old(self).router.contents()[k].topic_filter,
                    clients: crate::router::spec_unsubscribe_clients(
                        old(self).router.contents()[k].clients,
                        client_id@,
                    ),
                }),
    {
        let ghost pre = self.clients.deep_view();
        let mut i: usize = 0;
        let mut removed = false;
        while i < self.clients.len() && !removed
            invariant
                i <= self.clients@.len(),
                old(self).wf(),
                self.router == old(self).router,
                self.retain_table == old(self).retain_table,
                self.stored_sessions == old(self).stored_sessions,
                pre == old(self).clients.deep_view(),
                !removed ==> self.clients == old(self).clients,
                !removed ==> forall|k: int| 0 <= k < i ==> self.clients@[k]@ != client_id@,
                removed ==> forall|x: Seq<char>|
                    self.clients.deep_view().contains(x) == (pre.contains(x) && x != client_id@),
                removed ==> forall|a: int, b: int|
                    0 <= a < b < self.clients@.len() ==> self.clients@[a]@ != self.clients@[b]@,
            decreases self.clients@.len() - i,
        {
            if self.clients[i] == *client_id {
                proof {
                    assert(pre[i as int] == client_id@);
                }
                self.clients.remove(i);
                removed = true;
                proof {
                    let cur = self.clients.deep_view();
                    assert(cur =~= pre.remove(i as int));
                    assert forall|x: Seq<char>|
                        cur.contains(x) == (pre.contains(x) && x != client_id@) by {
                        if cur.contains(x) {
                            let k = choose|k: int| 0 <= k < cur.len() && cur[k] == x;
                            let pk: int = if k < i { k } else { k + 1 };
                            assert(pre[pk] == x);
                            assert(pk != i);
                        }
                        if pre.contains(x) && x != client_id@ {
                            let k = choose|k: int| 0 <= k < pre.len() && pre[k] == x;
                            let nk: int = if k < i { k } else { k - 1 };
                            assert(cur[nk] == x);
                        }
                    }
                    assert forall|a: int, b: int|
                        0 <= a < b < self.clients@.len() implies self.clients@[a]@
                        != self.clients@[b]@ by {
                        let pa: int = if a < i { a } else { a + 1 };
                        let pb: int = if b < i { b } else { b + 1 };
                        assert(old(self).clients@[pa]@ != old(self).clients@[pb]@);
                    }
                }
            } else {
                i += 1;
            }
        }
        proof {
            if !removed {
                if pre.contains(client_id@) {
                    let k = choose|k: int| 0 <= k < pre.len() && pre[k] == client_id@;
                }
            }
        }
        self.router.remove_client(client_id);
    }

    /// Keep a relinquished session for a later non-clean reconnect.
    pub fn store_session(&mut self, session: Session)
        requires
            old(self).wf(),
            session.wf(),
        ensures
            final(self).wf(),
            final(self).router == old(self).router,
            final(self).retain_table == old(self).retain_table,
            final(self).clients == old(self).clients,
            final(self).stored() == old(self).stored().insert(session.client_id@, session@),
    {
        let r = kv_find(&self.stored_sessions, &session.client_id);
        match r {
            Some(i) => {
                proof {
                    lemma_kv_contains(self.stored_sessions@, session.client_id@);
                    lemma_kv_index(self.stored_sessions@, i as int);
                }
                let ghost pre = self.stored_sessions@;
                self.stored_sessions[i].1 = session;
                proof {
                    crate::alist::lemma_kv_update(pre, i as int, self.stored_sessions@[i as int]);
                }
            },
            None => {
                let ghost pre = self.stored_sessions@;
                let key = session.client_id.clone();
                self.stored_sessions.push((key, session));
                proof {
                    lemma_kv_push(pre, self.stored_sessions@.last());
                }
            },
        }
    }

    /// Reclaim the relinquished session for this client id, if one is
    /// kept.
    pub fn take_session(&mut self, client_id: &String) -> (r: Option<Session>)
        requires
            old(self).wf(),
        ensures
            final(self).wf(),
            final(self).router == old(self).router,
            final(self).retain_table == old(self).retain_table,
            final(self).clients == old(self).clients,
            final(self).stored() == old(self).stored().remove(client_id@),
            (r is Some) == old(self).stored().contains_key(client_id@),
            (match r {
                Some(s) => s@ == old(self).stored()[client_id@] && s.wf() && s.client_id@
                    == client_id@,
                None => true,
            }),
    {
        let rr = kv_find(&self.stored_sessions, client_id);
        match rr {
            Some(i) => {
                proof {
                    lemma_kv_contains(self.stored_sessions@, client_id@);
                    lemma_kv_index(self.stored_sessions@, i as int);
                    lemma_kv_remove(self.stored_sessions@, i as int);
                }
                let pair = self.stored_sessions.remove(i);
                Some(pair.1)
            },
            None => {
                proof {
                    lemma_kv_contains(self.stored_sessions@, client_id@);
                    assert(self.stored() =~= self.stored().remove(client_id@));
                }
                None
            },
        }
    }
}

/// The fan-out of one message: a delivery for every subscriber whose
/// filter matches its topic, in route-table order.
pub fn publish_to_subscribers(router: &RouteTable, message: &PublishMessage) -> (r: Vec<Delivery>)
    requires
        router.wf(),
    ensures
        r.deep_view() == spec_deliveries(
            crate::router::spec_route_targets(router.contents(), message.topic_name@),
            message@,
        ),
{
    let targets = router.get_matches(message.topic_name.as_str());
    let ghost ts = targets.deep_view();
    let mut out: Vec<Delivery> = Vec::new();
    let mut j: usize = 0;
    proof {
        assert(out.deep_view() =~= spec_deliveries(ts.subrange(0, 0), message@));
    }
    while j < targets.len()
        invariant
            j <= targets@.len(),
            ts == targets.deep_view(),
            out.deep_view() == spec_deliveries(ts.subrange(0, j as int), message@),
        decreases targets@.len() - j,
    {
        let ghost out0 = out.deep_view();
        let pair = &targets[j];
        let qos = match pair.1 {
            RouteOptions::V4(q) => q,
        };
        let d = Delivery { client_id: pair.0.clone(), subscribe_qos: qos, message: message.clone() };
        proof {
            assert(ts[j as int] == targets@[j as int].deep_view());
            assert(d@.client_id == ts[j as int].0);
            assert(d@.message == message@);
            assert(d@ == spec_deliveries(ts.subrange(0, j + 1), message@)[j as int]);
        }
        let ghost outv0 = out@;
        out.push(d);
        proof {
            assert(ts.subrange(0, j + 1) =~= ts.subrange(0, j as int).push(ts[j as int]));
            assert(out0.len() == j as int);
            assert(outv0.len() == j as int);
            assert(out@ == outv0.push(d));
            assert(outv0.push(d)[j as int] == d);
            assert forall|k: int|
                0 <= k < j implies out.deep_view()[k] == spec_deliveries(
                ts.subrange(0, j + 1),
                message@,
            )[k] by {
                assert(out0.len() == j as int);
                assert(outv0.len() == j as int);
                assert(outv0.push(d)[k] == outv0[k]);
                assert(out.deep_view()[k] == out0[k]);
                assert(out0[k] == spec_deliveries(ts.subrange(0, j as int), message@)[k]);
                assert(ts.subrange(0, j as int)[k] == ts[k]);
                assert(ts.subrange(0, j + 1)[k] == ts[k]);
            }
            assert(out@[j as int] == d);
            assert(out.deep_view()[j as int] == d@);
            assert(out.deep_view() =~= spec_deliveries(ts.subrange(0, j + 1), message@));
        }
        j += 1;
    }
    proof {
        assert(ts.subrange(0, ts.len() as int) =~= ts);
    }
    out
}

/// The subscriber side of a fan-out: lower the message to the granted
/// level, allocate a packet id and store the publish when an
/// acknowledgement is owed, and shape the outbound PUBLISH. `None`
/// exactly when an id was needed and every id is inflight.
pub fn receive_outgoing_publish(
    session: &mut Session,
    queue: &mut MemoryQueue,
    subscribe_qos: QualityOfService,
    message: PublishMessage,
    now: u64,
) -> (r: Option<OutboundPacket>)
    requires
        old(queue).wf(),
    ensures
        final(queue).wf(),
        old(queue).same_config(*final(queue)),
        final(queue).incoming() == old(queue).incoming(),
        (r is None) == (spec_min_qos(subscribe_qos, message.qos) != QualityOfService::Level0
            && spec_ids_exhausted(old(queue).outgoing_of(old(session).client_id@))),
        (match r {
            None => *final(session) == *old(session) && final(queue).outgoing() == old(
                queue,
            ).outgoing(),
            Some(p) => (match p {
                OutboundPacket::Publish { packet_id: pid, message: m } => {
                    &&& m@ == (SpecPublishMessage {
                        qos: spec_min_qos(subscribe_qos, message.qos),
                        ..message@
                    })
                    &&& (if spec_min_qos(subscribe_qos, message.qos)
                        == QualityOfService::Level0 {
                        &&& pid == 0
                        &&& *final(session) == *old(session)
                        &&& final(queue).outgoing() == old(queue).outgoing()
                    } else {
                        &&& 1 <= pid
                        &&& !spec_has_packet_id(
                            old(queue).outgoing_of(old(session).client_id@),
                            pid,
                        )
                        &&& *final(session) == (Session {
                            server_packet_id: pid,
                            ..*old(session)
                        })
                        &&& (if old(queue).outgoing_of(old(session).client_id@).len() >= old(
                            queue,
                        ).max_inflight {
                            final(queue).outgoing() == old(queue).outgoing().insert(
                                old(session).client_id@,
                                old(queue).outgoing_of(old(session).client_id@),
                            )
                        } else {
                            final(queue).outgoing() == old(queue).outgoing().insert(
                                old(session).client_id@,
                                old(queue).outgoing_of(old(session).client_id@).push(
                                    SpecOutgoingPublishPacket {
                                        packet_id: pid,
                                        subscribe_qos,
                                        message: m@,
                                        added_at: now,
                                        pubrec_at: None,
                                        pubcomp_at: None,
                                    },
                                ),
                            )
                        })
                    })
                },
                _ => false,
            }),
        }),
{
    let fq = min_qos(subscribe_qos, message.qos);
    let mut msg = message;
    msg.qos = fq;
    if matches!(fq, QualityOfService::Level0) {
        return Some(OutboundPacket::Publish { packet_id: 0, message: msg });
    }
    let inflight = queue.outgoing_packet_ids(&session.client_id);
    let alloc = session.incr_server_packet_id(&inflight);
    match alloc {
        None => {
            proof {
                let s = queue.outgoing_of(old(session).client_id@);
                let ids = s.map_values(|p: SpecOutgoingPublishPacket| p.packet_id);
                assert forall|id: u16| 1 <= id implies spec_has_packet_id(s, id) by {
                    assert(ids.contains(id));
                    let k = choose|k: int| 0 <= k < ids.len() && ids[k] == id;
                    assert(s[k].packet_id == id);
                }
            }
            None
        },
        Some(pid) => {
            proof {
                let s = queue.outgoing_of(old(session).client_id@);
                if spec_has_packet_id(s, pid) {
                    let k = choose|k: int| 0 <= k < s.len() && s[k].packet_id == pid;
                    assert(s.map_values(|p: SpecOutgoingPublishPacket| p.packet_id)[k] == pid);
                    assert(inflight@.contains(pid));
                }
                if spec_ids_exhausted(s) {
                    assert(spec_has_packet_id(s, pid));
                }
            }
            let stored = msg.clone();
            queue.push_outgoing_back(&session.client_id, pid, subscribe_qos, stored, now);
            Some(OutboundPacket::Publish { packet_id: pid, message: msg })
        },
    }
}

/// Handle an inbound PUBLISH: update the retained-message table when
/// the retain flag is set, fan the message out (for quality of service
/// 2 only later, on PUBREL), and shape the acknowledgement. The
/// returned flag asks the loop to stop: a full inbound queue.
pub fn handle_publish(
    session: &Session,
    global: &mut GlobalState,
    queue: &mut MemoryQueue,
    packet_id: u16,
    message: PublishMessage,
    now: u64,
) -> (r: (bool, Option<OutboundPacket>, Vec<Delivery>))
    requires
        old(global).wf(),
        old(queue).wf(),
    ensures
        final(global).wf(),
        final(queue).wf(),
        old(queue).same_config(*final(queue)),
        final(global).router == old(global).router,
        final(global).clients == old(global).clients,
        final(global).stored_sessions == old(global).stored_sessions,
        final(queue).outgoing() == old(queue).outgoing(),
        (if message.retain && message.payload@.len() == 0 {
            final(global).retain_table.map() == old(global).retain_table.map().remove(
                message.topic_name@,
            )
        } else if message.retain {
            final(global).retain_table.map() == old(global).retain_table.map().insert(
                message.topic_name@,
                SpecRetainContent {
                    client_id: session.client_id@,
                    topic_name: message.topic_name@,
                    payload: message.payload@,
                    qos: message.qos,
                },
            )
        } else {
            final(global).retain_table == old(global).retain_table
        }),
        (match message.qos {
            QualityOfService::Level0 => {
                &&& r == (
                    false,
                    None::<OutboundPacket>,
                    r.2,
                )
                &&& r.2.deep_view() == spec_deliveries(
                    crate::router::spec_route_targets(
                        old(global).router.contents(),
                        message.topic_name@,
                    ),
                    message@,
                )
                &&& final(queue).incoming() == old(queue).incoming()
            },
            QualityOfService::Level1 => {
                &&& r == (
                    false,
                    Some(OutboundPacket::Puback(packet_id)),
                    r.2,
                )
                &&& r.2.deep_view() == spec_deliveries(
                    crate::router::spec_route_targets(
                        old(global).router.contents(),
                        message.topic_name@,
                    ),
                    message@,
                )
                &&& final(queue).incoming() == old(queue).incoming()
            },
            QualityOfService::Level2 => {
                &&& r.1 == Some(OutboundPacket::Pubrec(packet_id))
                &&& r.2.deep_view() == Seq::<SpecDelivery>::empty()
                &&& (if crate::queue::first_pubrel_idx(
                    old(queue).incoming_of(session.client_id@),
                    packet_id,
                ) >= 0 {
                    // a duplicate: held already, not fanned out again
                    &&& r.0 == false
                    &&& final(queue).incoming() == old(queue).incoming()
                } else {
                    &&& r.0 == (old(queue).incoming_of(session.client_id@).len() >= old(
                        queue,
                    ).max_inflight)
                    &&& (if r.0 {
                        final(queue).incoming() == old(queue).incoming().insert(
                            session.client_id@,
                            old(queue).incoming_of(session.client_id@),
                        )
                    } else {
                        final(queue).incoming() == old(queue).incoming().insert(
                            session.client_id@,
                            old(queue).incoming_of(session.client_id@).push(
                                crate::publish::SpecIncomingPublishPacket {
                                    message: message@,
                                    packet_id,
                                    receive_at: now,
                                    deliver_at: None,
                                },
                            ),
                        )
                    })
                })
            },
        }),
{
    if message.retain {
        if message.payload.len() == 0 {
            global.retain_table.remove(&message.topic_name);
        } else {
            let content = crate::retain::RetainContent::new(
                session.client_id.clone(),
                message.topic_name.clone(),
                message.payload.clone(),
                message.qos,
            );
            global.retain_table.insert(content);
        }
    }
    match message.qos {
        QualityOfService::Level0 => {
            let deliveries = publish_to_subscribers(&global.router, &message);
            (false, None, deliveries)
        },
        QualityOfService::Level1 => {
            let deliveries = publish_to_subscribers(&global.router, &message);
            (false, Some(OutboundPacket::Puback(packet_id)), deliveries)
        },
        QualityOfService::Level2 => {
            let deliveries: Vec<Delivery> = Vec::new();
            proof {
                assert(deliveries.deep_view() =~= Seq::<SpecDelivery>::empty());
            }
            if queue.contains_incoming(&session.client_id, packet_id) {
                (false, Some(OutboundPacket::Pubrec(packet_id)), deliveries)
            } else {
                let full = queue.push_qos2_back(&session.client_id, packet_id, message, now);
                (full, Some(OutboundPacket::Pubrec(packet_id)), deliveries)
            }
        },
    }
}

/// Handle an inbound PUBREL: release the held quality-of-service-2
/// publish with that id, fan it out, and acknowledge with PUBCOMP. A
/// PUBREL without a held entry (a duplicate) acknowledges alone.
pub fn handle_pubrel(
    session: &Session,
    global: &GlobalState,
    queue: &mut MemoryQueue,
    packet_id: u16,
    now: u64,
) -> (r: (OutboundPacket, Vec<Delivery>))
    requires
        global.wf(),
        old(queue).wf(),
    ensures
        final(queue).wf(),
        old(queue).same_config(*final(queue)),
        final(queue).outgoing() == old(queue).outgoing(),
        r.0 == OutboundPacket::Pubcomp(packet_id),
        old(queue).incoming().contains_key(session.client_id@) ==> final(queue).incoming() == old(
            queue,
        ).incoming().insert(
            session.client_id@,
            crate::queue::spec_pubrel(
                old(queue).incoming_of(session.client_id@),
                packet_id,
                now,
            ),
        ),
        !old(queue).incoming().contains_key(session.client_id@) ==> final(queue).incoming() == old(
            queue,
        ).incoming(),
        (if crate::queue::first_pubrel_idx(
            old(queue).incoming_of(session.client_id@),
            packet_id,
        ) >= 0 {
            r.1.deep_view() == spec_deliveries(
                crate::router::spec_route_targets(
                    global.router.contents(),
                    old(queue).incoming_of(session.client_id@)[crate::queue::first_pubrel_idx(
                        old(queue).incoming_of(session.client_id@),
                        packet_id,
                    )].message.topic_name,
                ),
                old(queue).incoming_of(session.client_id@)[crate::queue::first_pubrel_idx(
                    old(queue).incoming_of(session.client_id@),
                    packet_id,
                )].message,
            )
        } else {
            r.1.deep_view() == Seq::<SpecDelivery>::empty()
        }),
{
    let released = queue.pubrel(&session.client_id, packet_id, now);
    match released {
        Some(msg) => {
            let deliveries = publish_to_subscribers(&global.router, &msg);
            (OutboundPacket::Pubcomp(packet_id), deliveries)
        },
        None => {
            let deliveries: Vec<Delivery> = Vec::new();
            proof {
                assert(deliveries.deep_view() =~= Seq::<SpecDelivery>::empty());
            }
            (OutboundPacket::Pubcomp(packet_id), deliveries)
        },
    }
}

/// Handle an inbound PUBACK: complete the matching outgoing
/// quality-of-service-1 entry.
pub fn handle_puback(session: &Session, queue: &mut MemoryQueue, packet_id: u16, now: u64)
    requires
        old(queue).wf(),
    ensures
        final(queue).wf(),
        old(queue).same_config(*final(queue)),
        final(queue).incoming() == old(queue).incoming(),
        old(queue).outgoing().contains_key(session.client_id@) ==> final(queue).outgoing() == old(
            queue,
        ).outgoing().insert(
            session.client_id@,
            crate::queue::spec_puback(
                old(queue).outgoing_of(session.client_id@),
                packet_id,
                now,
            ),
        ),
        !old(queue).outgoing().contains_key(session.client_id@) ==> final(queue).outgoing() == old(
            queue,
        ).outgoing(),
{
    queue.puback(&session.client_id, packet_id, now);
}

/// Handle an inbound PUBREC: advance the matching outgoing
/// quality-of-service-2 entry and answer with PUBREL.
pub fn handle_pubrec(session: &Session, queue: &mut MemoryQueue, packet_id: u16, now: u64) -> (r:
    OutboundPacket)
    requires
        old(queue).wf(),
    ensures
        final(queue).wf(),
        old(queue).same_config(*final(queue)),
        final(queue).incoming() == old(queue).incoming(),
        r == OutboundPacket::Pubrel(packet_id),
        old(queue).outgoing().contains_key(session.client_id@) ==> final(queue).outgoing() == old(
            queue,
        ).outgoing().insert(
            session.client_id@,
            crate::queue::spec_pubrec(
                old(queue).outgoing_of(session.client_id@),
                packet_id,
                now,
            ),
        ),
        !old(queue).outgoing().contains_key(session.client_id@) ==> final(queue).outgoing() == old(
            queue,
        ).outgoing(),
{
    queue.pubrec(&session.client_id, packet_id, now);
    OutboundPacket::Pubrel(packet_id)
}

/// Handle an inbound PUBCOMP: finish the matching outgoing
/// quality-of-service-2 entry.
pub fn handle_pubcomp(session: &Session, queue: &mut MemoryQueue, packet_id: u16, now: u64)
    requires
        old(queue).wf(),
    ensures
        final(queue).wf(),
        old(queue).same_config(*final(queue)),
        final(queue).incoming() == old(queue).incoming(),
        old(queue).outgoing().contains_key(session.client_id@) ==> final(queue).outgoing() == old(
            queue,
        ).outgoing().insert(
            session.client_id@,
            crate::queue::spec_pubcomp(
                old(queue).outgoing_of(session.client_id@),
                packet_id,
                now,
            ),
        ),
        !old(queue).outgoing().contains_key(session.client_id@) ==> final(queue).outgoing() == old(
            queue,
        ).outgoing(),
{
    queue.pubcomp(&session.client_id, packet_id, now);
}

/// Handle an inbound DISCONNECT: the client leaves gracefully, so the
/// will dies with it.
pub fn handle_disconnect(session: &mut Session)
    ensures
        *final(session) == (Session {
            client_disconnected: true,
            will: None,
            ..*old(session)
        }),
{
    session.set_client_disconnected();
    session.take_will();
}

/// An outbound packet that delivers retained content `c` at the level
/// granted to the new subscriber: the right topic, payload and level,
/// flagged as retained, not a duplicate.
pub open spec fn publish_matches_retained(
    p: OutboundPacket,
    c: SpecRetainContent,
    granted: QualityOfService,
) -> bool {
    match p {
        OutboundPacket::Publish { packet_id, message } => {
            &&& message@.topic_name == c.topic_name
            &&& message@.payload == c.payload
            &&& message@.qos == spec_min_qos(granted, c.qos)
            &&& message@.retain == true
            &&& message@.dup == false
        },
        _ => false,
    }
}

/// Subscribe the session to one filter. A shared filter is refused and
/// nothing changes. Otherwise the filter is granted at the requested
/// level, recorded in the session and the route table, and every
/// matching retained message is shaped into a publish for this
/// subscriber, in table order. The retained list falls short only when
/// the packet-id space runs out, and then stops.
pub fn handle_subscribe_topic(
    session: &mut Session,
    global: &mut GlobalState,
    queue: &mut MemoryQueue,
    topic_filter: &String,
    sub_qos: QualityOfService,
    now: u64,
) -> (r: (ReturnCode, Vec<OutboundPacket>))
    requires
        old(session).wf(),
        old(global).wf(),
        old(queue).wf(),
    ensures
        final(session).wf(),
        final(global).wf(),
        final(queue).wf(),
        old(queue).same_config(*final(queue)),
        final(queue).incoming() == old(queue).incoming(),
        final(global).retain_table == old(global).retain_table,
        final(global).clients == old(global).clients,
        final(global).stored_sessions == old(global).stored_sessions,
        crate::topic::spec_is_shared(topic_filter@) ==> {
            &&& r.0 == ReturnCode::Failure
            &&& r.1@.len() == 0
            &&& *final(session) == *old(session)
            &&& *final(global) == *old(global)
            &&& *final(queue) == *old(queue)
        },
        !crate::topic::spec_is_shared(topic_filter@) ==> {
            &&& r.0 == ReturnCode::Granted(sub_qos)
            &&& final(global).router.map() == old(global).router.map().insert(
                topic_filter@,
                SpecRouteContent {
                    topic_filter: topic_filter@,
                    clients: crate::router::spec_subscribe_clients(
                        old(global).router.clients_of(topic_filter@),
                        old(session).client_id@,
                        RouteOptions::V4(sub_qos),
                    ),
                },
            )
            &&& *final(session) == (Session {
                subscriptions: final(session).subscriptions,
                server_packet_id: final(session).server_packet_id,
                ..*old(session)
            })
            &&& (if old(session).subs().contains(topic_filter@) {
                final(session).subscriptions == old(session).subscriptions
            } else {
                final(session).subs() == old(session).subs().push(topic_filter@)
            })
            &&& (forall|k: Seq<char>|
                k != old(session).client_id@ ==> #[trigger] final(queue).outgoing().contains_key(
                    k,
                ) == old(queue).outgoing().contains_key(k))
            &&& (forall|k: Seq<char>|
                k != old(session).client_id@ && old(queue).outgoing().contains_key(k)
                    ==> #[trigger] final(queue).outgoing()[k] == old(queue).outgoing()[k])
            &&& r.1@.len() <= crate::retain::spec_retain_matches(
                old(global).retain_table.contents(),
                topic_filter@,
            ).len()
            &&& (forall|k: int|
                0 <= k < r.1@.len() ==> publish_matches_retained(
                    #[trigger] r.1@[k],
                    crate::retain::spec_retain_matches(
                        old(global).retain_table.contents(),
                        topic_filter@,
                    )[k],
                    sub_qos,
                ))
            &&& (r.1@.len() < crate::retain::spec_retain_matches(
                old(global).retain_table.contents(),
                topic_filter@,
            ).len() ==> spec_ids_exhausted(final(queue).outgoing_of(old(session).client_id@)))
        },
{
    if crate::topic::is_shared(topic_filter.as_str()) {
        return (ReturnCode::Failure, Vec::new());
    }
    session.subscribe(topic_filter.clone());
    global.router.subscribe(&session.client_id, topic_filter, RouteOptions::V4(sub_qos));
    let matched = global.retain_table.get_matches(topic_filter.as_str());
    let ghost ms = matched.deep_view();
    let ghost ses1 = *session;
    let ghost glob1 = *global;
    let ghost que1 = *queue;
    let mut out: Vec<OutboundPacket> = Vec::new();
    let mut j: usize = 0;
    let mut exhausted = false;
    while j < matched.len() && !exhausted
        invariant
            j <= matched@.len(),
            ms == matched.deep_view(),
            old(session).wf(),
            ses1.wf(),
            ses1.client_id == old(session).client_id,
            *session == (Session { server_packet_id: session.server_packet_id, ..ses1 }),
            *global == glob1,
            global.wf(),
            queue.wf(),
            que1.same_config(*queue),
            que1.wf(),
            queue.incoming() == que1.incoming(),
            (forall|k: Seq<char>|
                k != old(session).client_id@ ==> #[trigger] queue.outgoing().contains_key(k)
                    == que1.outgoing().contains_key(k)),
            (forall|k: Seq<char>|
                k != old(session).client_id@ && que1.outgoing().contains_key(k)
                    ==> #[trigger] queue.outgoing()[k] == que1.outgoing()[k]),
            out@.len() == j,
            forall|k: int|
                0 <= k < j ==> publish_matches_retained(#[trigger] out@[k], ms[k], sub_qos),
            exhausted ==> spec_ids_exhausted(queue.outgoing_of(old(session).client_id@)),
        decreases 2 * (matched@.len() - j) + (if exhausted {
            0int
        } else {
            1int
        }),
    {
        let m = &matched[j];
        let pm = PublishMessage::new(m.topic_name.clone(), m.payload.clone(), m.qos, false, false);
        proof {
            assert(pm@ == (SpecPublishMessage {
                topic_name: ms[j as int].topic_name,
                payload: ms[j as int].payload,
                qos: ms[j as int].qos,
                retain: false,
                dup: false,
            }));
        }
        let sent = receive_outgoing_publish(session, queue, sub_qos, pm, now);
        match sent {
            Some(p) => {
                match p {
                    OutboundPacket::Publish { packet_id, message } => {
                        let mut message = message;
                        message.retain = true;
                        out.push(OutboundPacket::Publish { packet_id, message });
                        j += 1;
                    },
                    _ => {
                        // receive_outgoing_publish only ever shapes a publish
                        proof {
                            assert(false);
                        }
                    },
                }
            },
            None => {
                exhausted = true;
            },
        }
    }
    (ReturnCode::Granted(sub_qos), out)
}

/// Handle an inbound SUBSCRIBE: grant or refuse each filter in order,
/// then answer with one SUBACK carrying the return codes, followed by
/// the retained messages owed to the new subscriptions.
pub fn handle_subscribe(
    session: &mut Session,
    global: &mut GlobalState,
    queue: &mut MemoryQueue,
    packet_id: u16,
    subscribes: &Vec<(String, QualityOfService)>,
    now: u64,
) -> (r: Vec<OutboundPacket>)
    requires
        old(session).wf(),
        old(global).wf(),
        old(queue).wf(),
    ensures
        final(session).wf(),
        final(global).wf(),
        final(queue).wf(),
        old(queue).same_config(*final(queue)),
        final(queue).incoming() == old(queue).incoming(),
        final(global).retain_table == old(global).retain_table,
        final(global).clients == old(global).clients,
        final(global).stored_sessions == old(global).stored_sessions,
        *final(session) == (Session {
            subscriptions: final(session).subscriptions,
            server_packet_id: final(session).server_packet_id,
            ..*old(session)
        }),
        r@.len() >= 1,
        (r@[0] matches OutboundPacket::Suback { packet_id: pid, return_codes } && pid == packet_id
            && return_codes@.len() == subscribes@.len() && (forall|i: int|
            0 <= i < subscribes@.len() ==> return_codes@[i] == (
            if crate::topic::spec_is_shared(subscribes@[i].0@) {
                ReturnCode::Failure
            } else {
                ReturnCode::Granted(subscribes@[i].1)
            }))),
        forall|k: int|
            1 <= k < r@.len() ==> (#[trigger] r@[k] matches OutboundPacket::Publish {
                packet_id: p,
                message: m,
            } && m.retain == true),
        forall|k: int|
            0 <= k < subscribes@.len() && !crate::topic::spec_is_shared(
                (#[trigger] subscribes@[k]).0@,
            ) ==> final(session).subs().contains(subscribes@[k].0@),
        forall|k: int|
            0 <= k < subscribes@.len() && !crate::topic::spec_is_shared(
                (#[trigger] subscribes@[k]).0@,
            ) ==> crate::router::first_client(
                final(global).router.clients_of(subscribes@[k].0@),
                old(session).client_id@,
            ) >= 0,
        (subscribes@.len() == 1 && crate::topic::spec_is_shared(subscribes@[0].0@)) ==> {
            &&& r@.len() == 1
            &&& *final(session) == *old(session)
            &&& *final(global) == *old(global)
            &&& *final(queue) == *old(queue)
        },
        (subscribes@.len() == 1 && !crate::topic::spec_is_shared(subscribes@[0].0@)) ==> {
            &&& r@.len() <= 1 + crate::retain::spec_retain_matches(
                old(global).retain_table.contents(),
                subscribes@[0].0@,
            ).len()
            &&& (forall|k: int|
                1 <= k < r@.len() ==> publish_matches_retained(
                    #[trigger] r@[k],
                    crate::retain::spec_retain_matches(
                        old(global).retain_table.contents(),
                        subscribes@[0].0@,
                    )[k - 1],
                    subscribes@[0].1,
                ))
            &&& (r@.len() < 1 + crate::retain::spec_retain_matches(
                old(global).retain_table.contents(),
                subscribes@[0].0@,
            ).len() ==> spec_ids_exhausted(final(queue).outgoing_of(old(session).client_id@)))
            &&& final(global).router.map() == old(global).router.map().insert(
                subscribes@[0].0@,
                SpecRouteContent {
                    topic_filter: subscribes@[0].0@,
                    clients: crate::router::spec_subscribe_clients(
                        old(global).router.clients_of(subscribes@[0].0@),
                        old(session).client_id@,
                        RouteOptions::V4(subscribes@[0].1),
                    ),
                },
            )
        },
{
    let mut return_codes: Vec<ReturnCode> = Vec::new();
    let mut retained: Vec<OutboundPacket> = Vec::new();
    let mut i: usize = 0;
    while i < subscribes.len()
        invariant
            i <= subscribes@.len(),
            session.wf(),
            *session == (Session {
                subscriptions: session.subscriptions,
                server_packet_id: session.server_packet_id,
                ..*old(session)
            }),
            global.wf(),
            queue.wf(),
            old(queue).same_config(*queue),
            queue.incoming() == old(queue).incoming(),
            global.retain_table == old(global).retain_table,
            global.clients == old(global).clients,
            global.stored_sessions == old(global).stored_sessions,
            return_codes@.len() == i,
            forall|k: int|
                0 <= k < i ==> return_codes@[k] == (
                if crate::topic::spec_is_shared(subscribes@[k].0@) {
                    ReturnCode::Failure
                } else {
                    ReturnCode::Granted(subscribes@[k].1)
                }),
            forall|k: int|
                0 <= k < retained@.len() ==> (#[trigger] retained@[k]
                    matches OutboundPacket::Publish { packet_id: p, message: m } && m.retain
                    == true),
            forall|k: int|
                0 <= k < i && !crate::topic::spec_is_shared((#[trigger] subscribes@[k]).0@)
                    ==> session.subs().contains(subscribes@[k].0@),
            forall|k: int|
                0 <= k < i && !crate::topic::spec_is_shared((#[trigger] subscribes@[k]).0@)
                    ==> crate::router::first_client(
                    global.router.clients_of(subscribes@[k].0@),
                    old(session).client_id@,
                ) >= 0,
            i == 0 ==> {
                &&& retained@.len() == 0
                &&& *session == *old(session)
                &&& *global == *old(global)
                &&& *queue == *old(queue)
            },
            (subscribes@.len() == 1 && i == 1 && crate::topic::spec_is_shared(
                subscribes@[0].0@,
            )) ==> {
                &&& retained@.len() == 0
                &&& *session == *old(session)
                &&& *global == *old(global)
                &&& *queue == *old(queue)
            },
            (subscribes@.len() == 1 && i == 1 && !crate::topic::spec_is_shared(
                subscribes@[0].0@,
            )) ==> {
                &&& retained@.len() <= crate::retain::spec_retain_matches(
                    old(global).retain_table.contents(),
                    subscribes@[0].0@,
                ).len()
                &&& (forall|k: int|
                    0 <= k < retained@.len() ==> publish_matches_retained(
                        #[trigger] retained@[k],
                        crate::retain::spec_retain_matches(
                            old(global).retain_table.contents(),
                            subscribes@[0].0@,
                        )[k],
                        subscribes@[0].1,
                    ))
                &&& (retained@.len() < crate::retain::spec_retain_matches(
                    old(global).retain_table.contents(),
                    subscribes@[0].0@,
                ).len() ==> spec_ids_exhausted(queue.outgoing_of(old(session).client_id@)))
                &&& global.router.map() == old(global).router.map().insert(
                    subscribes@[0].0@,
                    SpecRouteContent {
                        topic_filter: subscribes@[0].0@,
                        clients: crate::router::spec_subscribe_clients(
                            old(global).router.clients_of(subscribes@[0].0@),
                            old(session).client_id@,
                            RouteOptions::V4(subscribes@[0].1),
                        ),
                    },
                )
            },
        decreases subscribes@.len() - i,
    {
        let pair = &subscribes[i];
        let ghost spre = *session;
        let ghost gpre = *global;
        let (code, mut pubs) = handle_subscribe_topic(
            session,
            global,
            queue,
            &pair.0,
            pair.1,
            now,
        );
        return_codes.push(code);
        let ghost ret0 = retained@;
        let ghost pubs0 = pubs@;
        retained.append(&mut pubs);
        proof {
            let ghost cid = old(session).client_id@;
            assert forall|k: int|
                0 <= k < i + 1 && !crate::topic::spec_is_shared(
                    (#[trigger] subscribes@[k]).0@,
                ) implies session.subs().contains(subscribes@[k].0@) by {
                if !crate::topic::spec_is_shared(subscribes@[i as int].0@) {
                    if k < i {
                        // an earlier membership survives: subscribing adds at most one filter
                        let ghost mid = spre.subs();
                        if !spre.subs().contains(pair.0@) {
                            let w = choose|w: int|
                                0 <= w < mid.len() && mid[w] == subscribes@[k].0@;
                            assert(session.subs()[w] == subscribes@[k].0@);
                        }
                    } else {
                        if !spre.subs().contains(pair.0@) {
                            assert(session.subs().last() == pair.0@);
                        }
                    }
                }
            }
            assert forall|k: int|
                0 <= k < i + 1 && !crate::topic::spec_is_shared(
                    (#[trigger] subscribes@[k]).0@,
                ) implies crate::router::first_client(
                global.router.clients_of(subscribes@[k].0@),
                cid,
            ) >= 0 by {
                if !crate::topic::spec_is_shared(subscribes@[i as int].0@) {
                    if subscribes@[k].0@ == pair.0@ {
                        crate::router::lemma_subscribe_clients_present(
                            gpre.router.clients_of(pair.0@),
                            cid,
                            RouteOptions::V4(pair.1),
                        );
                    } else {
                        assert(global.router.clients_of(subscribes@[k].0@)
                            == gpre.router.clients_of(subscribes@[k].0@));
                    }
                }
            }
            assert forall|k: int|
                0 <= k < retained@.len() implies (#[trigger] retained@[k]
                    matches OutboundPacket::Publish { packet_id: p, message: m } && m.retain
                    == true) by {
                if k < ret0.len() {
                    assert(retained@[k] == ret0[k]);
                } else {
                    assert(retained@[k] == pubs0[k - ret0.len()]);
                    assert(publish_matches_retained(
                        pubs0[k - ret0.len()],
                        crate::retain::spec_retain_matches(
                            global.retain_table.contents(),
                            subscribes@[i as int].0@,
                        )[k - ret0.len()],
                        subscribes@[i as int].1,
                    ));
                }
            }
        }
        i += 1;
    }
    let mut r: Vec<OutboundPacket> = Vec::new();
    r.push(OutboundPacket::Suback { packet_id, return_codes });
    let ghost rpre = r@;
    let ghost retained0 = retained@;
    r.append(&mut retained);
    proof {
        assert(r@.len() == 1 + retained0.len());
        assert(r@[0] == rpre[0]);
        assert forall|k: int|
            1 <= k < r@.len() implies (#[trigger] r@[k] matches OutboundPacket::Publish {
                packet_id: p,
                message: m,
            } && m.retain == true) by {
            assert(r@[k] == retained0[k - 1]);
        }
    }
    r
}

/// Handle an inbound UNSUBSCRIBE: drop each filter from the session
/// and from the route table, then answer with UNSUBACK.
pub fn handle_unsubscribe(
    session: &mut Session,
    global: &mut GlobalState,
    packet_id: u16,
    filters: &Vec<String>,
) -> (r: OutboundPacket)
    requires
        old(session).wf(),
        old(global).wf(),
    ensures
        final(session).wf(),
        final(global).wf(),
        r == OutboundPacket::Unsuback(packet_id),
        *final(session) == (Session {
            subscriptions: final(session).subscriptions,
            ..*old(session)
        }),
        forall|x: Seq<char>|
            (#[trigger] final(session).subs().contains(x)) == (old(session).subs().contains(x)
                && !filters.deep_view().contains(x)),
        final(global).retain_table == old(global).retain_table,
        final(global).clients == old(global).clients,
        final(global).stored_sessions == old(global).stored_sessions,
        final(global).router.map().dom() == old(global).router.map().dom(),
        forall|f: Seq<char>|
            old(global).router.map().contains_key(f) ==> #[trigger] final(global).router.map()[f]
                == (SpecRouteContent {
                topic_filter: old(global).router.map()[f].topic_filter,
                clients: (if filters.deep_view().contains(f) {
                    crate::router::spec_unsubscribe_clients(
                        old(global).router.map()[f].clients,
                        old(session).client_id@,
                    )
                } else {
                    old(global).router.map()[f].clients
                }),
            }),
{
    let ghost fd = filters.deep_view();
    let ghost cid = old(session).client_id@;
    let mut i: usize = 0;
    proof {
        assert(fd.subrange(0, 0) =~= Seq::<Seq<char>>::empty());
    }
    while i < filters.len()
        invariant
            i <= filters@.len(),
            fd == filters.deep_view(),
            cid == old(session).client_id@,
            old(session).wf(),
            old(global).wf(),
            session.wf(),
            global.wf(),
            *session == (Session { subscriptions: session.subscriptions, ..*old(session) }),
            forall|x: Seq<char>|
                session.subs().contains(x) == (old(session).subs().contains(x) && !fd.subrange(
                    0,
                    i as int,
                ).contains(x)),
            global.retain_table == old(global).retain_table,
            global.clients == old(global).clients,
            global.stored_sessions == old(global).stored_sessions,
            global.router.map().dom() == old(global).router.map().dom(),
            forall|f: Seq<char>|
                old(global).router.map().contains_key(f) ==> global.router.map()[f]
                    == (SpecRouteContent {
                    topic_filter: old(global).router.map()[f].topic_filter,
                    clients: (if fd.subrange(0, i as int).contains(f) {
                        crate::router::spec_unsubscribe_clients(
                            old(global).router.map()[f].clients,
                            cid,
                        )
                    } else {
                        old(global).router.map()[f].clients
                    }),
                }),
        decreases filters@.len() - i,
    {
        let filter = &filters[i];
        let ghost gpre = *global;
        let ghost spre = *session;
        session.unsubscribe(filter);
        global.router.unsubscribe(&session.client_id, filter);
        proof {
            assert(session.client_id@ == cid);
            assert forall|x: Seq<char>|
                fd.subrange(0, i + 1).contains(x) == (fd.subrange(0, i as int).contains(x) || x
                    == fd[i as int]) by {
                let sub1 = fd.subrange(0, i + 1);
                let sub0 = fd.subrange(0, i as int);
                if sub1.contains(x) {
                    let k = choose|k: int| 0 <= k < sub1.len() && sub1[k] == x;
                    if k < i {
                        assert(sub0[k] == x);
                    }
                }
                if sub0.contains(x) {
                    let k = choose|k: int| 0 <= k < sub0.len() && sub0[k] == x;
                    assert(sub1[k] == x);
                }
                if x == fd[i as int] {
                    assert(sub1[i as int] == x);
                }
            }
            assert(filter@ == fd[i as int]);
            // the route-table step, per key
            assert forall|f: Seq<char>|
                old(global).router.map().contains_key(f) implies global.router.map()[f]
                == (SpecRouteContent {
                topic_filter: old(global).router.map()[f].topic_filter,
                clients: (if fd.subrange(0, i + 1).contains(f) {
                    crate::router::spec_unsubscribe_clients(
                        old(global).router.map()[f].clients,
                        cid,
                    )
                } else {
                    old(global).router.map()[f].clients
                }),
            }) by {
                if f == filter@ {
                    if fd.subrange(0, i as int).contains(f) {
                        crate::router::lemma_map_clients_unique(old(global).router, f);
                        crate::router::lemma_unsubscribe_clients_absent(
                            old(global).router.map()[f].clients,
                            cid,
                        );
                    }
                } else {
                }
            }
        }
        i += 1;
    }
    proof {
        assert(fd.subrange(0, fd.len() as int) =~= fd);
    }
    OutboundPacket::Unsuback(packet_id)
}

/// The outbound PUBLISH that replays stored entry `u`: its packet id
/// and message, marked as a duplicate.
pub open spec fn publish_replays(p: OutboundPacket, u: SpecOutgoingPublishPacket) -> bool {
    match p {
        OutboundPacket::Publish { packet_id, message } => {
            &&& packet_id == u.packet_id
            &&& message@ == (SpecPublishMessage { dup: true, ..u.message })
        },
        _ => false,
    }
}

/// The publishes a reconnecting client is owed again: every stored
/// outgoing entry still awaiting its first acknowledgement and within
/// the time-to-live, in store order, each re-sent as a duplicate.
pub fn get_unsent_outgoing_packet(session: &Session, queue: &MemoryQueue, now: u64) -> (r: Vec<
    OutboundPacket,
>)
    requires
        queue.wf(),
    ensures
        r@.len() == crate::queue::spec_unsent_outgoing(
            queue.outgoing_of(session.client_id@),
            queue.timeout,
            now,
        ).len(),
        forall|k: int|
            0 <= k < r@.len() ==> publish_replays(
                #[trigger] r@[k],
                crate::queue::spec_unsent_outgoing(
                    queue.outgoing_of(session.client_id@),
                    queue.timeout,
                    now,
                )[k],
            ),
{
    let mut out: Vec<OutboundPacket> = Vec::new();
    let got = queue.get_unsent_outgoing_packets(&session.client_id, now);
    match got {
        None => {
            proof {
                assert(queue.outgoing_of(session.client_id@) =~= Seq::<
                    SpecOutgoingPublishPacket,
                >::empty());
                reveal(Seq::filter);
            }
            out
        },
        Some(v) => {
            let ghost un = v.deep_view();
            let mut j: usize = 0;
            while j < v.len()
                invariant
                    j <= v@.len(),
                    un == v.deep_view(),
                    out@.len() == j,
                    forall|k: int|
                        0 <= k < j ==> publish_replays(#[trigger] out@[k], un[k]),
                decreases v@.len() - j,
            {
                let p = &v[j];
                let mut message = p.message.clone();
                message.dup = true;
                out.push(OutboundPacket::Publish { packet_id: p.packet_id, message });
                j += 1;
            }
            out
        },
    }
}

/// The CONNACK return codes of MQTT v3.1.1 that this core can answer
/// a CONNECT with.
#[derive(Clone, Copy, Debug, PartialEq, Eq, Structural)]
pub enum ConnackCode {
    Accepted,
    UnacceptableProtocolVersion,
    IdentifierRejected,
}

/// A decoded CONNECT packet.
pub struct ConnectPacket {
    pub protocol_name: String,
    pub protocol_level: u8,
    pub client_id: String,
    pub clean_session: bool,
    pub keep_alive: u16,
    pub will: Option<PublishMessage>,
}

/// What a CONNECT leads to: a refusal with its CONNACK code, or a
/// session to run, with the session-present flag for the CONNACK and
/// whether an older live session must first be told to relinquish.
pub enum ConnectOutcome {
    Reject(ConnackCode),
    Accept { session: Session, session_present: bool, takeover: bool },
}

/// The will as the session records it.
pub open spec fn spec_will_of(w: Option<PublishMessage>) -> Option<SpecPublishMessage> {
    match w {
        Some(m) => Some(m@),
        None => None,
    }
}

/// Handle a CONNECT: check the protocol name and level and the client
/// id; wipe stored state on a clean session and resurrect it
/// otherwise; report whether a live session must be taken over. The
/// caller registers the client id in the directory once any takeover
/// has finished.
pub fn handle_connect(
    global: &mut GlobalState,
    queue: &mut MemoryQueue,
    packet: ConnectPacket,
    now: u64,
) -> (r: ConnectOutcome)
    requires
        old(global).wf(),
        old(queue).wf(),
    ensures
        final(global).wf(),
        final(queue).wf(),
        old(queue).same_config(*final(queue)),
        final(global).clients == old(global).clients,
        final(global).retain_table == old(global).retain_table,
        (packet.protocol_name@ != "MQTT"@ || packet.protocol_level != 4) ==> (r
            == ConnectOutcome::Reject(ConnackCode::UnacceptableProtocolVersion) && *final(global)
            == *old(global) && *final(queue) == *old(queue)),
        (packet.protocol_name@ == "MQTT"@ && packet.protocol_level == 4
            && packet.client_id@.len() == 0) ==> (r == ConnectOutcome::Reject(
            ConnackCode::IdentifierRejected,
        ) && *final(global) == *old(global) && *final(queue) == *old(queue)),
        (packet.protocol_name@ == "MQTT"@ && packet.protocol_level == 4
            && packet.client_id@.len() > 0) ==> {
            &&& final(global).stored() == old(global).stored().remove(packet.client_id@)
            &&& (r matches ConnectOutcome::Accept { session, session_present, takeover } ==> {
                &&& takeover == old(global).directory().contains(packet.client_id@)
                &&& session.wf()
                &&& session.client_id@ == packet.client_id@
                &&& session.clean_session == packet.clean_session
                &&& session.keep_alive == packet.keep_alive
                &&& spec_will_of(session.will) == spec_will_of(packet.will)
                &&& session.last_packet_at == now
                &&& !session.server_disconnected
                &&& !session.client_disconnected
                &&& (if packet.clean_session {
                    &&& session_present == false
                    &&& session.subs() == Seq::<Seq<char>>::empty()
                    &&& session.server_packet_id == 0
                    &&& final(queue).incoming() == old(queue).incoming().remove(
                        packet.client_id@,
                    )
                    &&& final(queue).outgoing() == old(queue).outgoing().remove(
                        packet.client_id@,
                    )
                    &&& final(global).router.map().dom() == old(global).router.map().dom()
                    &&& (forall|f: Seq<char>|
                        old(global).router.map().contains_key(f) ==> final(global).router.map()[f]
                            == (SpecRouteContent {
                            topic_filter: old(global).router.map()[f].topic_filter,
                            clients: crate::router::spec_unsubscribe_clients(
                                old(global).router.map()[f].clients,
                                packet.client_id@,
                            ),
                        }))
                } else {
                    &&& session_present == old(global).stored().contains_key(packet.client_id@)
                    &&& *final(queue) == *old(queue)
                    &&& final(global).router == old(global).router
                    &&& (if session_present {
                        &&& session.subs() == old(global).stored()[packet.client_id@].subscriptions
                        &&& session.server_packet_id == old(global).stored()[
                            packet.client_id@
                        ].server_packet_id
                    } else {
                        &&& session.subs() == Seq::<Seq<char>>::empty()
                        &&& session.server_packet_id == 0
                    })
                })
            })
            &&& (r is Accept)
        },
{
    let pat = String::from_str("MQTT");
    if !(packet.protocol_name == pat && packet.protocol_level == 4) {
        return ConnectOutcome::Reject(ConnackCode::UnacceptableProtocolVersion);
    }
    if packet.client_id.as_str().unicode_len() == 0 {
        return ConnectOutcome::Reject(ConnackCode::IdentifierRejected);
    }
    let takeover = global.contains_client(&packet.client_id);
    if packet.clean_session {
        global.take_session(&packet.client_id);
        queue.remove(&packet.client_id);
        global.router.remove_client(&packet.client_id);
        let session = Session::new(packet.client_id, true, packet.keep_alive, packet.will, now);
        ConnectOutcome::Accept { session, session_present: false, takeover }
    } else {
        let taken = global.take_session(&packet.client_id);
        match taken {
            Some(mut s) => {
                s.clean_session = false;
                s.keep_alive = packet.keep_alive;
                s.will = packet.will;
                s.last_packet_at = now;
                s.server_disconnected = false;
                s.client_disconnected = false;
                ConnectOutcome::Accept { session: s, session_present: true, takeover }
            },
            None => {
                let session = Session::new(
                    packet.client_id,
                    false,
                    packet.keep_alive,
                    packet.will,
                    now,
                );
                ConnectOutcome::Accept { session, session_present: false, takeover }
            },
        }
    }
}

/// React to a message on the session's outgoing channel: deliver a
/// fanned-out publish, relinquish to a takeover (replying with the
/// packet-id counter), or obey a kick. The flag asks the loop to stop;
/// the last component is the reply a takeover owes the new session.
pub fn receive_outgoing(
    session: &mut Session,
    global: &mut GlobalState,
    queue: &mut MemoryQueue,
    packet: Outgoing,
    now: u64,
) -> (r: (bool, Option<OutboundPacket>, Option<u16>))
    requires
        old(global).wf(),
        old(queue).wf(),
    ensures
        final(global).wf(),
        final(queue).wf(),
        old(queue).same_config(*final(queue)),
        final(global).retain_table == old(global).retain_table,
        final(global).stored_sessions == old(global).stored_sessions,
        (match packet {
            Outgoing::Publish(sub_qos, msg) => {
                &&& r.0 == false
                &&& r.2 is None
                &&& *final(global) == *old(global)
                &&& final(queue).incoming() == old(queue).incoming()
                &&& (old(session).spec_disconnected() ==> r.1 is None)
                &&& (!old(session).spec_disconnected() ==> (r.1 is None) == (spec_min_qos(
                    sub_qos,
                    msg.qos,
                ) != QualityOfService::Level0 && spec_ids_exhausted(
                    old(queue).outgoing_of(old(session).client_id@),
                )))
                &&& (spec_min_qos(sub_qos, msg.qos) == QualityOfService::Level0 ==> {
                    &&& final(queue).outgoing() == old(queue).outgoing()
                    &&& *final(session) == *old(session)
                })
                &&& (spec_min_qos(sub_qos, msg.qos) != QualityOfService::Level0
                    && spec_ids_exhausted(old(queue).outgoing_of(old(session).client_id@)) ==> {
                    &&& final(queue).outgoing() == old(queue).outgoing()
                    &&& *final(session) == *old(session)
                })
                &&& (spec_min_qos(sub_qos, msg.qos) != QualityOfService::Level0
                    && !spec_ids_exhausted(old(queue).outgoing_of(old(session).client_id@))
                    ==> {
                    &&& 1 <= final(session).server_packet_id
                    &&& !spec_has_packet_id(
                        old(queue).outgoing_of(old(session).client_id@),
                        final(session).server_packet_id,
                    )
                    &&& *final(session) == (Session {
                        server_packet_id: final(session).server_packet_id,
                        ..*old(session)
                    })
                    &&& (if old(queue).outgoing_of(old(session).client_id@).len() >= old(
                        queue,
                    ).max_inflight {
                        final(queue).outgoing() == old(queue).outgoing().insert(
                            old(session).client_id@,
                            old(queue).outgoing_of(old(session).client_id@),
                        )
                    } else {
                        final(queue).outgoing() == old(queue).outgoing().insert(
                            old(session).client_id@,
                            old(queue).outgoing_of(old(session).client_id@).push(
                                SpecOutgoingPublishPacket {
                                    packet_id: final(session).server_packet_id,
                                    subscribe_qos: sub_qos,
                                    message: (SpecPublishMessage {
                                        qos: spec_min_qos(sub_qos, msg.qos),
                                        ..msg@
                                    }),
                                    added_at: now,
                                    pubrec_at: None,
                                    pubcomp_at: None,
                                },
                            ),
                        )
                    })
                    &&& (!old(session).spec_disconnected() ==> (r.1 matches Some(p) && (
                    p matches OutboundPacket::Publish { packet_id: pid, message: m } && pid
                        == final(session).server_packet_id)))
                })
                &&& (match r.1 {
                    Some(p) => (match p {
                        OutboundPacket::Publish { packet_id: pid, message: m } => {
                            &&& m@ == (SpecPublishMessage {
                                qos: spec_min_qos(sub_qos, msg.qos),
                                ..msg@
                            })
                            &&& (spec_min_qos(sub_qos, msg.qos) != QualityOfService::Level0
                                ==> 1 <= pid && !spec_has_packet_id(
                                old(queue).outgoing_of(old(session).client_id@),
                                pid,
                            ))
                        },
                        _ => false,
                    }),
                    None => true,
                })
            },
            Outgoing::Online => {
                &&& r.0 == true
                &&& r.2 == Some(old(session).server_packet_id)
                &&& r.1 == (if old(session).spec_disconnected() {
                    None::<OutboundPacket>
                } else {
                    Some(OutboundPacket::Disconnect)
                })
                &&& *final(session) == *old(session)
                &&& *final(queue) == *old(queue)
                &&& (forall|x: Seq<char>|
                    final(global).directory().contains(x) == (old(global).directory().contains(x)
                        && x != old(session).client_id@))
                &&& final(global).router.map().dom() == old(global).router.map().dom()
                &&& (forall|f: Seq<char>|
                    old(global).router.map().contains_key(f) ==> final(global).router.map()[f]
                        == (SpecRouteContent {
                        topic_filter: old(global).router.map()[f].topic_filter,
                        clients: crate::router::spec_unsubscribe_clients(
                            old(global).router.map()[f].clients,
                            old(session).client_id@,
                        ),
                    }))
                &&& final(global).router.contents().len() == old(global).router.contents().len()
                &&& (forall|k: int|
                    0 <= k < old(global).router.contents().len()
                        ==> #[trigger] final(global).router.contents()[k]
                        == (SpecRouteContent {
                        topic_filter: old(global).router.contents()[k].topic_filter,
                        clients: crate::router::spec_unsubscribe_clients(
                            old(global).router.contents()[k].clients,
                            old(session).client_id@,
                        ),
                    }))
            },
            Outgoing::Kick(reason) => {
                &&& r.2 is None
                &&& (if old(session).spec_disconnected() && !old(session).clean_session {
                    &&& r.0 == false
                    &&& r.1 is None
                    &&& *final(session) == *old(session)
                    &&& *final(global) == *old(global)
                    &&& *final(queue) == *old(queue)
                } else {
                    &&& r.0 == true
                    &&& r.1 == Some(OutboundPacket::Disconnect)
                    &&& *final(session) == *old(session)
                    &&& *final(queue) == *old(queue)
                    &&& (forall|x: Seq<char>|
                        final(global).directory().contains(x) == (old(
                            global,
                        ).directory().contains(x) && x != old(session).client_id@))
                &&& final(global).router.map().dom() == old(global).router.map().dom()
                &&& (forall|f: Seq<char>|
                    old(global).router.map().contains_key(f) ==> final(global).router.map()[f]
                        == (SpecRouteContent {
                        topic_filter: old(global).router.map()[f].topic_filter,
                        clients: crate::router::spec_unsubscribe_clients(
                            old(global).router.map()[f].clients,
                            old(session).client_id@,
                        ),
                    }))
                &&& final(global).router.contents().len() == old(global).router.contents().len()
                &&& (forall|k: int|
                    0 <= k < old(global).router.contents().len()
                        ==> #[trigger] final(global).router.contents()[k]
                        == (SpecRouteContent {
                        topic_filter: old(global).router.contents()[k].topic_filter,
                        clients: crate::router::spec_unsubscribe_clients(
                            old(global).router.contents()[k].clients,
                            old(session).client_id@,
                        ),
                    }))
                })
            },
        }),
{
    match packet {
        Outgoing::Publish(sub_qos, msg) => {
            let resp = receive_outgoing_publish(session, queue, sub_qos, msg, now);
            if session.disconnected() {
                (false, None, None)
            } else {
                (false, resp, None)
            }
        },
        Outgoing::Online => {
            let reply = session.server_packet_id();
            let resp = if session.disconnected() {
                None
            } else {
                Some(OutboundPacket::Disconnect)
            };
            global.remove_client(&session.client_id);
            (true, resp, Some(reply))
        },
        Outgoing::Kick(_reason) => {
            if session.disconnected() && !session.clean_session() {
                (false, None, None)
            } else {
                global.remove_client(&session.client_id);
                (true, Some(OutboundPacket::Disconnect), None)
            }
        },
    }
}

/// Tear a session down once its loop has ended: mark the server side
/// disconnected, publish the will unless the client said DISCONNECT,
/// and either clear the broker state (clean session) or report that
/// the session is to be relinquished to the session store. The
/// deliveries carry the will's fan-out.
pub fn handle_clean_session(
    session: &mut Session,
    global: &mut GlobalState,
    now: u64,
) -> (r: (Vec<Delivery>, bool))
    requires
        old(global).wf(),
    ensures
        final(global).wf(),
        final(global).stored_sessions == old(global).stored_sessions,
        final(session).server_disconnected,
        final(session).will is None,
        *final(session) == (Session {
            server_disconnected: true,
            will: None,
            ..*old(session)
        }),
        r.1 == !old(session).clean_session,
        (if !old(session).client_disconnected && old(session).will is Some {
            &&& (if old(session).will.unwrap().retain && old(session).will.unwrap().payload@.len()
                == 0 {
                final(global).retain_table.map() == old(global).retain_table.map().remove(
                    old(session).will.unwrap().topic_name@,
                )
            } else if old(session).will.unwrap().retain {
                final(global).retain_table.map() == old(global).retain_table.map().insert(
                    old(session).will.unwrap().topic_name@,
                    SpecRetainContent {
                        client_id: old(session).client_id@,
                        topic_name: old(session).will.unwrap().topic_name@,
                        payload: old(session).will.unwrap().payload@,
                        qos: old(session).will.unwrap().qos,
                    },
                )
            } else {
                final(global).retain_table == old(global).retain_table
            })
            &&& r.0.deep_view() == spec_deliveries(
                crate::router::spec_route_targets(
                    old(global).router.contents(),
                    old(session).will.unwrap().topic_name@,
                ),
                old(session).will.unwrap()@,
            )
        } else {
            final(global).retain_table == old(global).retain_table && r.0.deep_view() == Seq::<
                SpecDelivery,
            >::empty()
        }),
        (if old(session).clean_session {
            &&& (forall|x: Seq<char>|
                final(global).directory().contains(x) == (old(global).directory().contains(x) && x
                    != old(session).client_id@))
            &&& final(global).router.map().dom() == old(global).router.map().dom()
            &&& (forall|f: Seq<char>|
                old(global).router.map().contains_key(f) ==> final(global).router.map()[f]
                    == (SpecRouteContent {
                    topic_filter: old(global).router.map()[f].topic_filter,
                    clients: crate::router::spec_unsubscribe_clients(
                        old(global).router.map()[f].clients,
                        old(session).client_id@,
                    ),
                }))
        } else {
            final(global).router == old(global).router && final(global).clients == old(
                global,
            ).clients
        }),
{
    session.set_server_disconnected();
    let mut deliveries: Vec<Delivery> = Vec::new();
    proof {
        assert(deliveries.deep_view() =~= Seq::<SpecDelivery>::empty());
    }
    if !session.client_disconnected() {
        let will = session.take_will();
        match will {
            Some(w) => {
                if w.retain {
                    if w.payload.len() == 0 {
                        global.retain_table.remove(&w.topic_name);
                    } else {
                        let content = crate::retain::RetainContent::new(
                            session.client_id.clone(),
                            w.topic_name.clone(),
                            w.payload.clone(),
                            w.qos,
                        );
                        global.retain_table.insert(content);
                    }
                }
                deliveries = publish_to_subscribers(&global.router, &w);
            },
            None => {},
        }
    } else {
        session.take_will();
    }
    let keep = !session.clean_session();
    if session.clean_session() {
        global.remove_client(&session.client_id);
    }
    (deliveries, keep)
}

/// Dispatch one decoded inbound packet: record the liveness timestamp,
/// run the packet's handler, and hand back the stop flag, the outbound
/// packets to write in order, and the fan-out deliveries to route. An
/// unsupported packet stops the loop.
#[verifier::rlimit(100)]
pub fn handle_incoming(
    session: &mut Session,
    global: &mut GlobalState,
    queue: &mut MemoryQueue,
    packet: Packet,
    now: u64,
) -> (r: (bool, Vec<OutboundPacket>, Vec<Delivery>))
    requires
        old(session).wf(),
        old(global).wf(),
        old(queue).wf(),
    ensures
        final(session).wf(),
        final(global).wf(),
        final(queue).wf(),
        old(queue).same_config(*final(queue)),
        final(session).last_packet_at == now,
        final(global).clients == old(global).clients,
        final(global).stored_sessions == old(global).stored_sessions,
        (match packet {
            Packet::Pingreq => {
                &&& r.0 == false
                &&& r.1@ == seq![OutboundPacket::Pingresp]
                &&& r.2@.len() == 0
                &&& *final(session) == (Session { last_packet_at: now, ..*old(session) })
                &&& *final(global) == *old(global)
                &&& *final(queue) == *old(queue)
            },
            Packet::Publish { packet_id, message } => {
                &&& *final(session) == (Session { last_packet_at: now, ..*old(session) })
                &&& final(global).router == old(global).router
                &&& final(queue).outgoing() == old(queue).outgoing()
                &&& (if message.retain && message.payload@.len() == 0 {
                    final(global).retain_table.map() == old(global).retain_table.map().remove(
                        message.topic_name@,
                    )
                } else if message.retain {
                    final(global).retain_table.map() == old(global).retain_table.map().insert(
                        message.topic_name@,
                        SpecRetainContent {
                            client_id: old(session).client_id@,
                            topic_name: message.topic_name@,
                            payload: message.payload@,
                            qos: message.qos,
                        },
                    )
                } else {
                    final(global).retain_table == old(global).retain_table
                })
                &&& (match message.qos {
                    QualityOfService::Level0 => {
                        &&& r.0 == false
                        &&& r.1@.len() == 0
                        &&& r.2.deep_view() == spec_deliveries(
                            crate::router::spec_route_targets(
                                old(global).router.contents(),
                                message.topic_name@,
                            ),
                            message@,
                        )
                        &&& final(queue).incoming() == old(queue).incoming()
                    },
                    QualityOfService::Level1 => {
                        &&& r.0 == false
                        &&& r.1@ == seq![OutboundPacket::Puback(packet_id)]
                        &&& r.2.deep_view() == spec_deliveries(
                            crate::router::spec_route_targets(
                                old(global).router.contents(),
                                message.topic_name@,
                            ),
                            message@,
                        )
                        &&& final(queue).incoming() == old(queue).incoming()
                    },
                    QualityOfService::Level2 => {
                        &&& r.1@ == seq![OutboundPacket::Pubrec(packet_id)]
                        &&& r.2.deep_view() == Seq::<SpecDelivery>::empty()
                        &&& (if crate::queue::first_pubrel_idx(
                            old(queue).incoming_of(old(session).client_id@),
                            packet_id,
                        ) >= 0 {
                            // a duplicate: held already, not queued or fanned out again
                            &&& r.0 == false
                            &&& final(queue).incoming() == old(queue).incoming()
                        } else {
                            &&& r.0 == (old(queue).incoming_of(old(session).client_id@).len()
                                >= old(queue).max_inflight)
                            &&& (if r.0 {
                                final(queue).incoming() == old(queue).incoming().insert(
                                    old(session).client_id@,
                                    old(queue).incoming_of(old(session).client_id@),
                                )
                            } else {
                                final(queue).incoming() == old(queue).incoming().insert(
                                    old(session).client_id@,
                                    old(queue).incoming_of(old(session).client_id@).push(
                                        crate::publish::SpecIncomingPublishPacket {
                                            message: message@,
                                            packet_id,
                                            receive_at: now,
                                            deliver_at: None,
                                        },
                                    ),
                                )
                            })
                        })
                    },
                })
            },
            Packet::Puback(pid) => {
                &&& r.0 == false
                &&& r.1@.len() == 0
                &&& r.2@.len() == 0
                &&& *final(session) == (Session { last_packet_at: now, ..*old(session) })
                &&& *final(global) == *old(global)
                &&& final(queue).incoming() == old(queue).incoming()
                &&& (old(queue).outgoing().contains_key(old(session).client_id@) ==> final(queue).outgoing() == old(queue).outgoing().insert(
                    old(session).client_id@,
                    crate::queue::spec_puback(
                        old(queue).outgoing_of(old(session).client_id@),
                        pid,
                        now,
                    ),
                ))
                &&& (!old(queue).outgoing().contains_key(old(session).client_id@) ==> final(queue).outgoing() == old(queue).outgoing())
            },
            Packet::Pubrec(pid) => {
                &&& r.0 == false
                &&& r.1@ == seq![OutboundPacket::Pubrel(pid)]
                &&& r.2@.len() == 0
                &&& *final(session) == (Session { last_packet_at: now, ..*old(session) })
                &&& *final(global) == *old(global)
                &&& final(queue).incoming() == old(queue).incoming()
                &&& (old(queue).outgoing().contains_key(old(session).client_id@) ==> final(queue).outgoing() == old(queue).outgoing().insert(
                    old(session).client_id@,
                    crate::queue::spec_pubrec(
                        old(queue).outgoing_of(old(session).client_id@),
                        pid,
                        now,
                    ),
                ))
                &&& (!old(queue).outgoing().contains_key(old(session).client_id@) ==> final(queue).outgoing() == old(queue).outgoing())
            },
            Packet::Pubrel(pid) => {
                &&& r.0 == false
                &&& r.1@ == seq![OutboundPacket::Pubcomp(pid)]
                &&& *final(session) == (Session { last_packet_at: now, ..*old(session) })
                &&& final(global).router == old(global).router
                &&& final(global).retain_table == old(global).retain_table
                &&& final(queue).outgoing() == old(queue).outgoing()
            },
            Packet::Pubcomp(pid) => {
                &&& r.0 == false
                &&& r.1@.len() == 0
                &&& r.2@.len() == 0
                &&& *final(session) == (Session { last_packet_at: now, ..*old(session) })
                &&& *final(global) == *old(global)
                &&& final(queue).incoming() == old(queue).incoming()
                &&& (old(queue).outgoing().contains_key(old(session).client_id@) ==> final(queue).outgoing() == old(queue).outgoing().insert(
                    old(session).client_id@,
                    crate::queue::spec_pubcomp(
                        old(queue).outgoing_of(old(session).client_id@),
                        pid,
                        now,
                    ),
                ))
                &&& (!old(queue).outgoing().contains_key(old(session).client_id@) ==> final(queue).outgoing() == old(queue).outgoing())
            },
            Packet::Subscribe { packet_id, subscribes } => {
                &&& r.0 == false
                &&& r.2@.len() == 0
                &&& r.1@.len() >= 1
                &&& (r.1@[0] matches OutboundPacket::Suback { packet_id: pid, return_codes }
                    && pid == packet_id && return_codes@.len() == subscribes@.len() && (forall|
                    i: int,
                |
                    0 <= i < subscribes@.len() ==> return_codes@[i] == (
                    if crate::topic::spec_is_shared(subscribes@[i].0@) {
                        ReturnCode::Failure
                    } else {
                        ReturnCode::Granted(subscribes@[i].1)
                    })))
                &&& (forall|k: int|
                    1 <= k < r.1@.len() ==> (#[trigger] r.1@[k] matches OutboundPacket::Publish {
                        packet_id: p,
                        message: m,
                    } && m.retain == true))
                &&& final(global).retain_table == old(global).retain_table
                &&& final(queue).incoming() == old(queue).incoming()
                &&& (forall|k: int|
                    0 <= k < subscribes@.len() && !crate::topic::spec_is_shared(
                        (#[trigger] subscribes@[k]).0@,
                    ) ==> final(session).subs().contains(subscribes@[k].0@))
                &&& (forall|k: int|
                    0 <= k < subscribes@.len() && !crate::topic::spec_is_shared(
                        (#[trigger] subscribes@[k]).0@,
                    ) ==> crate::router::first_client(
                        final(global).router.clients_of(subscribes@[k].0@),
                        old(session).client_id@,
                    ) >= 0)
                &&& ((subscribes@.len() == 1 && crate::topic::spec_is_shared(
                    subscribes@[0].0@,
                )) ==> {
                    &&& r.1@.len() == 1
                    &&& *final(session) == (Session { last_packet_at: now, ..*old(session) })
                    &&& *final(global) == *old(global)
                    &&& *final(queue) == *old(queue)
                })
                &&& ((subscribes@.len() == 1 && !crate::topic::spec_is_shared(
                    subscribes@[0].0@,
                )) ==> {
                    &&& r.1@.len() <= 1 + crate::retain::spec_retain_matches(
                        old(global).retain_table.contents(),
                        subscribes@[0].0@,
                    ).len()
                    &&& (forall|k: int|
                        1 <= k < r.1@.len() ==> publish_matches_retained(
                            #[trigger] r.1@[k],
                            crate::retain::spec_retain_matches(
                                old(global).retain_table.contents(),
                                subscribes@[0].0@,
                            )[k - 1],
                            subscribes@[0].1,
                        ))
                    &&& (r.1@.len() < 1 + crate::retain::spec_retain_matches(
                        old(global).retain_table.contents(),
                        subscribes@[0].0@,
                    ).len() ==> spec_ids_exhausted(
                        final(queue).outgoing_of(old(session).client_id@),
                    ))
                    &&& final(global).router.map() == old(global).router.map().insert(
                        subscribes@[0].0@,
                        SpecRouteContent {
                            topic_filter: subscribes@[0].0@,
                            clients: crate::router::spec_subscribe_clients(
                                old(global).router.clients_of(subscribes@[0].0@),
                                old(session).client_id@,
                                RouteOptions::V4(subscribes@[0].1),
                            ),
                        },
                    )
                })
            },
            Packet::Unsubscribe { packet_id, filters } => {
                &&& r.0 == false
                &&& r.1@ == seq![OutboundPacket::Unsuback(packet_id)]
                &&& r.2@.len() == 0
                &&& *final(queue) == *old(queue)
                &&& final(global).retain_table == old(global).retain_table
                &&& (forall|x: Seq<char>|
                    (#[trigger] final(session).subs().contains(x)) == (old(
                        session,
                    ).subs().contains(x) && !filters.deep_view().contains(x)))
                &&& final(global).router.map().dom() == old(global).router.map().dom()
                &&& (forall|f: Seq<char>|
                    old(global).router.map().contains_key(f)
                        ==> #[trigger] final(global).router.map()[f] == (SpecRouteContent {
                        topic_filter: old(global).router.map()[f].topic_filter,
                        clients: (if filters.deep_view().contains(f) {
                            crate::router::spec_unsubscribe_clients(
                                old(global).router.map()[f].clients,
                                old(session).client_id@,
                            )
                        } else {
                            old(global).router.map()[f].clients
                        }),
                    }))
            },
            Packet::Disconnect => {
                &&& r.0 == true
                &&& r.1@.len() == 0
                &&& r.2@.len() == 0
                &&& *final(session) == (Session {
                    last_packet_at: now,
                    client_disconnected: true,
                    will: None,
                    ..*old(session)
                })
                &&& *final(global) == *old(global)
                &&& *final(queue) == *old(queue)
            },
            Packet::Unsupported => {
                &&& r.0 == true
                &&& r.1@.len() == 0
                &&& r.2@.len() == 0
                &&& *final(session) == (Session { last_packet_at: now, ..*old(session) })
                &&& *final(global) == *old(global)
                &&& *final(queue) == *old(queue)
            },
        }),
{
    session.renew_last_packet_at(now);
    let none_out: Vec<OutboundPacket> = Vec::new();
    let none_del: Vec<Delivery> = Vec::new();
    match packet {
        Packet::Pingreq => {
            let mut out = none_out;
            out.push(OutboundPacket::Pingresp);
            proof {
                assert(out@ =~= seq![OutboundPacket::Pingresp]);
            }
            (false, out, none_del)
        },
        Packet::Publish { packet_id, message } => {
            let ghost q = message.qos;
            let (stop, ack, deliveries) = handle_publish(
                session,
                global,
                queue,
                packet_id,
                message,
                now,
            );
            let mut out = none_out;
            match ack {
                Some(p) => {
                    out.push(p);
                    proof {
                        if q == QualityOfService::Level1 {
                            assert(out@ =~= seq![OutboundPacket::Puback(packet_id)]);
                        }
                        if q == QualityOfService::Level2 {
                            assert(out@ =~= seq![OutboundPacket::Pubrec(packet_id)]);
                        }
                    }
                },
                None => {},
            }
            (stop, out, deliveries)
        },
        Packet::Puback(pid) => {
            handle_puback(session, queue, pid, now);
            (false, none_out, none_del)
        },
        Packet::Pubrec(pid) => {
            let p = handle_pubrec(session, queue, pid, now);
            let mut out = none_out;
            out.push(p);
            proof {
                assert(out@ =~= seq![OutboundPacket::Pubrel(pid)]);
            }
            (false, out, none_del)
        },
        Packet::Pubrel(pid) => {
            let (p, deliveries) = handle_pubrel(session, global, queue, pid, now);
            let mut out = none_out;
            out.push(p);
            proof {
                assert(out@ =~= seq![OutboundPacket::Pubcomp(pid)]);
            }
            (false, out, deliveries)
        },
        Packet::Pubcomp(pid) => {
            handle_pubcomp(session, queue, pid, now);
            (false, none_out, none_del)
        },
        Packet::Subscribe { packet_id, subscribes } => {
            let out = handle_subscribe(session, global, queue, packet_id, &subscribes, now);
            (false, out, none_del)
        },
        Packet::Unsubscribe { packet_id, filters } => {
            let p = handle_unsubscribe(session, global, packet_id, &filters);
            let mut out = none_out;
            out.push(p);
            proof {
                assert(out@ =~= seq![OutboundPacket::Unsuback(packet_id)]);
            }
            (false, out, none_del)
        },
        Packet::Disconnect => {
            handle_disconnect(session);
            (true, none_out, none_del)
        },
        Packet::Unsupported => {
            (true, none_out, none_del)
        },
    }
}

/// For one publisher and one subscriber, receive order matches send
/// order: fan-out happens synchronously inside the publisher's
/// handler, so the deliveries of an earlier publish all precede those
/// of a later one on the subscriber's channel, which preserves push
/// order.
pub proof fn lemma_delivery_order(d1: Seq<SpecDelivery>, d2: Seq<SpecDelivery>)
    ensures
        forall|i: int| 0 <= i < d1.len() ==> (d1 + d2)[i] == d1[i],
        forall|j: int| 0 <= j < d2.len() ==> (d1 + d2)[d1.len() + j] == d2[j],
{
}

} // verus!

use vstd::map::*;
use vstd::prelude::*;

use crate::alist::{
    kv_find, kv_map, kv_unique, lemma_kv_contains, lemma_kv_index, lemma_kv_push, lemma_kv_remove,
    lemma_kv_update,
};
use crate::publish::{
    IncomingPublishPacket, OutgoingPublishPacket, PublishMessage, SpecIncomingPublishPacket,
    SpecOutgoingPublishPacket, SpecPublishMessage,
};
use crate::qos::QualityOfService;

verus! {

/// Index of the first element of `s` satisfying `pred`, or -1.
pub open spec fn spec_first<T>(s: Seq<T>, pred: spec_fn(T) -> bool) -> int
    decreases s.len(),
{
    if s.len() == 0 {
        -1
    } else if pred(s[0]) {
        0
    } else if spec_first(s.skip(1), pred) == -1 {
        -1
    } else {
        spec_first(s.skip(1), pred) + 1
    }
}

/// A scan that saw no satisfying element before `j`, and one at `j` unless
/// it ran off the end, has found `spec_first`.
pub proof fn lemma_spec_first<T>(s: Seq<T>, pred: spec_fn(T) -> bool, j: int)
    requires
        0 <= j <= s.len(),
        forall|i: int| 0 <= i < j ==> !pred(s[i]),
        j < s.len() ==> pred(s[j]),
    ensures
        j < s.len() ==> spec_first(s, pred) == j,
        j == s.len() ==> spec_first(s, pred) == -1,
    decreases s.len(),
{
    if s.len() > 0 {
        if pred(s[0]) {
            assert(j == 0);
        } else {
            let t = s.skip(1);
            assert forall|i: int| 0 <= i < j - 1 implies !pred(t[i]) by {
                assert(t[i] == s[i + 1]);
            }
            assert(j - 1 < t.len() ==> pred(t[j - 1])) by {
                if j - 1 < t.len() {
                    assert(t[j - 1] == s[j]);
                }
            }
            lemma_spec_first(t, pred, j - 1);
        }
    }
}

/// What a found or failed search means: a non-negative result is the
/// first satisfying index; -1 means none satisfies.
pub proof fn lemma_spec_first_found<T>(s: Seq<T>, pred: spec_fn(T) -> bool)
    ensures
        spec_first(s, pred) >= 0 ==> {
            &&& 0 <= spec_first(s, pred) < s.len()
            &&& pred(s[spec_first(s, pred)])
            &&& forall|i: int| 0 <= i < spec_first(s, pred) ==> !pred(s[i])
        },
        spec_first(s, pred) == -1 ==> forall|i: int| 0 <= i < s.len() ==> !pred(s[i]),
        spec_first(s, pred) >= 0 || spec_first(s, pred) == -1,
    decreases s.len(),
{
    if s.len() > 0 && !pred(s[0]) {
        let t = s.skip(1);
        lemma_spec_first_found(t, pred);
        assert forall|i: int| 0 <= i < t.len() implies t[i] == s[i + 1] by {}
        if spec_first(t, pred) >= 0 {
            assert forall|i: int| 0 <= i < spec_first(s, pred) implies !pred(s[i]) by {
                if i > 0 {
                    assert(t[i - 1] == s[i]);
                }
            }
        } else {
            assert forall|i: int| 0 <= i < s.len() implies !pred(s[i]) by {
                if i > 0 {
                    assert(t[i - 1] == s[i]);
                }
            }
        }
    }
}

/// The entry a PUBREC acknowledges: a quality-of-service-2 publish with
/// that id whose handshake has not advanced yet.
pub open spec fn pubrec_match(p: SpecOutgoingPublishPacket, pid: u16) -> bool {
    &&& p.packet_id == pid
    &&& p.message.qos == QualityOfService::Level2
    &&& p.pubrec_at is None
    &&& p.pubcomp_at is None
}

/// The entry a PUBACK acknowledges: a quality-of-service-1 publish with
/// that id not yet completed.
pub open spec fn puback_match(p: SpecOutgoingPublishPacket, pid: u16) -> bool {
    &&& p.packet_id == pid
    &&& p.message.qos == QualityOfService::Level1
    &&& p.pubcomp_at is None
}

/// The entry a PUBCOMP acknowledges: a quality-of-service-2 publish with
/// that id whose PUBREC was already seen.
pub open spec fn pubcomp_match(p: SpecOutgoingPublishPacket, pid: u16) -> bool {
    &&& p.packet_id == pid
    &&& p.message.qos == QualityOfService::Level2
    &&& p.pubrec_at is Some
}

/// The entry a PUBREL releases: the held inbound publish with that id,
/// not yet delivered.
pub open spec fn pubrel_match(p: SpecIncomingPublishPacket, pid: u16) -> bool {
    &&& p.packet_id == pid
    &&& p.deliver_at is None
}

/// An inbound entry a clean pass may purge: already delivered, or held
/// longer than the time-to-live.
pub open spec fn incoming_expired(p: SpecIncomingPublishPacket, timeout: u64, now: u64) -> bool {
    p.deliver_at is Some || now >= timeout + p.receive_at
}

/// An outgoing entry a clean pass may purge: completed, or without
/// handshake progress for longer than the time-to-live.
pub open spec fn outgoing_expired(p: SpecOutgoingPublishPacket, timeout: u64, now: u64) -> bool {
    p.pubcomp_at is Some || now >= timeout + (match p.pubrec_at {
        Some(t) => t,
        None => p.added_at,
    })
}

/// An inbound entry still awaiting its PUBREL and within the time-to-live.
pub open spec fn incoming_ready(p: SpecIncomingPublishPacket, timeout: u64, now: u64) -> bool {
    p.deliver_at is None && now <= timeout + p.receive_at
}

/// An outgoing entry awaiting its first acknowledgement and within the
/// time-to-live: what a reconnecting client is owed again.
pub open spec fn outgoing_unsent(p: SpecOutgoingPublishPacket, timeout: u64, now: u64) -> bool {
    p.pubcomp_at is None && p.pubrec_at is None && now <= timeout + p.added_at
}

/// First outgoing entry a PUBREC for `pid` acknowledges, or -1.
pub open spec fn first_pubrec_idx(s: Seq<SpecOutgoingPublishPacket>, pid: u16) -> int {
    spec_first(s, |p: SpecOutgoingPublishPacket| pubrec_match(p, pid))
}

/// First outgoing entry a PUBACK for `pid` acknowledges, or -1.
pub open spec fn first_puback_idx(s: Seq<SpecOutgoingPublishPacket>, pid: u16) -> int {
    spec_first(s, |p: SpecOutgoingPublishPacket| puback_match(p, pid))
}

/// First outgoing entry a PUBCOMP for `pid` acknowledges, or -1.
pub open spec fn first_pubcomp_idx(s: Seq<SpecOutgoingPublishPacket>, pid: u16) -> int {
    spec_first(s, |p: SpecOutgoingPublishPacket| pubcomp_match(p, pid))
}

/// First held inbound entry a PUBREL for `pid` releases, or -1.
pub open spec fn first_pubrel_idx(s: Seq<SpecIncomingPublishPacket>, pid: u16) -> int {
    spec_first(s, |p: SpecIncomingPublishPacket| pubrel_match(p, pid))
}

/// The client's outgoing queue after a PUBREC for `pid`: the first
/// matching entry, if any, gets `pubrec_at` set and its message marked
/// as a duplicate.
pub open spec fn spec_pubrec(s: Seq<SpecOutgoingPublishPacket>, pid: u16, now: u64) -> Seq<
    SpecOutgoingPublishPacket,
> {
    let f = spec_first(s, |p: SpecOutgoingPublishPacket| pubrec_match(p, pid));
    if f < 0 {
        s
    } else {
        s.update(
            f,
            SpecOutgoingPublishPacket {
                pubrec_at: Some(now),
                message: SpecPublishMessage { dup: true, ..s[f].message },
                ..s[f]
            },
        )
    }
}

/// The client's outgoing queue after a PUBACK for `pid`.
pub open spec fn spec_puback(s: Seq<SpecOutgoingPublishPacket>, pid: u16, now: u64) -> Seq<
    SpecOutgoingPublishPacket,
> {
    let f = spec_first(s, |p: SpecOutgoingPublishPacket| puback_match(p, pid));
    if f < 0 {
        s
    } else {
        s.update(
            f,
            SpecOutgoingPublishPacket {
                pubcomp_at: Some(now),
                message: SpecPublishMessage { dup: true, ..s[f].message },
                ..s[f]
            },
        )
    }
}

/// The client's outgoing queue after a PUBCOMP for `pid`.
pub open spec fn spec_pubcomp(s: Seq<SpecOutgoingPublishPacket>, pid: u16, now: u64) -> Seq<
    SpecOutgoingPublishPacket,
> {
    let f = spec_first(s, |p: SpecOutgoingPublishPacket| pubcomp_match(p, pid));
    if f < 0 {
        s
    } else {
        s.update(f, SpecOutgoingPublishPacket { pubcomp_at: Some(now), ..s[f] })
    }
}

/// The client's incoming queue after a PUBREL for `pid`: the first held
/// entry with that id, if any, gets `deliver_at` set.
pub open spec fn spec_pubrel(s: Seq<SpecIncomingPublishPacket>, pid: u16, now: u64) -> Seq<
    SpecIncomingPublishPacket,
> {
    let f = spec_first(s, |p: SpecIncomingPublishPacket| pubrel_match(p, pid));
    if f < 0 {
        s
    } else {
        s.update(f, SpecIncomingPublishPacket { deliver_at: Some(now), ..s[f] })
    }
}

/// The client's held inbound entries still awaiting their PUBREL and
/// within the time-to-live, in store order.
pub open spec fn spec_ready_incoming(
    s: Seq<SpecIncomingPublishPacket>,
    timeout: u64,
    now: u64,
) -> Seq<SpecIncomingPublishPacket> {
    s.filter(|p: SpecIncomingPublishPacket| incoming_ready(p, timeout, now))
}

/// The client's outgoing entries awaiting their first acknowledgement
/// and within the time-to-live, in store order.
pub open spec fn spec_unsent_outgoing(
    s: Seq<SpecOutgoingPublishPacket>,
    timeout: u64,
    now: u64,
) -> Seq<SpecOutgoingPublishPacket> {
    s.filter(|p: SpecOutgoingPublishPacket| outgoing_unsent(p, timeout, now))
}

/// In-memory inflight store: per-client queues of held inbound
/// quality-of-service-2 publishes and of outgoing publishes awaiting
/// their acknowledgement handshake. Callers pass the current time in;
/// the surrounding runtime provides mutual exclusion.
pub struct MemoryQueue {
    pub max_inflight: u16,
    pub timeout: u64,
    pub qos2_packets: Vec<(String, Vec<IncomingPublishPacket>)>,
    pub outgoing_packets: Vec<(String, Vec<OutgoingPublishPacket>)>,
}

impl MemoryQueue {
    /// Both backing lists key each client at most once.
    pub open spec fn wf(self) -> bool {
        kv_unique(self.qos2_packets@) && kv_unique(self.outgoing_packets@)
    }

    /// The held inbound publishes, per client.
    pub open spec fn incoming(self) -> Map<Seq<char>, Seq<SpecIncomingPublishPacket>> {
        kv_map(self.qos2_packets@)
    }

    /// The outgoing inflight publishes, per client.
    pub open spec fn outgoing(self) -> Map<Seq<char>, Seq<SpecOutgoingPublishPacket>> {
        kv_map(self.outgoing_packets@)
    }

    /// The client's held inbound queue; empty when the client has none.
    pub open spec fn incoming_of(self, cid: Seq<char>) -> Seq<SpecIncomingPublishPacket> {
        if self.incoming().contains_key(cid) {
            self.incoming()[cid]
        } else {
            Seq::empty()
        }
    }

    /// The client's outgoing queue; empty when the client has none.
    pub open spec fn outgoing_of(self, cid: Seq<char>) -> Seq<SpecOutgoingPublishPacket> {
        if self.outgoing().contains_key(cid) {
            self.outgoing()[cid]
        } else {
            Seq::empty()
        }
    }

    /// Configuration carried unchanged across an operation.
    pub open spec fn same_config(self, other: MemoryQueue) -> bool {
        self.max_inflight == other.max_inflight && self.timeout == other.timeout
    }

    pub fn new(max_inflight: u16, timeout: u64) -> (r: MemoryQueue)
        ensures
            r.wf(),
            r.max_inflight == max_inflight,
            r.timeout == timeout,
            r.incoming() == Map::<Seq<char>, Seq<SpecIncomingPublishPacket>>::empty(),
            r.outgoing() == Map::<Seq<char>, Seq<SpecOutgoingPublishPacket>>::empty(),
    {
        MemoryQueue { max_inflight, timeout, qos2_packets: Vec::new(), outgoing_packets: Vec::new() }
    }

    /// Append a held inbound quality-of-service-2 publish to the client's
    /// queue, unless the queue is at `max_inflight`; returns whether it
    /// was full (the caller then drops the packet).
    pub fn push_qos2_back(
        &mut self,
        client_id: &String,
        packet_id: u16,
        message: PublishMessage,
        now: u64,
    ) -> (full: bool)
        requires
            old(self).wf(),
        ensures
            final(self).wf(),
            old(self).same_config(*final(self)),
            final(self).outgoing() == old(self).outgoing(),
            full == (old(self).incoming_of(client_id@).len() >= old(self).max_inflight),
            full ==> final(self).incoming() == old(self).incoming().insert(
                client_id@,
                old(self).incoming_of(client_id@),
            ),
            !full ==> final(self).incoming() == old(self).incoming().insert(
                client_id@,
                old(self).incoming_of(client_id@).push(
                    SpecIncomingPublishPacket {
                        message: message@,
                        packet_id,
                        receive_at: now,
                        deliver_at: None,
                    },
                ),
            ),
    {
        let qi = self.incoming_entry(client_id);
        let ghost pre = *self;
        if self.qos2_packets[qi].1.len() >= self.max_inflight as usize {
            true
        } else {
            let pkt = IncomingPublishPacket::new(packet_id, message, now);
            self.qos2_packets[qi].1.push(pkt);
            proof {
                lemma_kv_update(
                    pre.qos2_packets@,
                    qi as int,
                    self.qos2_packets@[qi as int],
                );
                assert(self.qos2_packets@[qi as int].1.deep_view() =~= pre.incoming_of(
                    client_id@,
                ).push(
                    SpecIncomingPublishPacket {
                        message: pkt@.message,
                        packet_id,
                        receive_at: now,
                        deliver_at: None,
                    },
                ));
                assert(self.incoming() =~= old(self).incoming().insert(
                    client_id@,
                    old(self).incoming_of(client_id@).push(
                        SpecIncomingPublishPacket {
                            message: message@,
                            packet_id,
                            receive_at: now,
                            deliver_at: None,
                        },
                    ),
                ));
            }
            false
        }
    }

    /// Index of the client's entry in the incoming list, creating an
    /// empty one when absent (as the store's map access does).
    fn incoming_entry(&mut self, client_id: &String) -> (qi: usize)
        requires
            old(self).wf(),
        ensures
            final(self).wf(),
            old(self).same_config(*final(self)),
            final(self).outgoing() == old(self).outgoing(),
            final(self).outgoing_packets == old(self).outgoing_packets,
            qi < final(self).qos2_packets@.len(),
            final(self).qos2_packets@[qi as int].0@ == client_id@,
            final(self).qos2_packets@[qi as int].1.deep_view() == old(self).incoming_of(
                client_id@,
            ),
            final(self).incoming() == old(self).incoming().insert(
                client_id@,
                old(self).incoming_of(client_id@),
            ),
    {
        let r = kv_find(&self.qos2_packets, client_id);
        match r {
            Some(i) => {
                proof {
                    lemma_kv_contains(self.qos2_packets@, client_id@);
                    lemma_kv_index(self.qos2_packets@, i as int);
                    assert(self.incoming() =~= self.incoming().insert(
                        client_id@,
                        self.incoming_of(client_id@),
                    ));
                }
                i
            },
            None => {
                let ghost s0 = self.qos2_packets@;
                self.qos2_packets.push((client_id.clone(), Vec::new()));
                proof {
                    lemma_kv_contains(s0, client_id@);
                    lemma_kv_push(s0, self.qos2_packets@.last());
                    assert(self.qos2_packets@.last().1.deep_view() =~= Seq::<
                        SpecIncomingPublishPacket,
                    >::empty());
                }
                self.qos2_packets.len() - 1
            },
        }
    }

    /// Index of the client's entry in the outgoing list, creating an
    /// empty one when absent.
    fn outgoing_entry(&mut self, client_id: &String) -> (qi: usize)
        requires
            old(self).wf(),
        ensures
            final(self).wf(),
            old(self).same_config(*final(self)),
            final(self).incoming() == old(self).incoming(),
            final(self).qos2_packets == old(self).qos2_packets,
            qi < final(self).outgoing_packets@.len(),
            final(self).outgoing_packets@[qi as int].0@ == client_id@,
            final(self).outgoing_packets@[qi as int].1.deep_view() == old(self).outgoing_of(
                client_id@,
            ),
            final(self).outgoing() == old(self).outgoing().insert(
                client_id@,
                old(self).outgoing_of(client_id@),
            ),
    {
        let r = kv_find(&self.outgoing_packets, client_id);
        match r {
            Some(i) => {
                proof {
                    lemma_kv_contains(self.outgoing_packets@, client_id@);
                    lemma_kv_index(self.outgoing_packets@, i as int);
                    assert(self.outgoing() =~= self.outgoing().insert(
                        client_id@,
                        self.outgoing_of(client_id@),
                    ));
                }
                i
            },
            None => {
                let ghost s0 = self.outgoing_packets@;
                self.outgoing_packets.push((client_id.clone(), Vec::new()));
                proof {
                    lemma_kv_contains(s0, client_id@);
                    lemma_kv_push(s0, self.outgoing_packets@.last());
                    assert(self.outgoing_packets@.last().1.deep_view() =~= Seq::<
                        SpecOutgoingPublishPacket,
                    >::empty());
                }
                self.outgoing_packets.len() - 1
            },
        }
    }

    /// Append an outgoing publish to the client's queue, unless the queue
    /// is at `max_inflight`; returns whether it was full.
    pub fn push_outgoing_back(
        &mut self,
        client_id: &String,
        packet_id: u16,
        subscribe_qos: QualityOfService,
        message: PublishMessage,
        now: u64,
    ) -> (full: bool)
        requires
            old(self).wf(),
        ensures
            final(self).wf(),
            old(self).same_config(*final(self)),
            final(self).incoming() == old(self).incoming(),
            full == (old(self).outgoing_of(client_id@).len() >= old(self).max_inflight),
            full ==> final(self).outgoing() == old(self).outgoing().insert(
                client_id@,
                old(self).outgoing_of(client_id@),
            ),
            !full ==> final(self).outgoing() == old(self).outgoing().insert(
                client_id@,
                old(self).outgoing_of(client_id@).push(
                    SpecOutgoingPublishPacket {
                        packet_id,
                        subscribe_qos,
                        message: message@,
                        added_at: now,
                        pubrec_at: None,
                        pubcomp_at: None,
                    },
                ),
            ),
    {
        let qi = self.outgoing_entry(client_id);
        let ghost pre = *self;
        if self.outgoing_packets[qi].1.len() >= self.max_inflight as usize {
            true
        } else {
            let pkt = OutgoingPublishPacket::new(packet_id, subscribe_qos, message, now);
            self.outgoing_packets[qi].1.push(pkt);
            proof {
                lemma_kv_update(
                    pre.outgoing_packets@,
                    qi as int,
                    self.outgoing_packets@[qi as int],
                );
                assert(self.outgoing_packets@[qi as int].1.deep_view() =~= pre.outgoing_of(
                    client_id@,
                ).push(pkt@));
                assert(self.outgoing() =~= old(self).outgoing().insert(
                    client_id@,
                    old(self).outgoing_of(client_id@).push(pkt@),
                ));
            }
            false
        }
    }

    /// Record a PUBREC from the client: advance the first matching
    /// outgoing entry and mark its message as a duplicate for any resend.
    /// Returns whether an entry matched.
    pub fn pubrec(&mut self, client_id: &String, target_pid: u16, now: u64) -> (found: bool)
        requires
            old(self).wf(),
        ensures
            final(self).wf(),
            old(self).same_config(*final(self)),
            final(self).incoming() == old(self).incoming(),
            found == (first_pubrec_idx(old(self).outgoing_of(client_id@), target_pid) >= 0),
            old(self).outgoing().contains_key(client_id@) ==> final(self).outgoing() == old(
                self,
            ).outgoing().insert(
                client_id@,
                spec_pubrec(old(self).outgoing_of(client_id@), target_pid, now),
            ),
            !old(self).outgoing().contains_key(client_id@) ==> final(self).outgoing() == old(
                self,
            ).outgoing(),
    {
        let ghost pred = |p: SpecOutgoingPublishPacket| pubrec_match(p, target_pid);
        let r = kv_find(&self.outgoing_packets, client_id);
        match r {
            None => {
                proof {
                    lemma_kv_contains(self.outgoing_packets@, client_id@);
                    lemma_spec_first(self.outgoing_of(client_id@), pred, 0);
                }
                false
            },
            Some(qi) => {
                proof {
                    lemma_kv_contains(self.outgoing_packets@, client_id@);
                    lemma_kv_index(self.outgoing_packets@, qi as int);
                }
                let ghost s = self.outgoing_of(client_id@);
                match Self::find_pubrec(&self.outgoing_packets[qi].1, target_pid) {
                    None => {
                        proof {
                            lemma_spec_first(s, pred, s.len() as int);
                            assert(self.outgoing() =~= self.outgoing().insert(
                                client_id@,
                                spec_pubrec(s, target_pid, now),
                            ));
                        }
                        false
                    },
                    Some(j) => {
                        let ghost pre = *self;
                        self.outgoing_packets[qi].1[j].pubrec_at = Some(now);
                        self.outgoing_packets[qi].1[j].message.dup = true;
                        proof {
                            lemma_spec_first(s, pred, j as int);
                            assert(self.outgoing_packets@ =~= pre.outgoing_packets@.update(
                                qi as int,
                                self.outgoing_packets@[qi as int],
                            ));
                            lemma_kv_update(
                                pre.outgoing_packets@,
                                qi as int,
                                self.outgoing_packets@[qi as int],
                            );
                            assert(self.outgoing_packets@[qi as int].1.deep_view() =~= spec_pubrec(
                                s,
                                target_pid,
                                now,
                            ));
                        }
                        true
                    },
                }
            },
        }
    }

    /// First outgoing entry a PUBREC for `pid` acknowledges.
    fn find_pubrec(v: &Vec<OutgoingPublishPacket>, pid: u16) -> (r: Option<usize>)
        ensures
            (match r {
                Some(j) => {
                    &&& j < v@.len()
                    &&& pubrec_match(v.deep_view()[j as int], pid)
                    &&& forall|i: int| 0 <= i < j ==> !pubrec_match(v.deep_view()[i], pid)
                },
                None => forall|i: int| 0 <= i < v@.len() ==> !pubrec_match(v.deep_view()[i], pid),
            }),
    {
        let mut j: usize = 0;
        while j < v.len()
            invariant
                j <= v@.len(),
                forall|i: int| 0 <= i < j ==> !pubrec_match(v.deep_view()[i], pid),
            decreases v@.len() - j,
        {
            let p = &v[j];
            if p.packet_id == pid && p.message.qos == QualityOfService::Level2
                && p.pubrec_at.is_none() && p.pubcomp_at.is_none() {
                return Some(j);
            }
            j += 1;
        }
        None
    }

    /// Record a PUBACK from the client: complete the first matching
    /// quality-of-service-1 outgoing entry. Returns whether one matched.
    pub fn puback(&mut self, client_id: &String, target_pid: u16, now: u64) -> (found: bool)
        requires
            old(self).wf(),
        ensures
            final(self).wf(),
            old(self).same_config(*final(self)),
            final(self).incoming() == old(self).incoming(),
            found == (first_puback_idx(old(self).outgoing_of(client_id@), target_pid) >= 0),
            old(self).outgoing().contains_key(client_id@) ==> final(self).outgoing() == old(
                self,
            ).outgoing().insert(
                client_id@,
                spec_puback(old(self).outgoing_of(client_id@), target_pid, now),
            ),
            !old(self).outgoing().contains_key(client_id@) ==> final(self).outgoing() == old(
                self,
            ).outgoing(),
    {
        let ghost pred = |p: SpecOutgoingPublishPacket| puback_match(p, target_pid);
        let r = kv_find(&self.outgoing_packets, client_id);
        match r {
            None => {
                proof {
                    lemma_kv_contains(self.outgoing_packets@, client_id@);
                    lemma_spec_first(self.outgoing_of(client_id@), pred, 0);
                }
                false
            },
            Some(qi) => {
                proof {
                    lemma_kv_contains(self.outgoing_packets@, client_id@);
                    lemma_kv_index(self.outgoing_packets@, qi as int);
                }
                let ghost s = self.outgoing_of(client_id@);
                match Self::find_puback(&self.outgoing_packets[qi].1, target_pid) {
                    None => {
                        proof {
                            lemma_spec_first(s, pred, s.len() as int);
                            assert(self.outgoing() =~= self.outgoing().insert(
                                client_id@,
                                spec_puback(s, target_pid, now),
                            ));
                        }
                        false
                    },
                    Some(j) => {
                        let ghost pre = *self;
                        self.outgoing_packets[qi].1[j].pubcomp_at = Some(now);
                        self.outgoing_packets[qi].1[j].message.dup = true;
                        proof {
                            lemma_spec_first(s, pred, j as int);
                            assert(self.outgoing_packets@ =~= pre.outgoing_packets@.update(
                                qi as int,
                                self.outgoing_packets@[qi as int],
                            ));
                            lemma_kv_update(
                                pre.outgoing_packets@,
                                qi as int,
                                self.outgoing_packets@[qi as int],
                            );
                            assert(self.outgoing_packets@[qi as int].1.deep_view() =~= spec_puback(
                                s,
                                target_pid,
                                now,
                            ));
                        }
                        true
                    },
                }
            },
        }
    }

    /// First outgoing entry a PUBACK for `pid` acknowledges.
    fn find_puback(v: &Vec<OutgoingPublishPacket>, pid: u16) -> (r: Option<usize>)
        ensures
            (match r {
                Some(j) => {
                    &&& j < v@.len()
                    &&& puback_match(v.deep_view()[j as int], pid)
                    &&& forall|i: int| 0 <= i < j ==> !puback_match(v.deep_view()[i], pid)
                },
                None => forall|i: int| 0 <= i < v@.len() ==> !puback_match(v.deep_view()[i], pid),
            }),
    {
        let mut j: usize = 0;
        while j < v.len()
            invariant
                j <= v@.len(),
                forall|i: int| 0 <= i < j ==> !puback_match(v.deep_view()[i], pid),
            decreases v@.len() - j,
        {
            let p = &v[j];
            if p.packet_id == pid && p.message.qos == QualityOfService::Level1
                && p.pubcomp_at.is_none() {
                return Some(j);
            }
            j += 1;
        }
        None
    }

    /// Record a PUBCOMP from the client: complete the first matching
    /// quality-of-service-2 outgoing entry. Returns whether one matched.
    pub fn pubcomp(&mut self, client_id: &String, target_pid: u16, now: u64) -> (found: bool)
        requires
            old(self).wf(),
        ensures
            final(self).wf(),
            old(self).same_config(*final(self)),
            final(self).incoming() == old(self).incoming(),
            found == (first_pubcomp_idx(old(self).outgoing_of(client_id@), target_pid) >= 0),
            old(self).outgoing().contains_key(client_id@) ==> final(self).outgoing() == old(
                self,
            ).outgoing().insert(
                client_id@,
                spec_pubcomp(old(self).outgoing_of(client_id@), target_pid, now),
            ),
            !old(self).outgoing().contains_key(client_id@) ==> final(self).outgoing() == old(
                self,
            ).outgoing(),
    {
        let ghost pred = |p: SpecOutgoingPublishPacket| pubcomp_match(p, target_pid);
        let r = kv_find(&self.outgoing_packets, client_id);
        match r {
            None => {
                proof {
                    lemma_kv_contains(self.outgoing_packets@, client_id@);
                    lemma_spec_first(self.outgoing_of(client_id@), pred, 0);
                }
                false
            },
            Some(qi) => {
                proof {
                    lemma_kv_contains(self.outgoing_packets@, client_id@);
                    lemma_kv_index(self.outgoing_packets@, qi as int);
                }
                let ghost s = self.outgoing_of(client_id@);
                match Self::find_pubcomp(&self.outgoing_packets[qi].1, target_pid) {
                    None => {
                        proof {
                            lemma_spec_first(s, pred, s.len() as int);
                            assert(self.outgoing() =~= self.outgoing().insert(
                                client_id@,
                                spec_pubcomp(s, target_pid, now),
                            ));
                        }
                        false
                    },
                    Some(j) => {
                        let ghost pre = *self;
                        self.outgoing_packets[qi].1[j].pubcomp_at = Some(now);
                        proof {
                            lemma_spec_first(s, pred, j as int);
                            lemma_kv_update(
                                pre.outgoing_packets@,
                                qi as int,
                                self.outgoing_packets@[qi as int],
                            );
                            assert(self.outgoing_packets@[qi as int].1.deep_view() =~= spec_pubcomp(
                                s,
                                target_pid,
                                now,
                            ));
                        }
                        true
                    },
                }
            },
        }
    }

    /// First outgoing entry a PUBCOMP for `pid` acknowledges.
    fn find_pubcomp(v: &Vec<OutgoingPublishPacket>, pid: u16) -> (r: Option<usize>)
        ensures
            (match r {
                Some(j) => {
                    &&& j < v@.len()
                    &&& pubcomp_match(v.deep_view()[j as int], pid)
                    &&& forall|i: int| 0 <= i < j ==> !pubcomp_match(v.deep_view()[i], pid)
                },
                None => forall|i: int| 0 <= i < v@.len() ==> !pubcomp_match(v.deep_view()[i], pid),
            }),
    {
        let mut j: usize = 0;
        while j < v.len()
            invariant
                j <= v@.len(),
                forall|i: int| 0 <= i < j ==> !pubcomp_match(v.deep_view()[i], pid),
            decreases v@.len() - j,
        {
            let p = &v[j];
            if p.packet_id == pid && p.message.qos == QualityOfService::Level2
                && p.pubrec_at.is_some() {
                return Some(j);
            }
            j += 1;
        }
        None
    }

    /// Release the held inbound publish a PUBREL for `pid` refers to:
    /// mark it delivered and hand back its message for fan-out. `None`
    /// when no held entry matches (a duplicate or stray PUBREL).
    pub fn pubrel(&mut self, client_id: &String, target_pid: u16, now: u64) -> (r: Option<
        PublishMessage,
    >)
        requires
            old(self).wf(),
        ensures
            final(self).wf(),
            old(self).same_config(*final(self)),
            final(self).outgoing() == old(self).outgoing(),
            (r is Some) == (first_pubrel_idx(old(self).incoming_of(client_id@), target_pid)
                >= 0),
            (match r {
                Some(m) => m@ == old(self).incoming_of(client_id@)[first_pubrel_idx(
                    old(self).incoming_of(client_id@),
                    target_pid,
                )].message,
                None => true,
            }),
            old(self).incoming().contains_key(client_id@) ==> final(self).incoming() == old(
                self,
            ).incoming().insert(
                client_id@,
                spec_pubrel(old(self).incoming_of(client_id@), target_pid, now),
            ),
            !old(self).incoming().contains_key(client_id@) ==> final(self).incoming() == old(
                self,
            ).incoming(),
    {
        let ghost pred = |p: SpecIncomingPublishPacket| pubrel_match(p, target_pid);
        let r = kv_find(&self.qos2_packets, client_id);
        match r {
            None => {
                proof {
                    lemma_kv_contains(self.qos2_packets@, client_id@);
                    lemma_spec_first(self.incoming_of(client_id@), pred, 0);
                }
                None
            },
            Some(qi) => {
                proof {
                    lemma_kv_contains(self.qos2_packets@, client_id@);
                    lemma_kv_index(self.qos2_packets@, qi as int);
                }
                let ghost s = self.incoming_of(client_id@);
                match Self::find_pubrel(&self.qos2_packets[qi].1, target_pid) {
                    None => {
                        proof {
                            lemma_spec_first(s, pred, s.len() as int);
                            assert(self.incoming() =~= self.incoming().insert(
                                client_id@,
                                spec_pubrel(s, target_pid, now),
                            ));
                        }
                        None
                    },
                    Some(j) => {
                        let ghost pre = *self;
                        self.qos2_packets[qi].1[j].deliver_at = Some(now);
                        let msg = self.qos2_packets[qi].1[j].message.clone();
                        proof {
                            lemma_spec_first(s, pred, j as int);
                            lemma_kv_update(
                                pre.qos2_packets@,
                                qi as int,
                                self.qos2_packets@[qi as int],
                            );
                            assert(self.qos2_packets@[qi as int].1.deep_view() =~= spec_pubrel(
                                s,
                                target_pid,
                                now,
                            ));
                        }
                        Some(msg)
                    },
                }
            },
        }
    }

    /// First held inbound entry a PUBREL for `pid` releases.
    fn find_pubrel(v: &Vec<IncomingPublishPacket>, pid: u16) -> (r: Option<usize>)
        ensures
            (match r {
                Some(j) => {
                    &&& j < v@.len()
                    &&& pubrel_match(v.deep_view()[j as int], pid)
                    &&& forall|i: int| 0 <= i < j ==> !pubrel_match(v.deep_view()[i], pid)
                },
                None => forall|i: int| 0 <= i < v@.len() ==> !pubrel_match(v.deep_view()[i], pid),
            }),
    {
        let mut j: usize = 0;
        while j < v.len()
            invariant
                j <= v@.len(),
                forall|i: int| 0 <= i < j ==> !pubrel_match(v.deep_view()[i], pid),
            decreases v@.len() - j,
        {
            let p = &v[j];
            if p.packet_id == pid && p.deliver_at.is_none() {
                return Some(j);
            }
            j += 1;
        }
        None
    }

    /// Whether the client's held inbound queue already holds an
    /// undelivered entry for `pid`: the receiver-side duplicate test.
    pub fn contains_incoming(&self, client_id: &String, target_pid: u16) -> (r: bool)
        requires
            self.wf(),
        ensures
            r == (first_pubrel_idx(self.incoming_of(client_id@), target_pid) >= 0),
    {
        let ghost pred = |p: SpecIncomingPublishPacket| pubrel_match(p, target_pid);
        match kv_find(&self.qos2_packets, client_id) {
            None => {
                proof {
                    lemma_kv_contains(self.qos2_packets@, client_id@);
                    lemma_spec_first(self.incoming_of(client_id@), pred, 0);
                }
                false
            },
            Some(qi) => {
                proof {
                    lemma_kv_contains(self.qos2_packets@, client_id@);
                    lemma_kv_index(self.qos2_packets@, qi as int);
                }
                let ghost s = self.incoming_of(client_id@);
                match Self::find_pubrel(&self.qos2_packets[qi].1, target_pid) {
                    None => {
                        proof {
                            lemma_spec_first(s, pred, s.len() as int);
                        }
                        false
                    },
                    Some(j) => {
                        proof {
                            lemma_spec_first(s, pred, j as int);
                        }
                        true
                    },
                }
            },
        }
    }

    /// Purge at most one held inbound entry that is already delivered or
    /// has outlived the time-to-live.
    pub fn clean_incoming(&mut self, client_id: &String, now: u64)
        requires
            old(self).wf(),
        ensures
            final(self).wf(),
            old(self).same_config(*final(self)),
            final(self).outgoing() == old(self).outgoing(),
            old(self).incoming().contains_key(client_id@) ==> final(self).incoming() == old(
                self,
            ).incoming().insert(
                client_id@,
                spec_clean_incoming(
                    old(self).incoming_of(client_id@),
                    old(self).timeout,
                    now,
                ),
            ),
            !old(self).incoming().contains_key(client_id@) ==> final(self).incoming() == old(
                self,
            ).incoming(),
    {
        let ghost pred = |p: SpecIncomingPublishPacket| incoming_expired(p, old(self).timeout, now);
        let r = kv_find(&self.qos2_packets, client_id);
        match r {
            None => {
                proof {
                    lemma_kv_contains(self.qos2_packets@, client_id@);
                }
            },
            Some(qi) => {
                proof {
                    lemma_kv_contains(self.qos2_packets@, client_id@);
                    lemma_kv_index(self.qos2_packets@, qi as int);
                }
                let ghost s = self.incoming_of(client_id@);
                let timeout = self.timeout;
                match Self::find_expired_incoming(&self.qos2_packets[qi].1, timeout, now) {
                    None => {
                        proof {
                            lemma_spec_first(s, pred, s.len() as int);
                            assert(self.incoming() =~= self.incoming().insert(
                                client_id@,
                                spec_clean_incoming(s, timeout, now),
                            ));
                        }
                    },
                    Some(j) => {
                        let ghost pre = *self;
                        self.qos2_packets[qi].1.remove(j);
                        proof {
                            lemma_spec_first(s, pred, j as int);
                            lemma_kv_update(
                                pre.qos2_packets@,
                                qi as int,
                                self.qos2_packets@[qi as int],
                            );
                            assert(self.qos2_packets@[qi as int].1.deep_view()
                                =~= spec_clean_incoming(s, timeout, now));
                        }
                    },
                }
            },
        }
    }

    /// First held inbound entry eligible for purging.
    fn find_expired_incoming(v: &Vec<IncomingPublishPacket>, timeout: u64, now: u64) -> (r: Option<
        usize,
    >)
        ensures
            (match r {
                Some(j) => {
                    &&& j < v@.len()
                    &&& incoming_expired(v.deep_view()[j as int], timeout, now)
                    &&& forall|i: int|
                        0 <= i < j ==> !incoming_expired(v.deep_view()[i], timeout, now)
                },
                None => forall|i: int|
                    0 <= i < v@.len() ==> !incoming_expired(v.deep_view()[i], timeout, now),
            }),
    {
        let mut j: usize = 0;
        while j < v.len()
            invariant
                j <= v@.len(),
                forall|i: int| 0 <= i < j ==> !incoming_expired(v.deep_view()[i], timeout, now),
            decreases v@.len() - j,
        {
            let p = &v[j];
            if p.deliver_at.is_some() || (now >= p.receive_at && now - p.receive_at >= timeout) {
                return Some(j);
            }
            j += 1;
        }
        None
    }

    /// Purge at most one outgoing entry that is completed or whose last
    /// handshake progress has outlived the time-to-live.
    pub fn clean_outgoing(&mut self, client_id: &String, now: u64)
        requires
            old(self).wf(),
        ensures
            final(self).wf(),
            old(self).same_config(*final(self)),
            final(self).incoming() == old(self).incoming(),
            old(self).outgoing().contains_key(client_id@) ==> final(self).outgoing() == old(
                self,
            ).outgoing().insert(
                client_id@,
                spec_clean_outgoing(
                    old(self).outgoing_of(client_id@),
                    old(self).timeout,
                    now,
                ),
            ),
            !old(self).outgoing().contains_key(client_id@) ==> final(self).outgoing() == old(
                self,
            ).outgoing(),
    {
        let ghost pred = |p: SpecOutgoingPublishPacket| outgoing_expired(p, old(self).timeout, now);
        let r = kv_find(&self.outgoing_packets, client_id);
        match r {
            None => {
                proof {
                    lemma_kv_contains(self.outgoing_packets@, client_id@);
                }
            },
            Some(qi) => {
                proof {
                    lemma_kv_contains(self.outgoing_packets@, client_id@);
                    lemma_kv_index(self.outgoing_packets@, qi as int);
                }
                let ghost s = self.outgoing_of(client_id@);
                let timeout = self.timeout;
                match Self::find_expired_outgoing(&self.outgoing_packets[qi].1, timeout, now) {
                    None => {
                        proof {
                            lemma_spec_first(s, pred, s.len() as int);
                            assert(self.outgoing() =~= self.outgoing().insert(
                                client_id@,
                                spec_clean_outgoing(s, timeout, now),
                            ));
                        }
                    },
                    Some(j) => {
                        let ghost pre = *self;
                        self.outgoing_packets[qi].1.remove(j);
                        proof {
                            lemma_spec_first(s, pred, j as int);
                            lemma_kv_update(
                                pre.outgoing_packets@,
                                qi as int,
                                self.outgoing_packets@[qi as int],
                            );
                            assert(self.outgoing_packets@[qi as int].1.deep_view()
                                =~= spec_clean_outgoing(s, timeout, now));
                        }
                    },
                }
            },
        }
    }

    /// First outgoing entry eligible for purging.
    fn find_expired_outgoing(v: &Vec<OutgoingPublishPacket>, timeout: u64, now: u64) -> (r: Option<
        usize,
    >)
        ensures
            (match r {
                Some(j) => {
                    &&& j < v@.len()
                    &&& outgoing_expired(v.deep_view()[j as int], timeout, now)
                    &&& forall|i: int|
                        0 <= i < j ==> !outgoing_expired(v.deep_view()[i], timeout, now)
                },
                None => forall|i: int|
                    0 <= i < v@.len() ==> !outgoing_expired(v.deep_view()[i], timeout, now),
            }),
    {
        let mut j: usize = 0;
        while j < v.len()
            invariant
                j <= v@.len(),
                forall|i: int| 0 <= i < j ==> !outgoing_expired(v.deep_view()[i], timeout, now),
            decreases v@.len() - j,
        {
            let p = &v[j];
            let anchor = match p.pubrec_at {
                Some(t) => t,
                None => p.added_at,
            };
            if p.pubcomp_at.is_some() || (now >= anchor && now - anchor >= timeout) {
                return Some(j);
            }
            j += 1;
        }
        None
    }

    /// The client's held inbound entries still awaiting their PUBREL and
    /// within the time-to-live, in store order; `None` when the client
    /// has no queue at all.
    pub fn get_ready_incoming_packets(&self, client_id: &String, now: u64) -> (r: Option<
        Vec<IncomingPublishPacket>,
    >)
        requires
            self.wf(),
        ensures
            (r is Some) == self.incoming().contains_key(client_id@),
            (match r {
                Some(v) => v.deep_view() == spec_ready_incoming(
                    self.incoming_of(client_id@),
                    self.timeout,
                    now,
                ),
                None => true,
            }),
    {
        let ghost pred = |p: SpecIncomingPublishPacket| incoming_ready(p, self.timeout, now);
        match kv_find(&self.qos2_packets, client_id) {
            None => {
                proof {
                    lemma_kv_contains(self.qos2_packets@, client_id@);
                }
                None
            },
            Some(qi) => {
                proof {
                    lemma_kv_contains(self.qos2_packets@, client_id@);
                    lemma_kv_index(self.qos2_packets@, qi as int);
                }
                let ghost s = self.incoming_of(client_id@);
                let v = &self.qos2_packets[qi].1;
                let mut out: Vec<IncomingPublishPacket> = Vec::new();
                let mut j: usize = 0;
                proof {
                    reveal(Seq::filter);
                    assert(out.deep_view() =~= s.subrange(0, 0).filter(pred));
                }
                while j < v.len()
                    invariant
                        j <= v@.len(),
                        s == v.deep_view(),
                        out.deep_view() == s.subrange(0, j as int).filter(pred),
                        pred == (|p: SpecIncomingPublishPacket| incoming_ready(
                            p,
                            self.timeout,
                            now,
                        )),
                    decreases v@.len() - j,
                {
                    let ghost out0 = out.deep_view();
                    proof {
                        assert(s.subrange(0, j + 1).drop_last() =~= s.subrange(0, j as int));
                        assert(s.subrange(0, j + 1).last() == s[j as int]);
                    }
                    let p = &v[j];
                    if p.deliver_at.is_none() && (now <= p.receive_at || now - p.receive_at
                        <= self.timeout) {
                        out.push(p.clone());
                        proof {
                            reveal(Seq::filter);
                            assert(pred(s[j as int]));
                            assert(s.subrange(0, j + 1).filter(pred) == s.subrange(
                                0,
                                j as int,
                            ).filter(pred).push(s[j as int]));
                            assert(out.deep_view() =~= out0.push(s[j as int]));
                        }
                    } else {
                        proof {
                            reveal(Seq::filter);
                            assert(!pred(s[j as int]));
                            assert(s.subrange(0, j + 1).filter(pred) == s.subrange(
                                0,
                                j as int,
                            ).filter(pred));
                        }
                    }
                    j += 1;
                }
                proof {
                    assert(s.subrange(0, s.len() as int) =~= s);
                }
                Some(out)
            },
        }
    }

    /// The client's outgoing entries still awaiting their first
    /// acknowledgement and within the time-to-live, in store order: what
    /// a reconnect replays. `None` when the client has no queue at all.
    pub fn get_unsent_outgoing_packets(&self, client_id: &String, now: u64) -> (r: Option<
        Vec<OutgoingPublishPacket>,
    >)
        requires
            self.wf(),
        ensures
            (r is Some) == self.outgoing().contains_key(client_id@),
            (match r {
                Some(v) => v.deep_view() == spec_unsent_outgoing(
                    self.outgoing_of(client_id@),
                    self.timeout,
                    now,
                ),
                None => true,
            }),
    {
        let ghost pred = |p: SpecOutgoingPublishPacket| outgoing_unsent(p, self.timeout, now);
        match kv_find(&self.outgoing_packets, client_id) {
            None => {
                proof {
                    lemma_kv_contains(self.outgoing_packets@, client_id@);
                }
                None
            },
            Some(qi) => {
                proof {
                    lemma_kv_contains(self.outgoing_packets@, client_id@);
                    lemma_kv_index(self.outgoing_packets@, qi as int);
                }
                let ghost s = self.outgoing_of(client_id@);
                let v = &self.outgoing_packets[qi].1;
                let mut out: Vec<OutgoingPublishPacket> = Vec::new();
                let mut j: usize = 0;
                proof {
                    reveal(Seq::filter);
                    assert(out.deep_view() =~= s.subrange(0, 0).filter(pred));
                }
                while j < v.len()
                    invariant
                        j <= v@.len(),
                        s == v.deep_view(),
                        out.deep_view() == s.subrange(0, j as int).filter(pred),
                        pred == (|p: SpecOutgoingPublishPacket| outgoing_unsent(
                            p,
                            self.timeout,
                            now,
                        )),
                    decreases v@.len() - j,
                {
                    let ghost out0 = out.deep_view();
                    proof {
                        assert(s.subrange(0, j + 1).drop_last() =~= s.subrange(0, j as int));
                        assert(s.subrange(0, j + 1).last() == s[j as int]);
                    }
                    let p = &v[j];
                    if p.pubcomp_at.is_none() && p.pubrec_at.is_none() && (now <= p.added_at || now
                        - p.added_at <= self.timeout) {
                        out.push(p.clone());
                        proof {
                            reveal(Seq::filter);
                            assert(pred(s[j as int]));
                            assert(s.subrange(0, j + 1).filter(pred) == s.subrange(
                                0,
                                j as int,
                            ).filter(pred).push(s[j as int]));
                            assert(out.deep_view() =~= out0.push(s[j as int]));
                        }
                    } else {
                        proof {
                            reveal(Seq::filter);
                            assert(!pred(s[j as int]));
                            assert(s.subrange(0, j + 1).filter(pred) == s.subrange(
                                0,
                                j as int,
                            ).filter(pred));
                        }
                    }
                    j += 1;
                }
                proof {
                    assert(s.subrange(0, s.len() as int) =~= s);
                }
                Some(out)
            },
        }
    }

    /// The packet ids of the client's outgoing inflight entries, in
    /// store order: what the packet-id allocator must avoid.
    pub fn outgoing_packet_ids(&self, client_id: &String) -> (r: Vec<u16>)
        requires
            self.wf(),
        ensures
            r@ == self.outgoing_of(client_id@).map_values(
                |p: SpecOutgoingPublishPacket| p.packet_id,
            ),
    {
        let ghost s = self.outgoing_of(client_id@);
        let mut out: Vec<u16> = Vec::new();
        match kv_find(&self.outgoing_packets, client_id) {
            None => {
                proof {
                    lemma_kv_contains(self.outgoing_packets@, client_id@);
                    assert(out@ =~= s.map_values(|p: SpecOutgoingPublishPacket| p.packet_id));
                }
                out
            },
            Some(qi) => {
                proof {
                    lemma_kv_contains(self.outgoing_packets@, client_id@);
                    lemma_kv_index(self.outgoing_packets@, qi as int);
                }
                let v = &self.outgoing_packets[qi].1;
                let mut j: usize = 0;
                while j < v.len()
                    invariant
                        j <= v@.len(),
                        s == v.deep_view(),
                        out@ =~= s.subrange(0, j as int).map_values(
                            |p: SpecOutgoingPublishPacket| p.packet_id,
                        ),
                    decreases v@.len() - j,
                {
                    out.push(v[j].packet_id);
                    proof {
                        assert(out@ =~= s.subrange(0, j + 1).map_values(
                            |p: SpecOutgoingPublishPacket| p.packet_id,
                        ));
                    }
                    j += 1;
                }
                proof {
                    assert(s.subrange(0, s.len() as int) =~= s);
                    assert(out@ =~= s.map_values(|p: SpecOutgoingPublishPacket| p.packet_id));
                }
                out
            },
        }
    }

    /// Drop both of the client's queues entirely.
    pub fn remove(&mut self, client_id: &String)
        requires
            old(self).wf(),
        ensures
            final(self).wf(),
            old(self).same_config(*final(self)),
            final(self).incoming() == old(self).incoming().remove(client_id@),
            final(self).outgoing() == old(self).outgoing().remove(client_id@),
    {
        match kv_find(&self.qos2_packets, client_id) {
            None => {
                proof {
                    lemma_kv_contains(self.qos2_packets@, client_id@);
                    assert(self.incoming() =~= self.incoming().remove(client_id@));
                }
            },
            Some(qi) => {
                let ghost pre = *self;
                self.qos2_packets.remove(qi);
                proof {
                    lemma_kv_remove(pre.qos2_packets@, qi as int);
                }
            },
        }
        match kv_find(&self.outgoing_packets, client_id) {
            None => {
                proof {
                    lemma_kv_contains(self.outgoing_packets@, client_id@);
                    assert(self.outgoing() =~= self.outgoing().remove(client_id@));
                }
            },
            Some(qi) => {
                let ghost pre = *self;
                self.outgoing_packets.remove(qi);
                proof {
                    lemma_kv_remove(pre.outgoing_packets@, qi as int);
                }
            },
        }
    }
}

/// Every 16-bit packet id except the reserved 0 is already inflight:
/// the allocator then has nothing left to hand out.
pub open spec fn spec_has_packet_id(s: Seq<SpecOutgoingPublishPacket>, id: u16) -> bool {
    exists|k: int| 0 <= k < s.len() && s[k].packet_id == id
}

pub open spec fn spec_ids_exhausted(s: Seq<SpecOutgoingPublishPacket>) -> bool {
    forall|id: u16| 1 <= id ==> spec_has_packet_id(s, id)
}

/// The client's held inbound queue after a clean pass: the first
/// purgeable entry, if any, is removed.
pub open spec fn spec_clean_incoming(
    s: Seq<SpecIncomingPublishPacket>,
    timeout: u64,
    now: u64,
) -> Seq<SpecIncomingPublishPacket> {
    let f = spec_first(s, |p: SpecIncomingPublishPacket| incoming_expired(p, timeout, now));
    if f < 0 {
        s
    } else {
        s.remove(f)
    }
}

/// The client's outgoing queue after a clean pass: the first purgeable
/// entry, if any, is removed.
pub open spec fn spec_clean_outgoing(
    s: Seq<SpecOutgoingPublishPacket>,
    timeout: u64,
    now: u64,
) -> Seq<SpecOutgoingPublishPacket> {
    let f = spec_first(s, |p: SpecOutgoingPublishPacket| outgoing_expired(p, timeout, now));
    if f < 0 {
        s
    } else {
        s.remove(f)
    }
}

/// A held, undelivered quality-of-service-2 publish makes any later
/// PUBLISH with the same id a duplicate: the receiver-side test finds
/// the held entry, so the message is not fanned out a second time.
pub proof fn lemma_held_entry_is_duplicate(
    s: Seq<SpecIncomingPublishPacket>,
    pid: u16,
)
    requires
        exists|k: int| 0 <= k < s.len() && pubrel_match(#[trigger] s[k], pid),
    ensures
        first_pubrel_idx(s, pid) >= 0,
{
    let pred = |p: SpecIncomingPublishPacket| pubrel_match(p, pid);
    lemma_spec_first_found(s, pred);
    if spec_first(s, pred) == -1 {
        let k = choose|k: int| 0 <= k < s.len() && pubrel_match(s[k], pid);
        assert(!pred(s[k]));
    }
}

/// Releasing a held publish consumes it: when the queue holds at most
/// one undelivered entry per id (as the duplicate test guarantees), a
/// second PUBREL for the same id finds nothing, so the message is
/// delivered exactly once.
pub proof fn lemma_pubrel_releases(s: Seq<SpecIncomingPublishPacket>, pid: u16, now: u64)
    requires
        forall|i: int, j: int|
            0 <= i < j < s.len() && pubrel_match(#[trigger] s[i], pid) ==> !pubrel_match(
                #[trigger] s[j],
                pid,
            ),
    ensures
        first_pubrel_idx(spec_pubrel(s, pid, now), pid) == -1,
{
    let pred = |p: SpecIncomingPublishPacket| pubrel_match(p, pid);
    lemma_spec_first_found(s, pred);
    let f = spec_first(s, pred);
    if f >= 0 {
        let t = s.update(f, SpecIncomingPublishPacket { deliver_at: Some(now), ..s[f] });
        assert forall|i: int| 0 <= i < t.len() implies !pred(t[i]) by {
            if i != f {
                assert(t[i] == s[i]);
                if pubrel_match(s[i], pid) {
                    if i < f {
                        assert(!pred(s[i]));
                    } else {
                        assert(pubrel_match(s[f], pid));
                        assert(!pubrel_match(s[i], pid));
                    }
                }
            }
        }
        lemma_spec_first(t, pred, t.len() as int);
    } else {
        lemma_spec_first(s, pred, s.len() as int);
    }
}

} // verus!

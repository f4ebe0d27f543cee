use vstd::prelude::*;

use crate::publish::{PublishMessage, SpecPublishMessage};
use crate::queue::{lemma_spec_first, spec_first};

verus! {

/// Mathematical value of a [`Session`].
pub ghost struct SpecSession {
    pub client_id: Seq<char>,
    pub clean_session: bool,
    pub keep_alive: u16,
    pub subscriptions: Seq<Seq<char>>,
    pub server_packet_id: u16,
    pub last_packet_at: u64,
    pub server_disconnected: bool,
    pub client_disconnected: bool,
    pub will: Option<SpecPublishMessage>,
}

/// Per-client state owned by one connection loop: identity, held
/// subscriptions, the packet-id counter for outgoing publishes,
/// liveness timestamp, disconnect flags and the will captured at
/// CONNECT.
#[derive(Debug)]
pub struct Session {
    pub client_id: String,
    pub clean_session: bool,
    pub keep_alive: u16,
    pub subscriptions: Vec<String>,
    pub server_packet_id: u16,
    pub last_packet_at: u64,
    pub server_disconnected: bool,
    pub client_disconnected: bool,
    pub will: Option<PublishMessage>,
}

impl View for Session {
    type V = SpecSession;

    open spec fn view(&self) -> SpecSession {
        SpecSession {
            client_id: self.client_id@,
            clean_session: self.clean_session,
            keep_alive: self.keep_alive,
            subscriptions: self.subscriptions.deep_view(),
            server_packet_id: self.server_packet_id,
            last_packet_at: self.last_packet_at,
            server_disconnected: self.server_disconnected,
            client_disconnected: self.client_disconnected,
            will: (match self.will {
                Some(w) => Some(w@),
                None => None,
            }),
        }
    }
}

impl DeepView for Session {
    type V = SpecSession;

    open spec fn deep_view(&self) -> SpecSession {
        self.view()
    }
}

impl Session {
    /// No topic filter is held twice.
    pub open spec fn wf(self) -> bool {
        forall|i: int, j: int|
            0 <= i < j < self.subscriptions@.len() ==> self.subscriptions@[i]@
                != self.subscriptions@[j]@
    }

    /// The held topic filters.
    pub open spec fn subs(self) -> Seq<Seq<char>> {
        self.subscriptions.deep_view()
    }

    /// Either side considers the connection gone.
    pub open spec fn spec_disconnected(self) -> bool {
        self.server_disconnected || self.client_disconnected
    }

    pub fn new(
        client_id: String,
        clean_session: bool,
        keep_alive: u16,
        will: Option<PublishMessage>,
        now: u64,
    ) -> (r: Session)
        ensures
            r.wf(),
            r == (Session {
                client_id,
                clean_session,
                keep_alive,
                subscriptions: r.subscriptions,
                server_packet_id: 0,
                last_packet_at: now,
                server_disconnected: false,
                client_disconnected: false,
                will,
            }),
            r.subs() == Seq::<Seq<char>>::empty(),
    {
        let r = Session {
            client_id,
            clean_session,
            keep_alive,
            subscriptions: Vec::new(),
            server_packet_id: 0,
            last_packet_at: now,
            server_disconnected: false,
            client_disconnected: false,
            will,
        };
        proof {
            assert(r.subs() =~= Seq::<Seq<char>>::empty());
        }
        r
    }

    pub fn client_id(&self) -> (r: &String)
        ensures
            r == &self.client_id,
    {
        &self.client_id
    }

    pub fn clean_session(&self) -> (r: bool)
        ensures
            r == self.clean_session,
    {
        self.clean_session
    }

    pub fn keep_alive(&self) -> (r: u16)
        ensures
            r == self.keep_alive,
    {
        self.keep_alive
    }

    pub fn server_packet_id(&self) -> (r: u16)
        ensures
            r == self.server_packet_id,
    {
        self.server_packet_id
    }

    pub fn last_packet_at(&self) -> (r: u64)
        ensures
            r == self.last_packet_at,
    {
        self.last_packet_at
    }

    pub fn subscriptions(&self) -> (r: &Vec<String>)
        ensures
            r == &self.subscriptions,
    {
        &self.subscriptions
    }

    pub fn disconnected(&self) -> (r: bool)
        ensures
            r == self.spec_disconnected(),
    {
        self.server_disconnected || self.client_disconnected
    }

    pub fn client_disconnected(&self) -> (r: bool)
        ensures
            r == self.client_disconnected,
    {
        self.client_disconnected
    }

    pub fn set_server_disconnected(&mut self)
        ensures
            *final(self) == (Session { server_disconnected: true, ..*old(self) }),
    {
        self.server_disconnected = true
    }

    pub fn set_client_disconnected(&mut self)
        ensures
            *final(self) == (Session { client_disconnected: true, ..*old(self) }),
    {
        self.client_disconnected = true
    }

    /// Record that a decoded inbound frame just arrived.
    pub fn renew_last_packet_at(&mut self, now: u64)
        ensures
            *final(self) == (Session { last_packet_at: now, ..*old(self) }),
    {
        self.last_packet_at = now
    }

    /// Surrender the will: what a graceful DISCONNECT clears and an
    /// ungraceful teardown publishes.
    pub fn take_will(&mut self) -> (r: Option<PublishMessage>)
        ensures
            *final(self) == (Session { will: None, ..*old(self) }),
            r == old(self).will,
    {
        self.will.take()
    }

    /// Hold the filter; a filter already held is left as it stands.
    pub fn subscribe(&mut self, topic_filter: String)
        requires
            old(self).wf(),
        ensures
            final(self).wf(),
            old(self).subs().contains(topic_filter@) ==> *final(self) == *old(self),
            !old(self).subs().contains(topic_filter@) ==> {
                &&& final(self).subs() == old(self).subs().push(topic_filter@)
                &&& *final(self) == (Session {
                    subscriptions: final(self).subscriptions,
                    ..*old(self)
                })
            },
    {
        let mut i: usize = 0;
        while i < self.subscriptions.len()
            invariant
                i <= self.subscriptions@.len(),
                old(self).wf(),
                *self == *old(self),
                forall|k: int| 0 <= k < i ==> self.subscriptions@[k]@ != topic_filter@,
            decreases self.subscriptions@.len() - i,
        {
            if self.subscriptions[i] == topic_filter {
                proof {
                    assert(self.subs()[i as int] == topic_filter@);
                    assert(self.wf());
                }
                return ;
            }
            i += 1;
        }
        proof {
            assert forall|k: int|
                0 <= k < self.subs().len() implies self.subs()[k] != topic_filter@ by {}
            if self.subs().contains(topic_filter@) {
                let k = choose|k: int|
                    0 <= k < self.subs().len() && self.subs()[k] == topic_filter@;
            }
        }
        let ghost pre = self.subscriptions.deep_view();
        self.subscriptions.push(topic_filter);
        proof {
            assert(self.subs() =~= pre.push(topic_filter@));
        }
    }

    /// Drop the filter; returns whether it was held.
    pub fn unsubscribe(&mut self, topic_filter: &String) -> (found: bool)
        requires
            old(self).wf(),
        ensures
            final(self).wf(),
            found == old(self).subs().contains(topic_filter@),
            *final(self) == (Session { subscriptions: final(self).subscriptions, ..*old(self) }),
            forall|x: Seq<char>|
                final(self).subs().contains(x) == (old(self).subs().contains(x) && x
                    != topic_filter@),
    {
        let ghost pre = self.subscriptions.deep_view();
        let mut i: usize = 0;
        while i < self.subscriptions.len()
            invariant
                i <= self.subscriptions@.len(),
                old(self).wf(),
                *self == *old(self),
                pre == self.subscriptions.deep_view(),
                forall|k: int| 0 <= k < i ==> self.subscriptions@[k]@ != topic_filter@,
            decreases self.subscriptions@.len() - i,
        {
            if self.subscriptions[i] == *topic_filter {
                proof {
                    assert(pre[i as int] == topic_filter@);
                }
                self.subscriptions.remove(i);
                proof {
                    assert(self.subs() =~= pre.remove(i as int));
                    assert forall|x: Seq<char>|
                        self.subs().contains(x) == (pre.contains(x) && x != topic_filter@) by {
                        if self.subs().contains(x) {
                            let k = choose|k: int|
                                0 <= k < self.subs().len() && self.subs()[k] == x;
                            let pk: int = if k < i { k } else { k + 1 };
                            assert(pre[pk] == x);
                            assert(pk != i);
                        }
                        if pre.contains(x) && x != topic_filter@ {
                            let k = choose|k: int| 0 <= k < pre.len() && pre[k] == x;
                            let nk: int = if k < i { k } else { k - 1 };
                            assert(self.subs()[nk] == x);
                        }
                    }
                    assert forall|a: int, b: int|
                        0 <= a < b < self.subscriptions@.len() implies self.subscriptions@[a]@
                        != self.subscriptions@[b]@ by {
                        let pa: int = if a < i { a } else { a + 1 };
                        let pb: int = if b < i { b } else { b + 1 };
                        assert(old(self).subscriptions@[pa]@ != old(self).subscriptions@[pb]@);
                    }
                }
                return true;
            }
            i += 1;
        }
        proof {
            if pre.contains(topic_filter@) {
                let k = choose|k: int| 0 <= k < pre.len() && pre[k] == topic_filter@;
            }
            assert forall|x: Seq<char>|
                self.subs().contains(x) == (pre.contains(x) && x != topic_filter@) by {
                if pre.contains(x) && x == topic_filter@ {
                    let k = choose|k: int| 0 <= k < pre.len() && pre[k] == x;
                }
            }
        }
        false
    }

    /// Allocate the next outgoing packet id: the first id after the
    /// counter, in wrapping order within 1..=65535 (id 0 is reserved),
    /// that is not still inflight; every id skipped over is inflight.
    /// `None` exactly when every id is inflight.
    pub fn incr_server_packet_id(&mut self, inflight: &Vec<u16>) -> (r: Option<u16>)
        ensures
            (match r {
                Some(id) => {
                    &&& 1 <= id
                    &&& !inflight@.contains(id)
                    &&& *final(self) == (Session { server_packet_id: id, ..*old(self) })
                    &&& (id > old(self).server_packet_id ==> forall|c: u16|
                        old(self).server_packet_id < c < id ==> inflight@.contains(c))
                    &&& (id <= old(self).server_packet_id ==> (forall|c: u16|
                        old(self).server_packet_id < c ==> inflight@.contains(c)) && (forall|
                        c: u16,
                    | 1 <= c < id ==> inflight@.contains(c)))
                },
                None => {
                    &&& *final(self) == *old(self)
                    &&& forall|id: u16| 1 <= id ==> inflight@.contains(id)
                },
            }),
    {
        let start = self.server_packet_id;
        let mut c = start;
        while c < 65535
            invariant
                start == old(self).server_packet_id,
                start <= c <= 65535,
                *self == *old(self),
                forall|id: u16| start < id <= c ==> inflight@.contains(id),
            decreases 65535 - c,
        {
            let cand = c + 1;
            if !Self::contains_id(inflight, cand) {
                self.server_packet_id = cand;
                return Some(cand);
            }
            c = cand;
        }
        let mut c2: u16 = 0;
        while c2 < start
            invariant
                start == old(self).server_packet_id,
                c2 <= start,
                *self == *old(self),
                forall|id: u16| start < id <= 65535 ==> inflight@.contains(id),
                forall|id: u16| 0 < id <= c2 ==> inflight@.contains(id),
            decreases start - c2,
        {
            let cand = c2 + 1;
            if !Self::contains_id(inflight, cand) {
                self.server_packet_id = cand;
                return Some(cand);
            }
            c2 = cand;
        }
        None
    }

    /// Whether the id is among the inflight ones.
    fn contains_id(v: &Vec<u16>, x: u16) -> (r: bool)
        ensures
            r == v@.contains(x),
    {
        let mut i: usize = 0;
        while i < v.len()
            invariant
                i <= v@.len(),
                forall|k: int| 0 <= k < i ==> v@[k] != x,
            decreases v@.len() - i,
        {
            if v[i] == x {
                return true;
            }
            i += 1;
        }
        false
    }
}

/// A session with no inbound traffic for more than one and a half
/// keep-alive periods is expired; a keep-alive of zero disables the
/// check.
pub open spec fn spec_keep_alive_expired(keep_alive: u16, last_packet_at: u64, now: u64) -> bool {
    keep_alive > 0 && 2 * (now - last_packet_at) > 3 * keep_alive
}

/// The keep-alive watchdog's decision on a tick.
pub fn keep_alive_expired(keep_alive: u16, last_packet_at: u64, now: u64) -> (r: bool)
    requires
        last_packet_at <= now,
    ensures
        r == spec_keep_alive_expired(keep_alive, last_packet_at, now),
{
    if keep_alive == 0 {
        false
    } else {
        let diff = now - last_packet_at;
        let threshold = 3 * (keep_alive as u64) / 2;
        proof {
            assert((diff > threshold) == (2 * (now - last_packet_at) > 3 * keep_alive))
                by (nonlinear_arith)
                requires
                    diff == now - last_packet_at,
                    threshold == 3 * (keep_alive as u64) / 2,
                    last_packet_at <= now,
            ;
        }
        diff > threshold
    }
}

} // verus!

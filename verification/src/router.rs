use vstd::map::*;
use vstd::prelude::*;

use crate::alist::{
    kv_find, kv_map, kv_unique, lemma_kv_contains, lemma_kv_index, lemma_kv_push, lemma_kv_update,
};
use crate::qos::QualityOfService;
use crate::topic::spec_topic_matches;

verus! {

/// How a subscription was granted. MQTT v3.1.1 grants a plain
/// quality-of-service level.
#[derive(Clone, Copy, Debug, PartialEq, Eq, Structural)]
pub enum RouteOptions {
    V4(QualityOfService),
}

impl View for RouteOptions {
    type V = RouteOptions;

    open spec fn view(&self) -> RouteOptions {
        *self
    }
}

impl DeepView for RouteOptions {
    type V = RouteOptions;

    open spec fn deep_view(&self) -> RouteOptions {
        *self
    }
}

/// Mathematical value of a [`RouteContent`]: the filter and its
/// subscribers in subscription order, each client at most once.
pub ghost struct SpecRouteContent {
    pub topic_filter: Seq<char>,
    pub clients: Seq<(Seq<char>, RouteOptions)>,
}

/// One route entry: a topic filter and the clients subscribed to it.
/// MQTT v3.1.1 has no shared subscriptions, so there is no shared
/// bucket.
#[derive(Debug)]
pub struct RouteContent {
    pub topic_filter: String,
    pub clients: Vec<(String, RouteOptions)>,
}

impl View for RouteContent {
    type V = SpecRouteContent;

    open spec fn view(&self) -> SpecRouteContent {
        SpecRouteContent { topic_filter: self.topic_filter@, clients: self.clients.deep_view() }
    }
}

impl DeepView for RouteContent {
    type V = SpecRouteContent;

    open spec fn deep_view(&self) -> SpecRouteContent {
        self.view()
    }
}

/// Index of the client's entry in a subscriber list, or -1.
pub open spec fn first_client(cs: Seq<(Seq<char>, RouteOptions)>, cid: Seq<char>) -> int
    decreases cs.len(),
{
    if cs.len() == 0 {
        -1
    } else if cs[0].0 == cid {
        0
    } else if first_client(cs.skip(1), cid) == -1 {
        -1
    } else {
        first_client(cs.skip(1), cid) + 1
    }
}

/// A scan that saw no entry for the client before `j`, and one at `j`
/// unless it ran off the end, has found `first_client`.
pub proof fn lemma_first_client(cs: Seq<(Seq<char>, RouteOptions)>, cid: Seq<char>, j: int)
    requires
        0 <= j <= cs.len(),
        forall|i: int| 0 <= i < j ==> cs[i].0 != cid,
        j < cs.len() ==> cs[j].0 == cid,
    ensures
        j < cs.len() ==> first_client(cs, cid) == j,
        j == cs.len() ==> first_client(cs, cid) == -1,
    decreases cs.len(),
{
    if cs.len() > 0 {
        if cs[0].0 == cid {
            assert(j == 0);
        } else {
            let t = cs.skip(1);
            assert forall|i: int| 0 <= i < j - 1 implies t[i].0 != cid by {
                assert(t[i] == cs[i + 1]);
            }
            assert(j - 1 < t.len() ==> t[j - 1].0 == cid) by {
                if j - 1 < t.len() {
                    assert(t[j - 1] == cs[j]);
                }
            }
            lemma_first_client(t, cid, j - 1);
        }
    }
}

/// The subscriber list after a subscribe: an existing entry for the
/// client has its options replaced in place; a new client is appended.
pub open spec fn spec_subscribe_clients(
    cs: Seq<(Seq<char>, RouteOptions)>,
    cid: Seq<char>,
    options: RouteOptions,
) -> Seq<(Seq<char>, RouteOptions)> {
    let f = first_client(cs, cid);
    if f < 0 {
        cs.push((cid, options))
    } else {
        cs.update(f, (cid, options))
    }
}

/// The subscriber list after an unsubscribe: the client's entry, if
/// any, is removed.
pub open spec fn spec_unsubscribe_clients(
    cs: Seq<(Seq<char>, RouteOptions)>,
    cid: Seq<char>,
) -> Seq<(Seq<char>, RouteOptions)> {
    let f = first_client(cs, cid);
    if f < 0 {
        cs
    } else {
        cs.remove(f)
    }
}

/// After an unsubscribe the client is gone, so unsubscribing again
/// changes nothing.
pub proof fn lemma_unsubscribe_clients_absent(cs: Seq<(Seq<char>, RouteOptions)>, cid: Seq<char>)
    requires
        forall|i: int, j: int| 0 <= i < j < cs.len() ==> cs[i].0 != cs[j].0,
    ensures
        first_client(spec_unsubscribe_clients(cs, cid), cid) == -1,
        spec_unsubscribe_clients(spec_unsubscribe_clients(cs, cid), cid)
            == spec_unsubscribe_clients(cs, cid),
{
    let f = first_client(cs, cid);
    if f >= 0 {
        lemma_first_client_found(cs, cid);
        let t = cs.remove(f);
        assert forall|i: int| 0 <= i < t.len() implies t[i].0 != cid by {
            let pi: int = if i < f { i } else { i + 1 };
            assert(t[i] == cs[pi]);
            if pi != f && cs[pi].0 == cid {
                assert(cs[pi].0 == cs[f].0);
            }
        }
        lemma_first_client(t, cid, t.len() as int);
    } else {
        lemma_first_client_found(cs, cid);
        lemma_first_client(cs, cid, cs.len() as int);
    }
}

/// What a found or failed client search means.
pub proof fn lemma_first_client_found(cs: Seq<(Seq<char>, RouteOptions)>, cid: Seq<char>)
    ensures
        first_client(cs, cid) >= 0 ==> {
            &&& 0 <= first_client(cs, cid) < cs.len()
            &&& cs[first_client(cs, cid)].0 == cid
            &&& forall|i: int| 0 <= i < first_client(cs, cid) ==> cs[i].0 != cid
        },
        first_client(cs, cid) == -1 ==> forall|i: int| 0 <= i < cs.len() ==> cs[i].0 != cid,
        first_client(cs, cid) >= 0 || first_client(cs, cid) == -1,
    decreases cs.len(),
{
    if cs.len() > 0 && cs[0].0 != cid {
        let t = cs.skip(1);
        lemma_first_client_found(t, cid);
        assert forall|i: int| 0 <= i < t.len() implies t[i] == cs[i + 1] by {}
        if first_client(t, cid) >= 0 {
            assert forall|i: int| 0 <= i < first_client(cs, cid) implies cs[i].0 != cid by {
                if i > 0 {
                    assert(t[i - 1] == cs[i]);
                }
            }
        } else {
            assert forall|i: int| 0 <= i < cs.len() implies cs[i].0 != cid by {
                if i > 0 {
                    assert(t[i - 1] == cs[i]);
                }
            }
        }
    }
}

/// After a subscribe the client is always present in the subscriber
/// list.
pub proof fn lemma_subscribe_clients_present(
    cs: Seq<(Seq<char>, RouteOptions)>,
    cid: Seq<char>,
    options: RouteOptions,
)
    ensures
        first_client(spec_subscribe_clients(cs, cid, options), cid) >= 0,
{
    lemma_first_client_found(cs, cid);
    let f = first_client(cs, cid);
    if f < 0 {
        let t = cs.push((cid, options));
        assert forall|i: int| 0 <= i < cs.len() implies t[i].0 != cid by {
            assert(t[i] == cs[i]);
        }
        assert(t[cs.len() as int].0 == cid);
        lemma_first_client(t, cid, cs.len() as int);
    } else {
        let t = cs.update(f, (cid, options));
        assert forall|i: int| 0 <= i < f implies t[i].0 != cid by {
            assert(t[i] == cs[i]);
        }
        lemma_first_client(t, cid, f);
    }
}

/// Every subscriber owed a publish on topic `t`: the subscribers of
/// each entry whose filter matches `t`, in table order then
/// subscription order. A client subscribed under several matching
/// filters appears once per filter.
pub open spec fn spec_route_targets(rs: Seq<SpecRouteContent>, t: Seq<char>) -> Seq<
    (Seq<char>, RouteOptions),
>
    decreases rs.len(),
{
    if rs.len() == 0 {
        Seq::empty()
    } else {
        let rest = spec_route_targets(rs.drop_last(), t);
        if spec_topic_matches(rs.last().topic_filter, t) {
            rest + rs.last().clients
        } else {
            rest
        }
    }
}

/// Index of the entry for filter `f` in a contents sequence, or -1.
pub open spec fn first_filter_idx(s: Seq<SpecRouteContent>, f: Seq<char>) -> int
    decreases s.len(),
{
    if s.len() == 0 {
        -1
    } else if s[0].topic_filter == f {
        0
    } else if first_filter_idx(s.skip(1), f) == -1 {
        -1
    } else {
        first_filter_idx(s.skip(1), f) + 1
    }
}

/// A scan that saw no entry for the filter before `j`, and one at `j`
/// unless it ran off the end, has found `first_filter_idx`.
pub proof fn lemma_first_filter_idx(s: Seq<SpecRouteContent>, f: Seq<char>, j: int)
    requires
        0 <= j <= s.len(),
        forall|i: int| 0 <= i < j ==> s[i].topic_filter != f,
        j < s.len() ==> s[j].topic_filter == f,
    ensures
        j < s.len() ==> first_filter_idx(s, f) == j,
        j == s.len() ==> first_filter_idx(s, f) == -1,
    decreases s.len(),
{
    if s.len() > 0 {
        if s[0].topic_filter == f {
            assert(j == 0);
        } else {
            let r = s.skip(1);
            assert forall|i: int| 0 <= i < j - 1 implies r[i].topic_filter != f by {
                assert(r[i] == s[i + 1]);
            }
            assert(j - 1 < r.len() ==> r[j - 1].topic_filter == f) by {
                if j - 1 < r.len() {
                    assert(r[j - 1] == s[j]);
                }
            }
            lemma_first_filter_idx(r, f, j - 1);
        }
    }
}

/// A well-formed table's entry lists each client at most once, seen at
/// the view level.
pub proof fn lemma_map_clients_unique(rt: RouteTable, f: Seq<char>)
    requires
        rt.wf(),
        rt.map().contains_key(f),
    ensures
        forall|i: int, j: int|
            0 <= i < j < rt.map()[f].clients.len() ==> rt.map()[f].clients[i].0 != rt.map()[
                f
            ].clients[j].0,
{
    lemma_kv_contains(rt.entries@, f);
    let k = choose|k: int| 0 <= k < rt.entries@.len() && rt.entries@[k].0@ == f;
    lemma_kv_index(rt.entries@, k);
    assert forall|i: int, j: int|
        0 <= i < j < rt.map()[f].clients.len() implies rt.map()[f].clients[i].0 != rt.map()[
        f
    ].clients[j].0 by {
        assert(rt.entries@[k].1.clients@[i].0@ != rt.entries@[k].1.clients@[j].0@);
    }
}

/// Broker-wide subscription routing: one entry per topic filter, each
/// mapping subscribed clients to their granted options.
pub struct RouteTable {
    pub entries: Vec<(String, RouteContent)>,
}

impl RouteTable {
    /// Filters are keyed at most once, each under its own text, and no
    /// entry lists a client twice.
    pub open spec fn wf(self) -> bool {
        &&& kv_unique(self.entries@)
        &&& forall|i: int|
            0 <= i < self.entries@.len() ==> (#[trigger] self.entries@[i]).1.topic_filter@
                == self.entries@[i].0@
        &&& forall|i: int|
            0 <= i < self.entries@.len() ==> kv_unique((#[trigger] self.entries@[i]).1.clients@)
    }

    /// The route entry per topic filter.
    pub open spec fn map(self) -> Map<Seq<char>, SpecRouteContent> {
        kv_map(self.entries@)
    }

    /// The route entries in table order.
    pub open spec fn contents(self) -> Seq<SpecRouteContent> {
        self.entries@.map_values(|p: (String, RouteContent)| p.1.deep_view())
    }

    /// The subscribers of the filter, empty when nobody subscribed.
    pub open spec fn clients_of(self, f: Seq<char>) -> Seq<(Seq<char>, RouteOptions)> {
        if self.map().contains_key(f) {
            self.map()[f].clients
        } else {
            Seq::empty()
        }
    }

    pub fn new() -> (r: RouteTable)
        ensures
            r.wf(),
            r.map() == Map::<Seq<char>, SpecRouteContent>::empty(),
            r.contents() == Seq::<SpecRouteContent>::empty(),
    {
        let r = RouteTable { entries: Vec::new() };
        proof {
            assert(r.contents() =~= Seq::<SpecRouteContent>::empty());
        }
        r
    }

    /// Record the client's subscription under the filter with the
    /// granted options; returns whether the client was not subscribed
    /// to this filter before.
    pub fn subscribe(
        &mut self,
        client_id: &String,
        topic_filter: &String,
        options: RouteOptions,
    ) -> (fresh: bool)
        requires
            old(self).wf(),
        ensures
            final(self).wf(),
            fresh == (first_client(old(self).clients_of(topic_filter@), client_id@) < 0),
            final(self).map() == old(self).map().insert(
                topic_filter@,
                SpecRouteContent {
                    topic_filter: topic_filter@,
                    clients: spec_subscribe_clients(
                        old(self).clients_of(topic_filter@),
                        client_id@,
                        options,
                    ),
                },
            ),
            final(self).contents() == (if first_filter_idx(old(self).contents(), topic_filter@)
                < 0 {
                old(self).contents().push(
                    SpecRouteContent {
                        topic_filter: topic_filter@,
                        clients: spec_subscribe_clients(
                            old(self).clients_of(topic_filter@),
                            client_id@,
                            options,
                        ),
                    },
                )
            } else {
                old(self).contents().update(
                    first_filter_idx(old(self).contents(), topic_filter@),
                    SpecRouteContent {
                        topic_filter: topic_filter@,
                        clients: spec_subscribe_clients(
                            old(self).clients_of(topic_filter@),
                            client_id@,
                            options,
                        ),
                    },
                )
            }),
    {
        let ghost rs = self.contents();
        let r = kv_find(&self.entries, topic_filter);
        match r {
            None => {
                proof {
                    lemma_kv_contains(self.entries@, topic_filter@);
                    lemma_first_client(self.clients_of(topic_filter@), client_id@, 0);
                    assert forall|k: int| 0 <= k < rs.len() implies rs[k].topic_filter
                        != topic_filter@ by {
                        assert(self.entries@[k].0@ != topic_filter@);
                    }
                    lemma_first_filter_idx(rs, topic_filter@, rs.len() as int);
                }
                let ghost pre = self.entries@;
                let mut clients: Vec<(String, RouteOptions)> = Vec::new();
                clients.push((client_id.clone(), options));
                let content = RouteContent { topic_filter: topic_filter.clone(), clients };
                self.entries.push((topic_filter.clone(), content));
                proof {
                    lemma_kv_push(pre, self.entries@.last());
                    assert(self.entries@.last().1.deep_view().clients =~= Seq::<
                        (Seq<char>, RouteOptions),
                    >::empty().push((client_id@, options)));
                    assert(self.contents() =~= rs.push(self.entries@.last().1.deep_view()));
                }
                true
            },
            Some(i) => {
                proof {
                    lemma_kv_contains(self.entries@, topic_filter@);
                    lemma_kv_index(self.entries@, i as int);
                    assert forall|k: int| 0 <= k < i implies rs[k].topic_filter
                        != topic_filter@ by {
                        assert(self.entries@[k].0@ != topic_filter@);
                    }
                    assert(rs[i as int].topic_filter == topic_filter@);
                    lemma_first_filter_idx(rs, topic_filter@, i as int);
                }
                let ghost pre = self.entries@;
                let ghost cs = self.clients_of(topic_filter@);
                let cr = kv_find(&self.entries[i].1.clients, client_id);
                match cr {
                    None => {
                        proof {
                            lemma_first_client(cs, client_id@, cs.len() as int);
                        }
                        self.entries[i].1.clients.push((client_id.clone(), options));
                        proof {
                            assert(self.entries@ =~= pre.update(
                                i as int,
                                self.entries@[i as int],
                            ));
                            lemma_kv_update(pre, i as int, self.entries@[i as int]);
                            assert(self.entries@[i as int].1.deep_view().clients =~= cs.push(
                                (client_id@, options),
                            ));
                            assert(forall|k: int|
                                0 <= k < pre[i as int].1.clients@.len() ==> pre[i as int].1.clients@[
                                    k
                                ].0@ != client_id@);
                            assert(self.contents() =~= rs.update(
                                i as int,
                                self.entries@[i as int].1.deep_view(),
                            ));
                        }
                        true
                    },
                    Some(j) => {
                        proof {
                            assert forall|k: int| 0 <= k < j implies cs[k].0 != client_id@ by {
                                assert(pre[i as int].1.clients@[k].0@ != client_id@);
                            }
                            assert(cs[j as int].0 == client_id@);
                            lemma_first_client(cs, client_id@, j as int);
                        }
                        self.entries[i].1.clients[j].1 = options;
                        self.entries[i].1.clients[j].0 = client_id.clone();
                        proof {
                            assert(self.entries@ =~= pre.update(
                                i as int,
                                self.entries@[i as int],
                            ));
                            lemma_kv_update(pre, i as int, self.entries@[i as int]);
                            assert(self.entries@[i as int].1.deep_view().clients =~= cs.update(
                                j as int,
                                (client_id@, options),
                            ));
                            assert(self.contents() =~= rs.update(
                                i as int,
                                self.entries@[i as int].1.deep_view(),
                            ));
                        }
                        false
                    },
                }
            },
        }
    }

    /// Remove the client's subscription under the filter; returns
    /// whether one was there. An entry left with no subscribers stays
    /// in the table.
    pub fn unsubscribe(&mut self, client_id: &String, topic_filter: &String) -> (found: bool)
        requires
            old(self).wf(),
        ensures
            final(self).wf(),
            found == (first_client(old(self).clients_of(topic_filter@), client_id@) >= 0),
            old(self).map().contains_key(topic_filter@) ==> final(self).map() == old(
                self,
            ).map().insert(
                topic_filter@,
                SpecRouteContent {
                    topic_filter: old(self).map()[topic_filter@].topic_filter,
                    clients: spec_unsubscribe_clients(
                        old(self).clients_of(topic_filter@),
                        client_id@,
                    ),
                },
            ),
            !old(self).map().contains_key(topic_filter@) ==> final(self).map() == old(self).map(),
            old(self).map().contains_key(topic_filter@) ==> final(self).contents() == old(
                self,
            ).contents().update(
                first_filter_idx(old(self).contents(), topic_filter@),
                SpecRouteContent {
                    topic_filter: old(self).map()[topic_filter@].topic_filter,
                    clients: spec_unsubscribe_clients(
                        old(self).clients_of(topic_filter@),
                        client_id@,
                    ),
                },
            ),
            !old(self).map().contains_key(topic_filter@) ==> final(self).contents() == old(
                self,
            ).contents(),
    {
        let ghost rs = self.contents();
        let r = kv_find(&self.entries, topic_filter);
        match r {
            None => {
                proof {
                    lemma_kv_contains(self.entries@, topic_filter@);
                    lemma_first_client(self.clients_of(topic_filter@), client_id@, 0);
                }
                false
            },
            Some(i) => {
                proof {
                    lemma_kv_contains(self.entries@, topic_filter@);
                    lemma_kv_index(self.entries@, i as int);
                    assert forall|k: int| 0 <= k < i implies rs[k].topic_filter
                        != topic_filter@ by {
                        assert(self.entries@[k].0@ != topic_filter@);
                    }
                    assert(rs[i as int].topic_filter == topic_filter@);
                    lemma_first_filter_idx(rs, topic_filter@, i as int);
                }
                let ghost pre = self.entries@;
                let ghost cs = self.clients_of(topic_filter@);
                let cr = kv_find(&self.entries[i].1.clients, client_id);
                match cr {
                    None => {
                        proof {
                            lemma_first_client(cs, client_id@, cs.len() as int);
                            assert(self.map() =~= self.map().insert(
                                topic_filter@,
                                SpecRouteContent {
                                    topic_filter: self.map()[topic_filter@].topic_filter,
                                    clients: cs,
                                },
                            ));
                            assert(self.contents() =~= rs.update(i as int, rs[i as int]));
                        }
                        false
                    },
                    Some(j) => {
                        proof {
                            assert forall|k: int| 0 <= k < j implies cs[k].0 != client_id@ by {
                                assert(pre[i as int].1.clients@[k].0@ != client_id@);
                            }
                            assert(cs[j as int].0 == client_id@);
                            lemma_first_client(cs, client_id@, j as int);
                        }
                        self.entries[i].1.clients.remove(j);
                        proof {
                            assert(self.entries@ =~= pre.update(
                                i as int,
                                self.entries@[i as int],
                            ));
                            lemma_kv_update(pre, i as int, self.entries@[i as int]);
                            assert(self.entries@[i as int].1.deep_view().clients =~= cs.remove(
                                j as int,
                            ));
                            assert forall|x: int, y: int|
                                0 <= x < y < self.entries@[i as int].1.clients@.len() implies self.entries@[
                                i as int].1.clients@[x].0@ != self.entries@[i as int].1.clients@[
                                y].0@ by {
                                let px: int = if x < j { x } else { x + 1 };
                                let py: int = if y < j { y } else { y + 1 };
                                assert(pre[i as int].1.clients@[px].0@ != pre[
                                i as int].1.clients@[py].0@);
                            }
                            assert(self.contents() =~= rs.update(
                                i as int,
                                self.entries@[i as int].1.deep_view(),
                            ));
                        }
                        true
                    },
                }
            },
        }
    }

    /// Remove the client from every route entry: what a clean teardown
    /// or a takeover does for its subscriptions.
    pub fn remove_client(&mut self, client_id: &String)
        requires
            old(self).wf(),
        ensures
            final(self).wf(),
            final(self).map().dom() == old(self).map().dom(),
            forall|f: Seq<char>|
                old(self).map().contains_key(f) ==> final(self).map()[f]
                    == (SpecRouteContent {
                    topic_filter: old(self).map()[f].topic_filter,
                    clients: spec_unsubscribe_clients(old(self).map()[f].clients, client_id@),
                }),
            final(self).contents().len() == old(self).contents().len(),
            forall|k: int|
                0 <= k < old(self).contents().len() ==> #[trigger] final(self).contents()[k]
                    == (SpecRouteContent {
                    topic_filter: old(self).contents()[k].topic_filter,
                    clients: spec_unsubscribe_clients(
                        old(self).contents()[k].clients,
                        client_id@,
                    ),
                }),
    {
        let ghost pre = self.entries@;
        let mut i: usize = 0;
        while i < self.entries.len()
            invariant
                i <= self.entries@.len(),
                self.entries@.len() == pre.len(),
                old(self).wf(),
                pre == old(self).entries@,
                self.wf(),
                forall|k: int|
                    0 <= k < pre.len() ==> (#[trigger] self.entries@[k]).0 == pre[k].0,
                forall|k: int|
                    0 <= k < pre.len() ==> (#[trigger] self.entries@[k]).1.topic_filter == pre[
                        k
                    ].1.topic_filter,
                forall|k: int|
                    i <= k < pre.len() ==> (#[trigger] self.entries@[k]).1.clients == pre[
                        k
                    ].1.clients,
                forall|k: int|
                    0 <= k < i ==> (#[trigger] self.entries@[k]).1.clients.deep_view()
                        == spec_unsubscribe_clients(pre[k].1.clients.deep_view(), client_id@),
            decreases self.entries@.len() - i,
        {
            let ghost ecur = self.entries@;
            let ghost cs = self.entries@[i as int].1.clients.deep_view();
            let cr = kv_find(&self.entries[i].1.clients, client_id);
            match cr {
                None => {
                    proof {
                        lemma_first_client(cs, client_id@, cs.len() as int);
                    }
                },
                Some(j) => {
                    proof {
                        assert forall|k: int| 0 <= k < j implies cs[k].0 != client_id@ by {
                            assert(ecur[i as int].1.clients@[k].0@ != client_id@);
                        }
                        assert(cs[j as int].0 == client_id@);
                        lemma_first_client(cs, client_id@, j as int);
                    }
                    self.entries[i].1.clients.remove(j);
                    proof {
                        assert(self.entries@[i as int].1.clients.deep_view() =~= cs.remove(
                            j as int,
                        ));
                        assert forall|x: int, y: int|
                            0 <= x < y < self.entries@[i as int].1.clients@.len() implies self.entries@[
                            i as int].1.clients@[x].0@ != self.entries@[i as int].1.clients@[
                            y].0@ by {
                            let px: int = if x < j { x } else { x + 1 };
                            let py: int = if y < j { y } else { y + 1 };
                            assert(ecur[i as int].1.clients@[px].0@ != ecur[
                            i as int].1.clients@[py].0@);
                        }
                        assert forall|k: int|
                            0 <= k < pre.len() implies (#[trigger] self.entries@[k]).0 == pre[
                            k].0 by {
                            assert(ecur[k].0 == pre[k].0);
                        }
                    }
                },
            }
            i += 1;
        }
        proof {
            self.lemma_remove_client_end(*old(self), client_id@);
        }
    }

    /// With keys unchanged and every subscriber list rewritten, the two
    /// maps relate pointwise.
    proof fn lemma_remove_client_end(self, pre: RouteTable, cid: Seq<char>)
        requires
            pre.wf(),
            self.wf(),
            self.entries@.len() == pre.entries@.len(),
            forall|k: int|
                0 <= k < pre.entries@.len() ==> (#[trigger] self.entries@[k]).0 == pre.entries@[
                    k
                ].0,
            forall|k: int|
                0 <= k < pre.entries@.len() ==> (#[trigger] self.entries@[k]).1.topic_filter
                    == pre.entries@[k].1.topic_filter,
            forall|k: int|
                0 <= k < pre.entries@.len() ==> (#[trigger] self.entries@[k]).1.clients.deep_view()
                    == spec_unsubscribe_clients(pre.entries@[k].1.clients.deep_view(), cid),
        ensures
            self.map().dom() == pre.map().dom(),
            forall|f: Seq<char>|
                pre.map().contains_key(f) ==> self.map()[f]
                    == (SpecRouteContent {
                    topic_filter: pre.map()[f].topic_filter,
                    clients: spec_unsubscribe_clients(pre.map()[f].clients, cid),
                }),
    {
        assert forall|f: Seq<char>|
            self.map().contains_key(f) == pre.map().contains_key(f) by {
            lemma_kv_contains(self.entries@, f);
            lemma_kv_contains(pre.entries@, f);
            if self.map().contains_key(f) {
                let k = choose|k: int|
                    0 <= k < self.entries@.len() && self.entries@[k].0@ == f;
                assert(pre.entries@[k].0@ == f);
            }
            if pre.map().contains_key(f) {
                let k = choose|k: int|
                    0 <= k < pre.entries@.len() && pre.entries@[k].0@ == f;
                assert(self.entries@[k].0@ == f);
            }
        }
        assert(self.map().dom() =~= pre.map().dom());
        assert forall|f: Seq<char>| pre.map().contains_key(f) implies self.map()[f]
            == (SpecRouteContent {
            topic_filter: pre.map()[f].topic_filter,
            clients: spec_unsubscribe_clients(pre.map()[f].clients, cid),
        }) by {
            lemma_kv_contains(pre.entries@, f);
            let k = choose|k: int| 0 <= k < pre.entries@.len() && pre.entries@[k].0@ == f;
            lemma_kv_index(pre.entries@, k);
            lemma_kv_index(self.entries@, k);
        }
    }

    /// Every subscriber owed a publish on the topic, with its granted
    /// options, across all matching filters in table order.
    pub fn get_matches(&self, topic_name: &str) -> (r: Vec<(String, RouteOptions)>)
        requires
            self.wf(),
        ensures
            r.deep_view() == spec_route_targets(self.contents(), topic_name@),
    {
        let ghost s = self.contents();
        let mut out: Vec<(String, RouteOptions)> = Vec::new();
        let mut i: usize = 0;
        proof {
            assert(out.deep_view() =~= spec_route_targets(s.subrange(0, 0), topic_name@));
        }
        while i < self.entries.len()
            invariant
                i <= self.entries@.len(),
                s == self.contents(),
                self.wf(),
                out.deep_view() == spec_route_targets(s.subrange(0, i as int), topic_name@),
            decreases self.entries@.len() - i,
        {
            proof {
                assert(s.subrange(0, i + 1).drop_last() =~= s.subrange(0, i as int));
                assert(s.subrange(0, i + 1).last() == s[i as int]);
            }
            if crate::topic::topic_matches(
                self.entries[i].1.topic_filter.as_str(),
                topic_name,
            ) {
                let ghost out0 = out.deep_view();
                let ghost cs = s[i as int].clients;
                let n = self.entries[i].1.clients.len();
                let mut j: usize = 0;
                proof {
                    assert(out.deep_view() =~= out0 + cs.subrange(0, 0));
                }
                while j < n
                    invariant
                        j <= n,
                        i < self.entries@.len(),
                        s == self.contents(),
                        self.wf(),
                        cs == s[i as int].clients,
                        n == self.entries@[i as int].1.clients@.len(),
                        out.deep_view() == out0 + cs.subrange(0, j as int),
                    decreases n - j,
                {
                    let pair = &self.entries[i].1.clients[j];
                    out.push((pair.0.clone(), pair.1));
                    proof {
                        assert(cs.subrange(0, j + 1) =~= cs.subrange(0, j as int).push(
                            cs[j as int],
                        ));
                        assert(cs[j as int] == self.entries@[i as int].1.clients@[
                            j as int
                        ].deep_view());
                        assert(out.deep_view() =~= (out0 + cs.subrange(0, j as int)).push(
                            cs[j as int],
                        ));
                        assert(out.deep_view() =~= out0 + cs.subrange(0, j + 1));
                    }
                    j += 1;
                }
                proof {
                    assert(cs.subrange(0, cs.len() as int) =~= cs);
                    assert(out.deep_view() =~= out0 + cs);
                }
            }
            i += 1;
        }
        proof {
            assert(s.subrange(0, s.len() as int) =~= s);
        }
        out
    }
}

} // verus!

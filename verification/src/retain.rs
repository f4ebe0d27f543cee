use vstd::map::*;
use vstd::prelude::*;

use crate::alist::{
    kv_find, kv_map, kv_unique, lemma_kv_contains, lemma_kv_index, lemma_kv_push, lemma_kv_remove,
    lemma_kv_update,
};
use crate::qos::QualityOfService;
use crate::topic::spec_topic_matches;

verus! {

/// Mathematical value of a [`RetainContent`].
pub ghost struct SpecRetainContent {
    pub client_id: Seq<char>,
    pub topic_name: Seq<char>,
    pub payload: Seq<u8>,
    pub qos: QualityOfService,
}

/// A retained message: the last publish on a topic marked retain, kept
/// for future subscribers, together with the publisher's client id.
#[derive(Debug)]
pub struct RetainContent {
    pub client_id: String,
    pub topic_name: String,
    pub payload: Vec<u8>,
    pub qos: QualityOfService,
}

impl View for RetainContent {
    type V = SpecRetainContent;

    open spec fn view(&self) -> SpecRetainContent {
        SpecRetainContent {
            client_id: self.client_id@,
            topic_name: self.topic_name@,
            payload: self.payload@,
            qos: self.qos,
        }
    }
}

impl DeepView for RetainContent {
    type V = SpecRetainContent;

    open spec fn deep_view(&self) -> SpecRetainContent {
        self.view()
    }
}

impl Clone for RetainContent {
    fn clone(&self) -> (r: Self)
        ensures
            r@ == self@,
    {
        let payload = self.payload.clone();
        proof {
            assert(payload@ =~= self.payload@);
        }
        RetainContent {
            client_id: self.client_id.clone(),
            topic_name: self.topic_name.clone(),
            payload,
            qos: self.qos,
        }
    }
}

impl RetainContent {
    pub fn new(
        client_id: String,
        topic_name: String,
        payload: Vec<u8>,
        qos: QualityOfService,
    ) -> (r: RetainContent)
        ensures
            r.client_id == client_id,
            r.topic_name == topic_name,
            r.payload == payload,
            r.qos == qos,
    {
        RetainContent { client_id, topic_name, payload, qos }
    }
}

/// The retained messages a filter's new subscriber is owed: the table's
/// entries whose topic the filter matches, in table order.
pub open spec fn spec_retain_matches(
    s: Seq<SpecRetainContent>,
    f: Seq<char>,
) -> Seq<SpecRetainContent> {
    s.filter(|c: SpecRetainContent| spec_topic_matches(f, c.topic_name))
}

/// Index of the retained entry on topic `t` in a contents sequence,
/// or -1.
pub open spec fn first_topic_idx(s: Seq<SpecRetainContent>, t: Seq<char>) -> int
    decreases s.len(),
{
    if s.len() == 0 {
        -1
    } else if s[0].topic_name == t {
        0
    } else if first_topic_idx(s.skip(1), t) == -1 {
        -1
    } else {
        first_topic_idx(s.skip(1), t) + 1
    }
}

/// A scan that saw no entry on the topic before `j`, and one at `j`
/// unless it ran off the end, has found `first_topic_idx`.
pub proof fn lemma_first_topic_idx(s: Seq<SpecRetainContent>, t: Seq<char>, j: int)
    requires
        0 <= j <= s.len(),
        forall|i: int| 0 <= i < j ==> s[i].topic_name != t,
        j < s.len() ==> s[j].topic_name == t,
    ensures
        j < s.len() ==> first_topic_idx(s, t) == j,
        j == s.len() ==> first_topic_idx(s, t) == -1,
    decreases s.len(),
{
    if s.len() > 0 {
        if s[0].topic_name == t {
            assert(j == 0);
        } else {
            let r = s.skip(1);
            assert forall|i: int| 0 <= i < j - 1 implies r[i].topic_name != t by {
                assert(r[i] == s[i + 1]);
            }
            assert(j - 1 < r.len() ==> r[j - 1].topic_name == t) by {
                if j - 1 < r.len() {
                    assert(r[j - 1] == s[j]);
                }
            }
            lemma_first_topic_idx(r, t, j - 1);
        }
    }
}

/// Broker-wide retained-message storage, keyed by exact topic name.
/// Retained entries are independent of any subscription.
pub struct RetainTable {
    pub entries: Vec<(String, RetainContent)>,
}

impl RetainTable {
    /// Topics are keyed at most once, each under its own name.
    pub open spec fn wf(self) -> bool {
        &&& kv_unique(self.entries@)
        &&& forall|i: int|
            0 <= i < self.entries@.len() ==> (#[trigger] self.entries@[i]).1.topic_name@
                == self.entries@[i].0@
    }

    /// The retained message per topic name.
    pub open spec fn map(self) -> Map<Seq<char>, SpecRetainContent> {
        kv_map(self.entries@)
    }

    /// The retained messages in table order.
    pub open spec fn contents(self) -> Seq<SpecRetainContent> {
        self.entries@.map_values(|p: (String, RetainContent)| p.1.deep_view())
    }

    pub fn new() -> (r: RetainTable)
        ensures
            r.wf(),
            r.map() == Map::<Seq<char>, SpecRetainContent>::empty(),
            r.contents() == Seq::<SpecRetainContent>::empty(),
    {
        let r = RetainTable { entries: Vec::new() };
        proof {
            assert(r.contents() =~= Seq::<SpecRetainContent>::empty());
        }
        r
    }

    /// Store `content` under its topic, replacing and returning any
    /// previous retained message there.
    pub fn insert(&mut self, content: RetainContent) -> (prev: Option<RetainContent>)
        requires
            old(self).wf(),
        ensures
            final(self).wf(),
            final(self).map() == old(self).map().insert(content.topic_name@, content@),
            (prev is Some) == old(self).map().contains_key(content.topic_name@),
            (match prev {
                Some(p) => p@ == old(self).map()[content.topic_name@],
                None => true,
            }),
            final(self).contents() == (if first_topic_idx(
                old(self).contents(),
                content.topic_name@,
            ) < 0 {
                old(self).contents().push(content@)
            } else {
                old(self).contents().update(
                    first_topic_idx(old(self).contents(), content.topic_name@),
                    content@,
                )
            }),
    {
        let ghost cs = self.contents();
        let r = kv_find(&self.entries, &content.topic_name);
        match r {
            Some(i) => {
                proof {
                    lemma_kv_contains(self.entries@, content.topic_name@);
                    lemma_kv_index(self.entries@, i as int);
                    assert forall|k: int| 0 <= k < i implies cs[k].topic_name
                        != content.topic_name@ by {
                        assert(self.entries@[k].0@ != content.topic_name@);
                    }
                    assert(cs[i as int].topic_name == content.topic_name@);
                    lemma_first_topic_idx(cs, content.topic_name@, i as int);
                }
                let ghost pre = self.entries@;
                let prev = self.entries[i].1.clone();
                self.entries[i].1 = content;
                proof {
                    lemma_kv_update(pre, i as int, self.entries@[i as int]);
                    assert(self.contents() =~= cs.update(i as int, content@));
                }
                Some(prev)
            },
            None => {
                proof {
                    lemma_kv_contains(self.entries@, content.topic_name@);
                    assert forall|k: int| 0 <= k < cs.len() implies cs[k].topic_name
                        != content.topic_name@ by {
                        assert(self.entries@[k].0@ != content.topic_name@);
                    }
                    lemma_first_topic_idx(cs, content.topic_name@, cs.len() as int);
                }
                let ghost pre = self.entries@;
                let key = content.topic_name.clone();
                self.entries.push((key, content));
                proof {
                    lemma_kv_push(pre, self.entries@.last());
                    assert(self.contents() =~= cs.push(content@));
                }
                None
            },
        }
    }

    /// Delete the retained message under `topic_name`, returning it.
    pub fn remove(&mut self, topic_name: &String) -> (prev: Option<RetainContent>)
        requires
            old(self).wf(),
        ensures
            final(self).wf(),
            final(self).map() == old(self).map().remove(topic_name@),
            (prev is Some) == old(self).map().contains_key(topic_name@),
            (match prev {
                Some(p) => p@ == old(self).map()[topic_name@],
                None => true,
            }),
            final(self).contents() == (if first_topic_idx(old(self).contents(), topic_name@)
                < 0 {
                old(self).contents()
            } else {
                old(self).contents().remove(first_topic_idx(old(self).contents(), topic_name@))
            }),
    {
        let ghost cs = self.contents();
        let r = kv_find(&self.entries, topic_name);
        match r {
            Some(i) => {
                proof {
                    lemma_kv_contains(self.entries@, topic_name@);
                    lemma_kv_index(self.entries@, i as int);
                    lemma_kv_remove(self.entries@, i as int);
                    assert forall|k: int| 0 <= k < i implies cs[k].topic_name != topic_name@ by {
                        assert(self.entries@[k].0@ != topic_name@);
                    }
                    assert(cs[i as int].topic_name == topic_name@);
                    lemma_first_topic_idx(cs, topic_name@, i as int);
                }
                let pair = self.entries.remove(i);
                proof {
                    assert(self.contents() =~= cs.remove(i as int));
                }
                Some(pair.1)
            },
            None => {
                proof {
                    lemma_kv_contains(self.entries@, topic_name@);
                    assert(self.map() =~= self.map().remove(topic_name@));
                    assert forall|k: int| 0 <= k < cs.len() implies cs[k].topic_name
                        != topic_name@ by {
                        assert(self.entries@[k].0@ != topic_name@);
                    }
                    lemma_first_topic_idx(cs, topic_name@, cs.len() as int);
                }
                None
            },
        }
    }

    /// The retained messages whose topic the filter matches, in table
    /// order: what a new subscriber on that filter is owed.
    pub fn get_matches(&self, topic_filter: &str) -> (r: Vec<RetainContent>)
        requires
            self.wf(),
        ensures
            r.deep_view() == spec_retain_matches(self.contents(), topic_filter@),
    {
        let ghost pred = |c: SpecRetainContent| spec_topic_matches(topic_filter@, c.topic_name);
        let ghost s = self.contents();
        let mut out: Vec<RetainContent> = Vec::new();
        let mut j: usize = 0;
        proof {
            reveal(Seq::filter);
            assert(out.deep_view() =~= s.subrange(0, 0).filter(pred));
        }
        while j < self.entries.len()
            invariant
                j <= self.entries@.len(),
                s == self.contents(),
                self.wf(),
                out.deep_view() == s.subrange(0, j as int).filter(pred),
                pred == (|c: SpecRetainContent| spec_topic_matches(topic_filter@, c.topic_name)),
            decreases self.entries@.len() - j,
        {
            let ghost out0 = out.deep_view();
            proof {
                assert(s.subrange(0, j + 1).drop_last() =~= s.subrange(0, j as int));
                assert(s.subrange(0, j + 1).last() == s[j as int]);
            }
            if crate::topic::topic_matches(topic_filter, self.entries[j].1.topic_name.as_str()) {
                out.push(self.entries[j].1.clone());
                proof {
                    reveal(Seq::filter);
                    assert(pred(s[j as int]));
                    assert(s.subrange(0, j + 1).filter(pred) == s.subrange(0, j as int).filter(
                        pred,
                    ).push(s[j as int]));
                    assert(out.deep_view() =~= out0.push(s[j as int]));
                }
            } else {
                proof {
                    reveal(Seq::filter);
                    assert(!pred(s[j as int]));
                    assert(s.subrange(0, j + 1).filter(pred) == s.subrange(0, j as int).filter(
                        pred,
                    ));
                }
            }
            j += 1;
        }
        proof {
            assert(s.subrange(0, s.len() as int) =~= s);
        }
        out
    }
}

/// Everything the filter matches comes from the table, each topic at
/// most once: with pairwise distinct topics in `s`, the matched
/// sequence keeps that distinctness and draws only from `s`.
pub proof fn lemma_retain_matches_distinct(s: Seq<SpecRetainContent>, f: Seq<char>)
    requires
        forall|i: int, j: int| 0 <= i < j < s.len() ==> s[i].topic_name != s[j].topic_name,
    ensures
        forall|k: int|
            0 <= k < spec_retain_matches(s, f).len() ==> s.contains(
                #[trigger] spec_retain_matches(s, f)[k],
            ),
        forall|k1: int, k2: int|
            0 <= k1 < k2 < spec_retain_matches(s, f).len() ==> spec_retain_matches(s, f)[
                k1
            ].topic_name != spec_retain_matches(s, f)[k2].topic_name,
    decreases s.len(),
{
    reveal(Seq::filter);
    let pred = |c: SpecRetainContent| spec_topic_matches(f, c.topic_name);
    if s.len() > 0 {
        let d = s.drop_last();
        lemma_retain_matches_distinct(d, f);
        let sub = spec_retain_matches(d, f);
        assert forall|k: int| 0 <= k < sub.len() implies s.contains(sub[k]) by {
            assert(d.contains(sub[k]));
            let w = choose|w: int| 0 <= w < d.len() && d[w] == sub[k];
            assert(s[w] == sub[k]);
        }
        if pred(s.last()) {
            let m = spec_retain_matches(s, f);
            assert(m == sub.push(s.last()));
            assert forall|k1: int, k2: int|
                0 <= k1 < k2 < m.len() implies m[k1].topic_name != m[k2].topic_name by {
                if k2 == m.len() - 1 {
                    assert(m[k2] == s.last());
                    assert(d.contains(sub[k1]));
                    let w = choose|w: int| 0 <= w < d.len() && d[w] == sub[k1];
                    assert(s[w].topic_name != s[s.len() - 1].topic_name);
                } else {
                    assert(m[k1] == sub[k1] && m[k2] == sub[k2]);
                }
            }
        }
    }
}

/// The current retained message on a matching topic is owed to a new
/// subscriber: it stands in the matched sequence.
pub proof fn lemma_retained_owed(rt: RetainTable, f: Seq<char>, t: Seq<char>)
    requires
        rt.wf(),
        rt.map().contains_key(t),
        spec_topic_matches(f, t),
    ensures
        spec_retain_matches(rt.contents(), f).contains(rt.map()[t]),
{
    lemma_kv_contains(rt.entries@, t);
    let i = choose|i: int| 0 <= i < rt.entries@.len() && rt.entries@[i].0@ == t;
    lemma_kv_index(rt.entries@, i);
    let s = rt.contents();
    assert(s[i] == rt.map()[t]);
    assert(spec_topic_matches(f, s[i].topic_name));
    s.filter_lemma(|c: SpecRetainContent| spec_topic_matches(f, c.topic_name));
}

} // verus!

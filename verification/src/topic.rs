use vstd::prelude::*;

verus! {

/// A topic string split at every `/` into its levels. The empty string
/// is one empty level; a trailing or leading `/` yields an empty level,
/// as MQTT requires.
pub open spec fn spec_split(s: Seq<char>) -> Seq<Seq<char>>
    decreases s.len(),
{
    if s.len() == 0 {
        seq![Seq::empty()]
    } else if s.last() == '/' {
        spec_split(s.drop_last()).push(Seq::empty())
    } else {
        let r = spec_split(s.drop_last());
        r.update(r.len() - 1, r.last().push(s.last()))
    }
}

/// MQTT filter matching over levels: `#` as the final filter level
/// matches any remaining levels (including none), `+` matches exactly
/// one level, and any other level must be equal.
pub open spec fn spec_levels_match(f: Seq<Seq<char>>, t: Seq<Seq<char>>) -> bool
    decreases f.len(),
{
    if f.len() == 0 {
        t.len() == 0
    } else if f.len() == 1 && f[0] == seq!['#'] {
        true
    } else if t.len() == 0 {
        false
    } else if f[0] == seq!['+'] || f[0] == t[0] {
        spec_levels_match(f.skip(1), t.skip(1))
    } else {
        false
    }
}

/// Whether the filter matches the topic name: level matching, except
/// that a filter starting with a wildcard never matches a topic
/// starting with `$`.
pub open spec fn spec_topic_matches(f: Seq<char>, t: Seq<char>) -> bool {
    if f.len() > 0 && (f[0] == '+' || f[0] == '#') && t.len() > 0 && t[0] == '$' {
        false
    } else {
        spec_levels_match(spec_split(f), spec_split(t))
    }
}

/// A shared-subscription filter: one under the `$share/` prefix.
pub open spec fn spec_is_shared(f: Seq<char>) -> bool {
    f.len() >= 7 && f.subrange(0, 7) == "$share/"@
}

/// The levels of a topic or filter string, in order.
pub fn split_levels(s: &str) -> (r: Vec<String>)
    ensures
        r.deep_view() == spec_split(s@),
{
    let n = s.unicode_len();
    let mut levels: Vec<String> = Vec::new();
    let mut start: usize = 0;
    let mut i: usize = 0;
    proof {
        assert(s@.subrange(0, 0) =~= Seq::<char>::empty());
        assert(levels.deep_view().push(s@.subrange(0, 0)) =~~= spec_split(s@.subrange(0, 0)));
    }
    while i < n
        invariant
            start <= i <= n,
            n == s@.len(),
            levels.deep_view().push(s@.subrange(start as int, i as int)) == spec_split(
                s@.subrange(0, i as int),
            ),
        decreases n - i,
    {
        proof {
            assert(s@.subrange(0, i + 1).drop_last() =~= s@.subrange(0, i as int));
            assert(s@.subrange(0, i + 1).last() == s@[i as int]);
        }
        let c = s.get_char(i);
        if c == '/' {
            let ghost dv0 = levels.deep_view();
            let ghost start0 = start as int;
            let level = s.substring_char(start, i).to_owned();
            levels.push(level);
            start = i + 1;
            proof {
                assert(levels.deep_view() =~= dv0.push(s@.subrange(start0, i as int)));
                assert(levels.deep_view() =~= spec_split(s@.subrange(0, i as int)));
                assert(s@.subrange(start as int, i + 1) =~= Seq::<char>::empty());
                assert(levels.deep_view().push(s@.subrange(start as int, i + 1)) =~= spec_split(
                    s@.subrange(0, i + 1),
                ));
            }
        } else {
            proof {
                let r = spec_split(s@.subrange(0, i as int));
                assert(r == levels.deep_view().push(s@.subrange(start as int, i as int)));
                assert(r.last() == s@.subrange(start as int, i as int));
                assert(s@.subrange(start as int, i as int).push(s@[i as int]) =~= s@.subrange(
                    start as int,
                    i + 1,
                ));
                assert(r.update(r.len() - 1, r.last().push(s@[i as int])) =~= levels.deep_view()
                    .push(s@.subrange(start as int, i + 1)));
            }
        }
        i += 1;
    }
    let last = s.substring_char(start, n).to_owned();
    levels.push(last);
    proof {
        assert(s@.subrange(0, n as int) =~= s@);
        assert(levels.deep_view() =~= spec_split(s@));
    }
    levels
}

/// Whether the string is exactly the one character `c`.
fn is_single(s: &String, c: char) -> (r: bool)
    ensures
        r == (s@ == seq![c]),
{
    let sl = s.as_str();
    if sl.unicode_len() == 1 {
        let c0 = sl.get_char(0);
        proof {
            if c0 == c {
                assert(s@ =~= seq![c]);
            } else {
                assert(seq![c][0] == c);
            }
        }
        c0 == c
    } else {
        proof {
            assert(seq![c].len() == 1);
        }
        false
    }
}

/// Level matching from positions `fi` and `ti` onward.
fn levels_match_from(f: &Vec<String>, t: &Vec<String>, fi: usize, ti: usize) -> (r: bool)
    requires
        fi <= f@.len(),
        ti <= t@.len(),
    ensures
        r == spec_levels_match(f.deep_view().skip(fi as int), t.deep_view().skip(ti as int)),
    decreases f@.len() - fi,
{
    let ghost fs = f.deep_view().skip(fi as int);
    let ghost ts = t.deep_view().skip(ti as int);
    if fi == f.len() {
        ti == t.len()
    } else if fi + 1 == f.len() && is_single(&f[fi], '#') {
        assert(fs.len() == 1 && fs[0] == seq!['#']);
        true
    } else if ti == t.len() {
        false
    } else if is_single(&f[fi], '+') || f[fi] == t[ti] {
        proof {
            assert(fs[0] == f.deep_view()[fi as int]);
            assert(ts[0] == t.deep_view()[ti as int]);
            assert(fs.skip(1) =~= f.deep_view().skip(fi + 1));
            assert(ts.skip(1) =~= t.deep_view().skip(ti + 1));
        }
        levels_match_from(f, t, fi + 1, ti + 1)
    } else {
        proof {
            assert(fs[0] == f.deep_view()[fi as int]);
            assert(ts[0] == t.deep_view()[ti as int]);
        }
        false
    }
}

/// Whether the topic filter matches the topic name.
pub fn topic_matches(filter: &str, topic: &str) -> (r: bool)
    ensures
        r == spec_topic_matches(filter@, topic@),
{
    let fl = filter.unicode_len();
    let tl = topic.unicode_len();
    if fl > 0 && tl > 0 {
        let f0 = filter.get_char(0);
        if (f0 == '+' || f0 == '#') && topic.get_char(0) == '$' {
            return false;
        }
    }
    let fls = split_levels(filter);
    let tls = split_levels(topic);
    proof {
        assert(fls.deep_view().skip(0) =~= fls.deep_view());
        assert(tls.deep_view().skip(0) =~= tls.deep_view());
    }
    levels_match_from(&fls, &tls, 0, 0)
}

/// Whether the filter is a shared subscription, which MQTT v3.1.1
/// rejects.
pub fn is_shared(filter: &str) -> (r: bool)
    ensures
        r == spec_is_shared(filter@),
{
    let n = filter.unicode_len();
    if n < 7 {
        false
    } else {
        let head = filter.substring_char(0, 7).to_owned();
        let pat = String::from_str("$share/");
        head == pat
    }
}

} // verus!

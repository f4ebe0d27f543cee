use vstd::map::*;
use vstd::prelude::*;

verus! {

/// Association lists with `String` keys and pairwise distinct keys: the
/// in-memory shape behind the broker's maps (per-client inflight queues,
/// retained messages, route entries). The view of such a list is the
/// `Map` from the key's characters to the value's deep view; the order of
/// the entries carries no meaning beyond iteration order.
pub open spec fn kv_map<V: DeepView>(s: Seq<(String, V)>) -> Map<Seq<char>, V::V>
    decreases s.len(),
{
    if s.len() == 0 {
        Map::empty()
    } else {
        kv_map(s.drop_last()).insert(s.last().0@, s.last().1.deep_view())
    }
}

/// No two entries share a key.
pub open spec fn kv_unique<V>(s: Seq<(String, V)>) -> bool {
    forall|i: int, j: int| 0 <= i < j < s.len() ==> s[i].0@ != s[j].0@
}

/// A key is in the map exactly when some entry holds it.
pub proof fn lemma_kv_contains<V: DeepView>(s: Seq<(String, V)>, k: Seq<char>)
    ensures
        kv_map(s).contains_key(k) <==> exists|i: int| 0 <= i < s.len() && s[i].0@ == k,
    decreases s.len(),
{
    if s.len() > 0 {
        lemma_kv_contains(s.drop_last(), k);
        if s.last().0@ == k {
            assert(s[s.len() - 1].0@ == k);
        } else {
            if kv_map(s).contains_key(k) {
                let i = choose|i: int| 0 <= i < s.drop_last().len() && s.drop_last()[i].0@ == k;
                assert(s[i].0@ == k);
            }
            if exists|i: int| 0 <= i < s.len() && s[i].0@ == k {
                let i = choose|i: int| 0 <= i < s.len() && s[i].0@ == k;
                assert(s.drop_last()[i].0@ == k);
            }
        }
    }
}

/// With distinct keys, each entry is what the map holds under its key.
pub proof fn lemma_kv_index<V: DeepView>(s: Seq<(String, V)>, i: int)
    requires
        kv_unique(s),
        0 <= i < s.len(),
    ensures
        kv_map(s).contains_key(s[i].0@),
        kv_map(s)[s[i].0@] == s[i].1.deep_view(),
    decreases s.len(),
{
    if i < s.len() - 1 {
        assert(kv_unique(s.drop_last()));
        lemma_kv_index(s.drop_last(), i);
        assert(s[i].0@ != s.last().0@);
    }
}

/// Replacing the entry at `i` by one with the same key updates the map
/// at that key alone.
pub proof fn lemma_kv_update<V: DeepView>(s: Seq<(String, V)>, i: int, p: (String, V))
    requires
        kv_unique(s),
        0 <= i < s.len(),
        p.0@ == s[i].0@,
    ensures
        kv_unique(s.update(i, p)),
        kv_map(s.update(i, p)) == kv_map(s).insert(p.0@, p.1.deep_view()),
    decreases s.len(),
{
    let t = s.update(i, p);
    assert forall|x: int, y: int| 0 <= x < y < t.len() implies t[x].0@ != t[y].0@ by {
        assert(s[x].0@ != s[y].0@);
    }
    if i == s.len() - 1 {
        assert(t.drop_last() =~= s.drop_last());
        assert(t.last() == p);
        assert_maps_equal!(kv_map(t), kv_map(s).insert(p.0@, p.1.deep_view()));
    } else {
        assert(kv_unique(s.drop_last()));
        lemma_kv_update(s.drop_last(), i, p);
        assert(t.drop_last() =~= s.drop_last().update(i, p));
        assert(t.last() == s.last());
        assert(s[i].0@ != s.last().0@);
        assert_maps_equal!(kv_map(t), kv_map(s).insert(p.0@, p.1.deep_view()));
    }
}

/// Removing the entry at `i` removes its key from the map.
pub proof fn lemma_kv_remove<V: DeepView>(s: Seq<(String, V)>, i: int)
    requires
        kv_unique(s),
        0 <= i < s.len(),
    ensures
        kv_unique(s.remove(i)),
        kv_map(s.remove(i)) == kv_map(s).remove(s[i].0@),
    decreases s.len(),
{
    let t = s.remove(i);
    assert forall|x: int, y: int| 0 <= x < y < t.len() implies t[x].0@ != t[y].0@ by {
        let sx: int = if x < i { x } else { x + 1 };
        let sy: int = if y < i { y } else { y + 1 };
        assert(t[x] == s[sx]);
        assert(t[y] == s[sy]);
        assert(s[sx].0@ != s[sy].0@);
    }
    if i == s.len() - 1 {
        assert(t =~= s.drop_last());
        lemma_kv_contains(s.drop_last(), s[i].0@);
        assert(!kv_map(s.drop_last()).contains_key(s[i].0@));
        assert_maps_equal!(kv_map(t), kv_map(s).remove(s[i].0@));
    } else {
        assert(kv_unique(s.drop_last()));
        lemma_kv_remove(s.drop_last(), i);
        assert(t.drop_last() =~= s.drop_last().remove(i));
        assert(t.last() == s.last());
        assert(s[i].0@ != s.last().0@);
        assert_maps_equal!(kv_map(t), kv_map(s).remove(s[i].0@));
    }
}

/// Appending an entry with a fresh key inserts it into the map.
pub proof fn lemma_kv_push<V: DeepView>(s: Seq<(String, V)>, p: (String, V))
    requires
        kv_unique(s),
        forall|i: int| 0 <= i < s.len() ==> s[i].0@ != p.0@,
    ensures
        kv_unique(s.push(p)),
        kv_map(s.push(p)) == kv_map(s).insert(p.0@, p.1.deep_view()),
{
    assert(s.push(p).drop_last() =~= s);
    assert(s.push(p).last() == p);
}

/// Index of an entry holding `key`, if any entry does.
pub fn kv_find<V>(v: &Vec<(String, V)>, key: &String) -> (r: Option<usize>)
    ensures
        (match r {
            Some(i) => {
                &&& i < v@.len()
                &&& v@[i as int].0@ == key@
                &&& forall|k: int| 0 <= k < i ==> v@[k].0@ != key@
            },
            None => forall|i: int| 0 <= i < v@.len() ==> v@[i].0@ != key@,
        }),
{
    let mut idx: usize = 0;
    while idx < v.len()
        invariant
            idx <= v@.len(),
            forall|i: int| 0 <= i < idx ==> v@[i].0@ != key@,
        decreases v@.len() - idx,
    {
        if v[idx].0 == *key {
            return Some(idx);
        }
        idx += 1;
    }
    None
}

} // verus!

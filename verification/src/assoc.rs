//! Lists of pairs with distinct keys, seen as maps.

use vstd::prelude::*;

verus! {

/// Whether every key occurs once.
pub open spec fn distinct_keys<K, V>(s: Seq<(K, V)>) -> bool {
    forall|i: int, j: int| 0 <= i < j < s.len() ==> (#[trigger] s[i]).0 != (#[trigger] s[j]).0
}

/// The map the pairs make up.
pub open spec fn as_map<K, V>(s: Seq<(K, V)>) -> Map<K, V>
    decreases s.len(),
{
    if s.len() == 0 {
        Map::empty()
    } else {
        as_map(s.drop_last()).insert(s.last().0, s.last().1)
    }
}

/// The map holds the pairs and nothing else.
pub proof fn lemma_as_map<K, V>(s: Seq<(K, V)>)
    requires
        distinct_keys(s),
    ensures
        as_map(s).dom().finite(),
        as_map(s).len() == s.len(),
        forall|i: int|
            0 <= i < s.len() ==> as_map(s).contains_key((#[trigger] s[i]).0) && as_map(s)[s[i].0]
                == s[i].1,
        forall|k: K| #[trigger]
            as_map(s).contains_key(k) ==> exists|i: int| 0 <= i < s.len() && (#[trigger] s[i]).0
                == k,
    decreases s.len(),
{
    if s.len() > 0 {
        let front = s.drop_last();
        assert(distinct_keys(front)) by {
            assert forall|i: int, j: int| 0 <= i < j < front.len() implies (#[trigger] front[i]).0
                != (#[trigger] front[j]).0 by {
                assert(s[i].0 != s[j].0);
            }
        }
        lemma_as_map(front);
        let m = as_map(front);
        let k = s.last().0;
        if m.contains_key(k) {
            let i = choose|i: int| 0 <= i < front.len() && (#[trigger] front[i]).0 == k;
            assert(s[i].0 != s[s.len() - 1].0);
        }
        assert forall|i: int| 0 <= i < s.len() implies as_map(s).contains_key((#[trigger] s[i]).0)
            && as_map(s)[s[i].0] == s[i].1 by {
            if i < front.len() {
                assert(front[i] == s[i]);
                assert(s[i].0 != s[s.len() - 1].0);
            }
        }
        assert forall|x: K| #[trigger] as_map(s).contains_key(x) implies exists|i: int|
            0 <= i < s.len() && (#[trigger] s[i]).0 == x by {
            if x == k {
                assert(s[s.len() - 1].0 == x);
            } else {
                assert(m.contains_key(x));
                let i = choose|i: int| 0 <= i < front.len() && (#[trigger] front[i]).0 == x;
                assert(s[i].0 == x);
            }
        }
    }
}

/// Adding a pair with a new key adds it to the map.
pub proof fn lemma_as_map_push<K, V>(s: Seq<(K, V)>, k: K, v: V)
    requires
        distinct_keys(s),
        forall|i: int| 0 <= i < s.len() ==> (#[trigger] s[i]).0 != k,
    ensures
        distinct_keys(s.push((k, v))),
        as_map(s.push((k, v))) == as_map(s).insert(k, v),
{
    let t = s.push((k, v));
    assert(t.drop_last() =~= s);
    assert forall|i: int, j: int| 0 <= i < j < t.len() implies (#[trigger] t[i]).0 != (
    #[trigger] t[j]).0 by {
        assert(s[i].0 != k);
    }
}

/// Changing a pair's value changes it in the map.
pub proof fn lemma_as_map_update<K, V>(s: Seq<(K, V)>, at: int, v: V)
    requires
        distinct_keys(s),
        0 <= at < s.len(),
    ensures
        distinct_keys(s.update(at, (s[at].0, v))),
        as_map(s.update(at, (s[at].0, v))) == as_map(s).insert(s[at].0, v),
    decreases s.len(),
{
    let t = s.update(at, (s[at].0, v));
    assert forall|i: int, j: int| 0 <= i < j < t.len() implies (#[trigger] t[i]).0 != (
    #[trigger] t[j]).0 by {
        assert(s[i].0 != s[j].0);
    }
    lemma_as_map(s);
    lemma_as_map(t);
    assert(as_map(t) =~= as_map(s).insert(s[at].0, v)) by {
        assert forall|k: K| #[trigger] as_map(t).contains_key(k) <==> as_map(s).insert(
            s[at].0,
            v,
        ).contains_key(k) by {
            if as_map(t).contains_key(k) {
                let i = choose|i: int| 0 <= i < t.len() && (#[trigger] t[i]).0 == k;
                assert(s[i].0 == k);
            }
            if as_map(s).contains_key(k) {
                let i = choose|i: int| 0 <= i < s.len() && (#[trigger] s[i]).0 == k;
                assert(t[i].0 == k);
            }
            assert(t[at].0 == s[at].0);
        }
        assert forall|k: K| #[trigger] as_map(t).contains_key(k) implies as_map(t)[k] == as_map(
            s,
        ).insert(s[at].0, v)[k] by {
            let i = choose|i: int| 0 <= i < t.len() && (#[trigger] t[i]).0 == k;
            assert(s[i].0 == k);
            if i != at {
                if i < at {
                    assert(s[i].0 != s[at].0);
                } else {
                    assert(s[at].0 != s[i].0);
                }
            }
        }
    }
}

} // verus!

use vstd::prelude::*;

verus! {

/// Some entry of `s` has key `k`.
pub open spec fn has_key<V>(s: Seq<(Seq<char>, V)>, k: Seq<char>) -> bool {
    exists|i: int| 0 <= i < s.len() && #[trigger] s[i].0 == k
}

/// No two entries of `s` share a key.
pub open spec fn keys_unique<V>(s: Seq<(Seq<char>, V)>) -> bool {
    forall|i: int, j: int|
        0 <= i < s.len() && 0 <= j < s.len() && #[trigger] s[i].0 == #[trigger] s[j].0 ==> i == j
}

/// The map that an association list with unique keys stands for.
pub open spec fn keyed<V>(s: Seq<(Seq<char>, V)>) -> Map<Seq<char>, V> {
    Map::new(
        |k: Seq<char>| has_key(s, k),
        |k: Seq<char>| s[choose|i: int| 0 <= i < s.len() && #[trigger] s[i].0 == k].1,
    )
}

pub proof fn lemma_keyed_lookup<V>(s: Seq<(Seq<char>, V)>, i: int)
    requires
        keys_unique(s),
        0 <= i < s.len(),
    ensures
        keyed(s).contains_key(s[i].0),
        keyed(s)[s[i].0] == s[i].1,
{
    let k = s[i].0;
    assert(has_key(s, k));
    let j = choose|j: int| 0 <= j < s.len() && #[trigger] s[j].0 == k;
    assert(j == i);
}

pub proof fn lemma_keyed_update<V>(s: Seq<(Seq<char>, V)>, i: int, v: V)
    requires
        keys_unique(s),
        0 <= i < s.len(),
    ensures
        keys_unique(s.update(i, (s[i].0, v))),
        keyed(s.update(i, (s[i].0, v))) == keyed(s).insert(s[i].0, v),
{
    let t = s.update(i, (s[i].0, v));
    assert(keys_unique(t)) by {
        assert forall|a: int, b: int|
            0 <= a < t.len() && 0 <= b < t.len() && #[trigger] t[a].0 == #[trigger] t[b].0 implies a
            == b by {
            assert(t[a].0 == s[a].0 && t[b].0 == s[b].0);
        }
    }
    let m = keyed(s).insert(s[i].0, v);
    assert forall|k: Seq<char>| has_key(t, k) <==> #[trigger] m.contains_key(k) by {
        if has_key(t, k) {
            let a = choose|a: int| 0 <= a < t.len() && #[trigger] t[a].0 == k;
            assert(s[a].0 == k);
        }
        if has_key(s, k) {
            let a = choose|a: int| 0 <= a < s.len() && #[trigger] s[a].0 == k;
            assert(t[a].0 == k);
        }
        if k == s[i].0 {
            assert(t[i].0 == k);
        }
    }
    assert forall|k: Seq<char>| #[trigger] keyed(t).contains_key(k) implies keyed(t)[k] == m[k] by {
        let a = choose|a: int| 0 <= a < t.len() && #[trigger] t[a].0 == k;
        lemma_keyed_lookup(t, a);
        if a != i {
            assert(s[a].0 == k);
            lemma_keyed_lookup(s, a);
        }
    }
    assert(keyed(t) =~= m);
}

pub proof fn lemma_keyed_push<V>(s: Seq<(Seq<char>, V)>, k: Seq<char>, v: V)
    requires
        keys_unique(s),
        !has_key(s, k),
    ensures
        keys_unique(s.push((k, v))),
        keyed(s.push((k, v))) == keyed(s).insert(k, v),
{
    let t = s.push((k, v));
    assert(keys_unique(t)) by {
        assert forall|a: int, b: int|
            0 <= a < t.len() && 0 <= b < t.len() && #[trigger] t[a].0 == #[trigger] t[b].0 implies a
            == b by {
            if a < s.len() {
                assert(t[a].0 == s[a].0);
            }
            if b < s.len() {
                assert(t[b].0 == s[b].0);
            }
        }
    }
    let m = keyed(s).insert(k, v);
    assert forall|x: Seq<char>| has_key(t, x) <==> #[trigger] m.contains_key(x) by {
        if has_key(t, x) {
            let a = choose|a: int| 0 <= a < t.len() && #[trigger] t[a].0 == x;
            if a < s.len() {
                assert(s[a].0 == x);
            }
        }
        if has_key(s, x) {
            let a = choose|a: int| 0 <= a < s.len() && #[trigger] s[a].0 == x;
            assert(t[a].0 == x);
        }
        if x == k {
            assert(t[s.len() as int].0 == x);
        }
    }
    assert forall|x: Seq<char>| #[trigger] keyed(t).contains_key(x) implies keyed(t)[x] == m[x] by {
        let a = choose|a: int| 0 <= a < t.len() && #[trigger] t[a].0 == x;
        lemma_keyed_lookup(t, a);
        if a < s.len() {
            assert(s[a].0 == x);
            lemma_keyed_lookup(s, a);
        }
    }
    assert(keyed(t) =~= m);
}

/// Index of the entry whose key is `k`, if there is one.
pub fn position<V>(v: &Vec<(String, V)>, k: &String) -> (r: Option<usize>)
    ensures
        match r {
            Some(i) => i < v@.len() && v@[i as int].0@ == k@,
            None => forall|i: int| 0 <= i < v@.len() ==> (#[trigger] v@[i]).0@ != k@,
        },
{
    let mut i: usize = 0;
    while i < v.len()
        invariant
            i <= v@.len(),
            forall|j: int| 0 <= j < i ==> (#[trigger] v@[j]).0@ != k@,
        decreases v@.len() - i,
    {
        if v[i].0 == *k {
            return Some(i);
        }
        i = i + 1;
    }
    None
}

} // verus!

use vstd::prelude::*;

verus! {

/// The mathematical map held by an association list with string keys.
/// A later entry wins over an earlier one with the same key.
pub open spec fn kv_map<V>(s: Seq<(String, V)>) -> Map<Seq<char>, V>
    decreases s.len(),
{
    if s.len() == 0 {
        Map::empty()
    } else {
        kv_map(s.drop_last()).insert(s.last().0@, s.last().1)
    }
}

/// No two entries of the association list share a key.
pub open spec fn kv_unique<V>(s: Seq<(String, V)>) -> bool {
    forall|i: int, j: int| 0 <= i < j < s.len() ==> s[i].0@ != s[j].0@
}

/// A key is in the map exactly when some entry carries it.
pub proof fn lemma_kv_map_dom<V>(s: Seq<(String, V)>, k: Seq<char>)
    ensures
        kv_map(s).dom().contains(k) <==> exists|i: int| 0 <= i < s.len() && s[i].0@ == k,
    decreases s.len(),
{
    if s.len() > 0 {
        lemma_kv_map_dom(s.drop_last(), k);
        if s.last().0@ != k {
            if kv_map(s).dom().contains(k) {
                let i = choose|i: int| 0 <= i < s.len() - 1 && s.drop_last()[i].0@ == k;
                assert(s[i].0@ == k);
            }
            if exists|i: int| 0 <= i < s.len() && s[i].0@ == k {
                let i = choose|i: int| 0 <= i < s.len() && s[i].0@ == k;
                assert(s.drop_last()[i].0@ == k);
            }
        }
    }
}

/// With unique keys, the entry at index `i` gives the map's value for its key.
pub proof fn lemma_kv_map_index<V>(s: Seq<(String, V)>, i: int)
    requires
        kv_unique(s),
        0 <= i < s.len(),
    ensures
        kv_map(s).dom().contains(s[i].0@),
        kv_map(s)[s[i].0@] == s[i].1,
    decreases s.len(),
{
    if i == s.len() - 1 {
        lemma_kv_map_dom(s, s[i].0@);
    } else {
        lemma_kv_map_index(s.drop_last(), i);
        assert(s.drop_last()[i] == s[i]);
        assert(s.last().0@ != s[i].0@);
    }
}

/// Appending a fresh entry inserts it into the map.
pub proof fn lemma_kv_map_push<V>(s: Seq<(String, V)>, p: (String, V))
    ensures
        kv_map(s.push(p)) == kv_map(s).insert(p.0@, p.1),
{
    assert(s.push(p).drop_last() =~= s);
    assert(s.push(p).last() == p);
}

/// Removing the entry at index `i` removes its key from the map, when keys are unique.
pub proof fn lemma_kv_map_remove<V>(s: Seq<(String, V)>, i: int)
    requires
        kv_unique(s),
        0 <= i < s.len(),
    ensures
        kv_map(s.remove(i)) =~= kv_map(s).remove(s[i].0@),
        kv_unique(s.remove(i)),
    decreases s.len(),
{
    let k = s[i].0@;
    if i == s.len() - 1 {
        assert(s.remove(i) =~= s.drop_last());
        lemma_kv_map_dom(s.drop_last(), k);
        assert(!kv_map(s.drop_last()).dom().contains(k));
        assert(kv_map(s.drop_last()) =~= kv_map(s).remove(k));
    } else {
        lemma_kv_map_remove(s.drop_last(), i);
        assert(s.remove(i).drop_last() =~= s.drop_last().remove(i));
        assert(s.remove(i).last() == s.last());
        assert(kv_map(s.remove(i)) == kv_map(s.drop_last().remove(i)).insert(s.last().0@, s.last().1));
        assert(s.last().0@ != k);
    }
}

/// With unique keys, the map has exactly one key per entry.
pub proof fn lemma_kv_map_len<V>(s: Seq<(String, V)>)
    requires
        kv_unique(s),
    ensures
        kv_map(s).dom().finite(),
        kv_map(s).dom().len() == s.len(),
    decreases s.len(),
{
    if s.len() > 0 {
        lemma_kv_map_len(s.drop_last());
        lemma_kv_map_dom(s.drop_last(), s.last().0@);
        assert(forall|i: int| 0 <= i < s.len() - 1 ==> s.drop_last()[i].0@ == s[i].0@);
        assert(!kv_map(s.drop_last()).dom().contains(s.last().0@));
        assert(kv_map(s).dom() =~= kv_map(s.drop_last()).dom().insert(s.last().0@));
    }
}

/// Equality of two strings, with its mathematical meaning.
pub fn str_eq(a: &str, b: &str) -> (r: bool)
    ensures
        r == (a@ == b@),
{
    let sa: String = a.to_owned();
    let sb: String = b.to_owned();
    sa == sb
}

/// Index of the first entry carrying `key`, if any.
pub fn kv_find<V>(s: &Vec<(String, V)>, key: &str) -> (r: Option<usize>)
    ensures
        match r {
            Some(i) => 0 <= i < s@.len() && s@[i as int].0@ == key@,
            None => forall|j: int| 0 <= j < s@.len() ==> s@[j].0@ != key@,
        },
{
    let mut i: usize = 0;
    while i < s.len()
        invariant
            0 <= i <= s@.len(),
            forall|j: int| 0 <= j < i ==> s@[j].0@ != key@,
        decreases s@.len() - i,
    {
        if str_eq(s[i].0.as_str(), key) {
            return Some(i);
        }
        i = i + 1;
    }
    None
}

/// Whether the association list holds `key`.
pub fn kv_contains<V>(s: &Vec<(String, V)>, key: &str) -> (r: bool)
    ensures
        r == kv_map(s@).dom().contains(key@),
{
    proof {
        lemma_kv_map_dom(s@, key@);
    }
    kv_find(s, key).is_some()
}

/// Borrow the value stored under `key`, if any.
pub fn kv_get<'a, V>(s: &'a Vec<(String, V)>, key: &str) -> (r: Option<&'a V>)
    requires
        kv_unique(s@),
    ensures
        match r {
            Some(v) => kv_map(s@).dom().contains(key@) && *v == kv_map(s@)[key@],
            None => !kv_map(s@).dom().contains(key@),
        },
{
    proof {
        lemma_kv_map_dom(s@, key@);
    }
    match kv_find(s, key) {
        Some(i) => {
            proof {
                lemma_kv_map_index(s@, i as int);
            }
            Some(&s[i].1)
        }
        None => None,
    }
}

/// Store `value` under `key`, returning the value it displaces, if any.
pub fn kv_set<V>(s: &mut Vec<(String, V)>, key: String, value: V) -> (r: Option<V>)
    requires
        kv_unique(old(s)@),
    ensures
        kv_unique(final(s)@),
        kv_map(final(s)@) =~= kv_map(old(s)@).insert(key@, value),
        match r {
            Some(v) => kv_map(old(s)@).dom().contains(key@) && v == kv_map(old(s)@)[key@],
            None => !kv_map(old(s)@).dom().contains(key@),
        },
{
    proof {
        lemma_kv_map_dom(s@, key@);
    }
    let found = kv_find(s, key.as_str());
    match found {
        Some(i) => {
            proof {
                lemma_kv_map_index(s@, i as int);
                lemma_kv_map_remove(s@, i as int);
            }
            let old_pair = s.remove(i);
            let ghost mid = s@;
            s.push((key, value));
            proof {
                lemma_kv_map_push(mid, (key, value));
                assert(kv_unique(mid.push((key, value)))) by {
                    assert(forall|j: int| 0 <= j < mid.len() ==> mid[j].0@ != key@);
                }
            }
            Some(old_pair.1)
        }
        None => {
            let ghost before = s@;
            s.push((key, value));
            proof {
                lemma_kv_map_push(before, (key, value));
            }
            None
        }
    }
}

/// Remove `key` and return the value it held, if any.
pub fn kv_remove<V>(s: &mut Vec<(String, V)>, key: &str) -> (r: Option<V>)
    requires
        kv_unique(old(s)@),
    ensures
        kv_unique(final(s)@),
        kv_map(final(s)@) =~= kv_map(old(s)@).remove(key@),
        match r {
            Some(v) => kv_map(old(s)@).dom().contains(key@) && v == kv_map(old(s)@)[key@],
            None => {
                &&& !kv_map(old(s)@).dom().contains(key@)
                &&& *final(s) == *old(s)
            },
        },
{
    proof {
        lemma_kv_map_dom(s@, key@);
    }
    match kv_find(s, key) {
        Some(i) => {
            proof {
                lemma_kv_map_index(s@, i as int);
                lemma_kv_map_remove(s@, i as int);
            }
            let pair = s.remove(i);
            Some(pair.1)
        }
        None => {
            proof {
                assert(kv_map(s@) =~= kv_map(s@).remove(key@));
            }
            None
        }
    }
}

} // verus!

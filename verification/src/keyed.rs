//! Lists of named entries, each name at most once, read as maps from the
//! name's text to the entry.
use vstd::prelude::*;

use crate::text::chars_equal;
use crate::text::chars_of;

verus! {

/// No two entries share a name.
pub open spec fn names_distinct<V>(s: Seq<(String, V)>) -> bool {
    forall|i: int, j: int| 0 <= i < j < s.len() ==> s[i].0@ != s[j].0@
}

/// The entries as a map from name to entry; a later entry wins over an
/// earlier one with the same name.
pub open spec fn keyed<V>(s: Seq<(String, V)>) -> Map<Seq<char>, V>
    decreases s.len(),
{
    if s.len() == 0 {
        Map::empty()
    } else {
        keyed(s.drop_last()).insert(s.last().0@, s.last().1)
    }
}

/// The names of the entries, in order.
pub open spec fn names<V>(s: Seq<(String, V)>) -> Seq<Seq<char>> {
    s.map_values(|e: (String, V)| e.0@)
}

/// What the map of a list with distinct names holds: exactly the names of
/// its entries, each with its entry.
pub proof fn lemma_keyed<V>(s: Seq<(String, V)>)
    requires
        names_distinct(s),
    ensures
        forall|k: Seq<char>| #[trigger] keyed(s).contains_key(k) <==> exists|i: int| 0 <= i < s.len() && s[i].0@ == k,
        forall|i: int| 0 <= i < s.len() ==> keyed(s).contains_key(#[trigger] s[i].0@) && keyed(s)[s[i].0@] == s[i].1,
        keyed(s).dom().finite(),
        keyed(s).dom().len() == s.len(),
    decreases s.len(),
{
    if s.len() > 0 {
        let t = s.drop_last();
        assert(names_distinct(t));
        lemma_keyed(t);
        assert(!keyed(t).contains_key(s.last().0@)) by {
            if keyed(t).contains_key(s.last().0@) {
                let i = choose|i: int| 0 <= i < t.len() && t[i].0@ == s.last().0@;
                assert(s[i].0@ == s[s.len() - 1].0@);
            }
        }
        assert forall|k: Seq<char>| #[trigger] keyed(s).contains_key(k) <==> exists|i: int| 0 <= i < s.len() && s[i].0@ == k by {
            if keyed(s).contains_key(k) && k != s.last().0@ {
                let i = choose|i: int| 0 <= i < t.len() && t[i].0@ == k;
                assert(s[i].0@ == k);
            }
            if exists|i: int| 0 <= i < s.len() && s[i].0@ == k {
                let i = choose|i: int| 0 <= i < s.len() && s[i].0@ == k;
                if i < s.len() - 1 {
                    assert(t[i].0@ == k);
                }
            }
        }
        assert forall|i: int| 0 <= i < s.len() implies keyed(s).contains_key(#[trigger] s[i].0@) && keyed(s)[s[i].0@] == s[i].1 by {
            if i < s.len() - 1 {
                assert(t[i] == s[i]);
                assert(s[i].0@ != s[s.len() - 1].0@);
            }
        }
    }
}

/// The position of the entry named `key`, if there is one.
pub fn position_of<V>(s: &Vec<(String, V)>, key: &str) -> (r: Option<usize>)
    ensures
        match r {
            Some(i) => i < s@.len() && s@[i as int].0@ == key@,
            None => forall|i: int| 0 <= i < s@.len() ==> s@[i].0@ != key@,
        },
{
    let key_chars = chars_of(key);
    let mut i: usize = 0;
    while i < s.len()
        invariant
            i <= s@.len(),
            key_chars@ == key@,
            forall|j: int| 0 <= j < i ==> s@[j].0@ != key@,
        decreases s.len() - i,
    {
        let name_chars = chars_of(s[i].0.as_str());
        if chars_equal(&name_chars, &key_chars) {
            return Some(i);
        }
        i += 1;
    }
    None
}

/// Sets the entry named `key` to `value`, in place of the one there was.
pub fn put_entry<V>(s: &mut Vec<(String, V)>, key: String, value: V)
    requires
        names_distinct(old(s)@),
    ensures
        names_distinct(final(s)@),
        keyed(final(s)@) == keyed(old(s)@).insert(key@, value),
{
    let ghost k = key@;
    proof {
        lemma_keyed(s@);
    }
    match position_of(s, key.as_str()) {
        Some(i) => {
            let ghost before = s@;
            s.set(i, (key, value));
            proof {
                assert forall|a: int, b: int| 0 <= a < b < s@.len() implies s@[a].0@ != s@[b].0@ by {
                    assert(before[a].0@ != before[b].0@);
                }
                lemma_keyed(s@);
                assert(keyed(s@) =~= keyed(before).insert(k, value)) by {
                    assert forall|x: Seq<char>| #[trigger] keyed(s@).contains_key(x) <==> keyed(before).insert(k, value).contains_key(x) by {
                        if keyed(s@).contains_key(x) {
                            let j = choose|j: int| 0 <= j < s@.len() && s@[j].0@ == x;
                            if j != i {
                                assert(before[j].0@ == x);
                            }
                        }
                        if keyed(before).contains_key(x) {
                            let j = choose|j: int| 0 <= j < before.len() && before[j].0@ == x;
                            if j != i {
                                assert(s@[j].0@ == x);
                            } else {
                                assert(s@[i as int].0@ == x);
                            }
                        }
                        if x == k {
                            assert(s@[i as int].0@ == x);
                        }
                    }
                    assert forall|x: Seq<char>| #[trigger] keyed(s@).contains_key(x) implies keyed(s@)[x] == keyed(before).insert(k, value)[x] by {
                        let j = choose|j: int| 0 <= j < s@.len() && s@[j].0@ == x;
                        if j != i {
                            assert(before[j] == s@[j]);
                        }
                    }
                }
            }
        },
        None => {
            let ghost before = s@;
            s.push((key, value));
            proof {
                assert forall|a: int, b: int| 0 <= a < b < s@.len() implies s@[a].0@ != s@[b].0@ by {
                    if b < before.len() {
                        assert(before[a].0@ != before[b].0@);
                    } else {
                        assert(before[a].0@ != k);
                    }
                }
                assert(s@.drop_last() =~= before);
            }
        },
    }
}

/// Takes out the entry named `key`, if there is one.
pub fn take_entry<V>(s: &mut Vec<(String, V)>, key: &str) -> (r: Option<V>)
    requires
        names_distinct(old(s)@),
    ensures
        names_distinct(final(s)@),
        keyed(final(s)@) == keyed(old(s)@).remove(key@),
        match r {
            Some(v) => keyed(old(s)@).contains_key(key@) && v == keyed(old(s)@)[key@],
            None => !keyed(old(s)@).contains_key(key@),
        },
{
    proof {
        lemma_keyed(s@);
    }
    match position_of(s, key) {
        Some(i) => {
            let ghost before = s@;
            let (_, v) = s.remove(i);
            proof {
                assert forall|a: int, b: int| 0 <= a < b < s@.len() implies s@[a].0@ != s@[b].0@ by {
                    let a2 = if a < i { a } else { a + 1 };
                    let b2 = if b < i { b } else { b + 1 };
                    assert(s@[a] == before[a2]);
                    assert(s@[b] == before[b2]);
                    assert(before[a2].0@ != before[b2].0@);
                }
                lemma_keyed(s@);
                assert(keyed(s@) =~= keyed(before).remove(key@)) by {
                    assert forall|x: Seq<char>| #[trigger] keyed(s@).contains_key(x) <==> keyed(before).remove(key@).contains_key(x) by {
                        if keyed(s@).contains_key(x) {
                            let j = choose|j: int| 0 <= j < s@.len() && s@[j].0@ == x;
                            let j2 = if j < i { j } else { j + 1 };
                            assert(s@[j] == before[j2]);
                            assert(before[j2].0@ != before[i as int].0@);
                        }
                        if keyed(before).remove(key@).contains_key(x) {
                            let j = choose|j: int| 0 <= j < before.len() && before[j].0@ == x;
                            assert(j != i);
                            if j < i {
                                assert(s@[j] == before[j]);
                            } else {
                                assert(s@[j - 1] == before[j]);
                            }
                        }
                    }
                    assert forall|x: Seq<char>| #[trigger] keyed(s@).contains_key(x) implies keyed(s@)[x] == keyed(before).remove(key@)[x] by {
                        let j = choose|j: int| 0 <= j < s@.len() && s@[j].0@ == x;
                        let j2 = if j < i { j } else { j + 1 };
                        assert(s@[j] == before[j2]);
                    }
                }
            }
            Some(v)
        },
        None => {
            proof {
                assert(keyed(s@) =~= keyed(s@).remove(key@));
            }
            None
        },
    }
}

} // verus!

//! Sequences of records that are found by a textual key.
//!
//! The mirror keeps its tables as vectors in which no key occurs twice. This
//! module gives such a sequence its meaning as a map from key to record, and
//! proves how pushing, replacing and removing a record change that map.

use vstd::prelude::*;

verus! {

/// A record that carries the key it is found by.
pub trait Keyed {
    spec fn key(&self) -> Seq<char>;
}

/// Some record of `s` has the key `id`.
pub open spec fn has_key<E: Keyed>(s: Seq<E>, id: Seq<char>) -> bool {
    exists|i: int| 0 <= i < s.len() && (#[trigger] s[i]).key() == id
}

/// A place in `s` at which the key `id` stands, if there is one.
pub open spec fn position<E: Keyed>(s: Seq<E>, id: Seq<char>) -> int {
    choose|i: int| 0 <= i < s.len() && (#[trigger] s[i]).key() == id
}

/// No key occurs twice in `s`.
pub open spec fn distinct_keys<E: Keyed>(s: Seq<E>) -> bool {
    forall|i: int, j: int|
        0 <= i < j < s.len() ==> (#[trigger] s[i]).key() != (#[trigger] s[j]).key()
}

/// The map from each key of `s` to the record that carries it.
pub open spec fn as_map<E: Keyed>(s: Seq<E>) -> Map<Seq<char>, E> {
    Map::new(|id: Seq<char>| has_key(s, id), |id: Seq<char>| s[position(s, id)])
}

/// In a sequence without repeated keys the record at `i` is the one that the
/// map gives for its key.
pub proof fn lemma_entry<E: Keyed>(s: Seq<E>, i: int)
    requires
        distinct_keys(s),
        0 <= i < s.len(),
    ensures
        has_key(s, s[i].key()),
        as_map(s).contains_key(s[i].key()),
        as_map(s)[s[i].key()] == s[i],
        position(s, s[i].key()) == i,
{
    let id = s[i].key();
    assert(has_key(s, id));
    let p = position(s, id);
    assert(0 <= p < s.len() && s[p].key() == id);
    if p < i {
        assert(s[p].key() != s[i].key());
    } else if i < p {
        assert(s[i].key() != s[p].key());
    }
}

/// The empty sequence stands for the empty map.
pub proof fn lemma_empty<E: Keyed>()
    ensures
        distinct_keys(Seq::<E>::empty()),
        as_map(Seq::<E>::empty()) == Map::<Seq<char>, E>::empty(),
{
    assert(as_map(Seq::<E>::empty()) =~= Map::<Seq<char>, E>::empty());
}

/// Pushing a record under a fresh key inserts it into the map.
pub proof fn lemma_push<E: Keyed>(s: Seq<E>, e: E)
    requires
        distinct_keys(s),
        !has_key(s, e.key()),
    ensures
        distinct_keys(s.push(e)),
        as_map(s.push(e)) == as_map(s).insert(e.key(), e),
{
    let t = s.push(e);
    assert forall|i: int, j: int| 0 <= i < j < t.len() implies (#[trigger] t[i]).key() != (
    #[trigger] t[j]).key() by {
        if j == s.len() {
            assert(t[i] == s[i]);
        } else {
            assert(t[i] == s[i] && t[j] == s[j]);
        }
    }
    assert forall|id: Seq<char>| has_key(t, id) <==> (has_key(s, id) || id == e.key()) by {
        if has_key(t, id) {
            let i = position(t, id);
            if i < s.len() {
                assert(s[i].key() == id);
            }
        }
        if has_key(s, id) {
            let i = position(s, id);
            assert(t[i].key() == id);
        }
        if id == e.key() {
            assert(t[s.len() as int].key() == id);
        }
    }
    assert forall|id: Seq<char>| has_key(t, id) implies #[trigger] as_map(t)[id] == as_map(
        s,
    ).insert(e.key(), e)[id] by {
        if id == e.key() {
            lemma_entry(t, s.len() as int);
        } else {
            let i = position(s, id);
            assert(t[i] == s[i]);
            lemma_entry(t, i);
        }
    }
    assert(as_map(t) =~= as_map(s).insert(e.key(), e));
}

/// Replacing a record by one with the same key replaces it in the map.
pub proof fn lemma_update<E: Keyed>(s: Seq<E>, i: int, e: E)
    requires
        distinct_keys(s),
        0 <= i < s.len(),
        s[i].key() == e.key(),
    ensures
        distinct_keys(s.update(i, e)),
        as_map(s.update(i, e)) == as_map(s).insert(e.key(), e),
{
    let t = s.update(i, e);
    assert forall|a: int, b: int| 0 <= a < b < t.len() implies (#[trigger] t[a]).key() != (
    #[trigger] t[b]).key() by {
        assert(t[a].key() == s[a].key());
        assert(t[b].key() == s[b].key());
    }
    assert forall|id: Seq<char>| has_key(t, id) <==> has_key(s, id) by {
        if has_key(t, id) {
            let p = position(t, id);
            assert(s[p].key() == id);
        }
        if has_key(s, id) {
            let p = position(s, id);
            assert(t[p].key() == id);
        }
    }
    lemma_entry(s, i);
    assert forall|id: Seq<char>| has_key(t, id) implies #[trigger] as_map(t)[id] == as_map(
        s,
    ).insert(e.key(), e)[id] by {
        let p = position(s, id);
        lemma_entry(t, p);
        if p != i {
            assert(t[p] == s[p]);
            assert(s[p].key() != s[i].key()) by {
                if p < i {
                    assert(s[p].key() != s[i].key());
                } else {
                    assert(s[i].key() != s[p].key());
                }
            }
        }
    }
    assert(as_map(t) =~= as_map(s).insert(e.key(), e));
}

/// Removing the record at `i` removes its key from the map.
pub proof fn lemma_remove<E: Keyed>(s: Seq<E>, i: int)
    requires
        distinct_keys(s),
        0 <= i < s.len(),
    ensures
        distinct_keys(s.remove(i)),
        as_map(s.remove(i)) == as_map(s).remove(s[i].key()),
{
    let t = s.remove(i);
    let gone = s[i].key();
    assert forall|a: int, b: int| 0 <= a < b < t.len() implies (#[trigger] t[a]).key() != (
    #[trigger] t[b]).key() by {
        let sa = if a < i { a } else { a + 1 };
        let sb = if b < i { b } else { b + 1 };
        assert(t[a] == s[sa] && t[b] == s[sb]);
        assert(s[sa].key() != s[sb].key());
    }
    assert forall|id: Seq<char>| has_key(t, id) <==> (has_key(s, id) && id != gone) by {
        if has_key(t, id) {
            let p = position(t, id);
            let sp = if p < i { p } else { p + 1 };
            assert(t[p] == s[sp]);
            assert(s[sp].key() == id);
            if sp < i {
                assert(s[sp].key() != s[i].key());
            } else {
                assert(s[i].key() != s[sp].key());
            }
        }
        if has_key(s, id) && id != gone {
            let p = position(s, id);
            let tp = if p < i { p } else { p - 1 };
            assert(t[tp] == s[p]);
        }
    }
    assert forall|id: Seq<char>| has_key(t, id) implies #[trigger] as_map(t)[id] == as_map(
        s,
    ).remove(gone)[id] by {
        let p = position(s, id);
        let tp = if p < i { p } else { p - 1 };
        assert(t[tp] == s[p]);
        lemma_entry(t, tp);
    }
    assert(as_map(t) =~= as_map(s).remove(gone));
}

} // verus!

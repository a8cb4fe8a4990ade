//! Lists of texts, read as sequences and as sets of what they spell.

use vstd::prelude::*;
use vstd::string::StringExecFns;

verus! {

/// Whether two texts spell the same.
pub fn spells(a: &str, b: &str) -> (r: bool)
    ensures
        r == (a@ == b@),
{
    a.to_owned() == b.to_owned()
}

/// `head` followed by `tail`.
pub fn concat(head: String, tail: &str) -> (r: String)
    ensures
        r@ == head@ + tail@,
{
    StringExecFns::concat(head, tail)
}

/// Whether the text has no characters.
pub fn is_empty_text(text: &String) -> (r: bool)
    ensures
        r == (text@.len() == 0),
{
    text.as_str().is_empty()
}

/// Whether some text of `list` spells the same as `text`.
pub fn contains_text(list: &Vec<String>, text: &String) -> (r: bool)
    ensures
        r == list.deep_view().contains(text@),
{
    let mut i: usize = 0;
    while i < list.len()
        invariant
            i <= list.len(),
            forall|j: int| 0 <= j < i ==> list[j]@ != text@,
        decreases list.len() - i,
    {
        if list[i] == *text {
            assert(list.deep_view()[i as int] == text@);
            return true;
        }
        i += 1;
    }
    assert forall|j: int| 0 <= j < list.deep_view().len() implies list.deep_view()[j] != text@ by {
        assert(list[j]@ != text@);
    }
    false
}

/// Pushing an element onto a sequence inserts it into the set of its
/// elements.
pub proof fn lemma_push_to_set<A>(s: Seq<A>, a: A)
    ensures
        s.push(a).to_set() == s.to_set().insert(a),
{
    let t = s.push(a);
    assert forall|x: A| t.contains(x) <==> (s.contains(x) || x == a) by {
        if t.contains(x) {
            let k = choose|k: int| 0 <= k < t.len() && t[k] == x;
            if k < s.len() {
                assert(s[k] == x);
            }
        }
        if s.contains(x) {
            let k = choose|k: int| 0 <= k < s.len() && s[k] == x;
            assert(t[k] == x);
        }
        if x == a {
            assert(t[s.len() as int] == x);
        }
    }
    assert(t.to_set() =~= s.to_set().insert(a));
}

/// An element is in the first `i + 1` elements of a sequence if it is in the
/// first `i` or is the one at `i`.
pub proof fn lemma_take_step<A>(s: Seq<A>, i: int)
    requires
        0 <= i < s.len(),
    ensures
        s.take(i + 1) == s.take(i).push(s[i]),
        forall|x: A| #[trigger]
            s.take(i).push(s[i]).contains(x) <==> (s.take(i).contains(x) || x == s[i]),
{
    let next = s.take(i + 1);
    assert(next =~= s.take(i).push(s[i]));
    assert forall|x: A| next.contains(x) <==> (s.take(i).contains(x) || x == s[i]) by {
        if next.contains(x) {
            let k = choose|k: int| 0 <= k < next.len() && next[k] == x;
            if k < i {
                assert(s.take(i)[k] == x);
            }
        }
        if s.take(i).contains(x) {
            let k = choose|k: int| 0 <= k < i && s.take(i)[k] == x;
            assert(next[k] == x);
        }
        if x == s[i] {
            assert(next[i] == x);
        }
    }
}

/// Removing the element at `i` loses nothing but that element.
pub proof fn lemma_remove_contains<A>(s: Seq<A>, i: int)
    requires
        0 <= i < s.len(),
    ensures
        forall|x: A| #[trigger] s.remove(i).contains(x) ==> s.contains(x),
        forall|x: A| s.contains(x) && x != s[i] ==> #[trigger] s.remove(i).contains(x),
{
    let t = s.remove(i);
    assert forall|x: A| #[trigger] t.contains(x) implies s.contains(x) by {
        let k = choose|k: int| 0 <= k < t.len() && t[k] == x;
        if k < i {
            assert(s[k] == x);
        } else {
            assert(s[k + 1] == x);
        }
    }
    assert forall|x: A| s.contains(x) && x != s[i] implies #[trigger] t.contains(x) by {
        let k = choose|k: int| 0 <= k < s.len() && s[k] == x;
        if k < i {
            assert(t[k] == x);
        } else {
            assert(t[k - 1] == x);
        }
    }
}

} // verus!

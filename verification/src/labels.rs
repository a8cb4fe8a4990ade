//! The order in which labels are shown: the inbox first, the others by
//! name.

use vstd::prelude::*;
use crate::keyed::{distinct_keys, Keyed};
use crate::models::{copy_text, Label, LabelView};
use crate::texts::spells;

verus! {

/// The Title Case form that `inflections::case::to_title_case` gives a name:
/// words apart, each with a capital first letter.
pub uninterp spec fn title_cased(name: Seq<char>) -> Seq<char>;

/// Calls `inflections::case::to_title_case`. The result is a function of the
/// name alone; the contract gives it its name.
#[verifier::external_body]
fn title_case(name: &str) -> (r: String)
    ensures
        r@ == title_cased(name@),
{
    inflections::case::to_title_case(name)
}

/// `a` does not come after `b` in the order of texts: character by
/// character, by code point, a text before those that it begins.
pub open spec fn text_le(a: Seq<char>, b: Seq<char>) -> bool
    decreases a.len(),
{
    if a.len() == 0 {
        true
    } else if b.len() == 0 {
        false
    } else if a[0] != b[0] {
        a[0] < b[0]
    } else {
        text_le(a.drop_first(), b.drop_first())
    }
}

/// Compares two texts with `<=` of `str`, which orders texts by their bytes
/// and so, as the standard library says, by the code points of their
/// characters.
#[verifier::external_body]
fn text_not_after(a: &str, b: &str) -> (r: bool)
    ensures
        r == text_le(a@, b@),
{
    a <= b
}

/// Of two texts one does not come after the other.
pub proof fn lemma_text_le_total(a: Seq<char>, b: Seq<char>)
    ensures
        text_le(a, b) || text_le(b, a),
    decreases a.len(),
{
    if a.len() > 0 && b.len() > 0 && a[0] == b[0] {
        lemma_text_le_total(a.drop_first(), b.drop_first());
    }
}

/// The order of texts is transitive.
pub proof fn lemma_text_le_transitive(a: Seq<char>, b: Seq<char>, c: Seq<char>)
    requires
        text_le(a, b),
        text_le(b, c),
    ensures
        text_le(a, c),
    decreases a.len(),
{
    if a.len() > 0 && b.len() > 0 && c.len() > 0 {
        if a[0] == b[0] && b[0] == c[0] {
            lemma_text_le_transitive(a.drop_first(), b.drop_first(), c.drop_first());
        }
    }
}

/// The label `a` is shown no later than the label `b`: the inbox goes
/// before every label, and the others go by name.
pub open spec fn shown_before(a: LabelView, b: LabelView) -> bool {
    a.id == "INBOX"@ || (b.id != "INBOX"@ && text_le(a.name, b.name))
}

/// The labels are in the order in which they are shown.
pub open spec fn in_display_order(labels: Seq<LabelView>) -> bool {
    forall|i: int, j: int|
        0 <= i < j < labels.len() ==> shown_before(#[trigger] labels[i], #[trigger] labels[j])
}

/// In a list in display order without repeated ids, the inbox stands first
/// if it is there at all.
pub proof fn lemma_inbox_first(labels: Seq<LabelView>, k: int)
    requires
        in_display_order(labels),
        distinct_keys(labels),
        0 <= k < labels.len(),
        labels[k].id == "INBOX"@,
    ensures
        k == 0,
{
    if k > 0 {
        assert(shown_before(labels[0], labels[k]));
        assert(labels[0].key() != labels[k].key());
    }
}

/// The label with the Title Case form of its name as display name.
pub open spec fn titled(l: LabelView) -> LabelView {
    LabelView { display_name: title_cased(l.name), ..l }
}

/// Each of the labels with its display name.
pub open spec fn titled_all(labels: Seq<LabelView>) -> Seq<LabelView> {
    Seq::new(labels.len(), |i: int| titled(labels[i]))
}

/// `row` is the titled form of one of the first `bound` labels.
pub open spec fn titled_row(labels: Seq<LabelView>, bound: int, row: LabelView) -> bool {
    exists|j: int| 0 <= j < bound && titled(#[trigger] labels[j]) == row
}

/// Whether the label `a` is shown no later than the label `b`.
pub fn goes_before(a: &Label, b: &Label) -> (r: bool)
    ensures
        r == shown_before(a@, b@),
{
    if spells(a.id.as_str(), "INBOX") {
        true
    } else if spells(b.id.as_str(), "INBOX") {
        false
    } else {
        text_not_after(a.name.as_str(), b.name.as_str())
    }
}

/// Puts `label` into a list that is in display order, behind the labels
/// that are shown no later.
fn insert_in_order(out: &mut Vec<Label>, label: Label) -> (p: usize)
    requires
        in_display_order(old(out).deep_view()),
    ensures
        in_display_order(final(out).deep_view()),
        p <= old(out).len(),
        final(out).deep_view() == old(out).deep_view().insert(p as int, label@),
{
    let ghost before = out.deep_view();
    let ghost x = label@;
    let mut p: usize = 0;
    while p < out.len() && goes_before(&out[p], &label)
        invariant
            p <= out.len(),
            out.deep_view() == before,
            x == label@,
            forall|k: int| 0 <= k < p ==> shown_before(#[trigger] before[k], x),
        decreases out.len() - p,
    {
        p += 1;
    }
    out.insert(p, label);
    proof {
        let after = out.deep_view();
        assert(after =~= before.insert(p as int, x));
        assert forall|a: int, b: int| 0 <= a < b < after.len() implies shown_before(
            #[trigger] after[a],
            #[trigger] after[b],
        ) by {
            if b < p {
                assert(after[a] == before[a] && after[b] == before[b]);
            } else if b == p {
                assert(after[a] == before[a]);
            } else if a < p {
                assert(after[a] == before[a] && after[b] == before[b - 1]);
            } else if a == p {
                assert(after[b] == before[b - 1]);
                let first = before[p as int];
                let other = before[b - 1];
                assert(!shown_before(first, x));
                lemma_text_le_total(first.name, x.name);
                assert(shown_before(x, first));
                if p < b - 1 {
                    assert(shown_before(first, other));
                    if x.id != "INBOX"@ {
                        lemma_text_le_transitive(x.name, first.name, other.name);
                    }
                }
            } else {
                assert(after[a] == before[a - 1] && after[b] == before[b - 1]);
            }
        }
    }
    p
}

/// The labels in the order in which they are shown, each with the Title
/// Case form of its name as its display name.
pub fn order_labels(labels: &Vec<Label>) -> (r: Vec<Label>)
    ensures
        in_display_order(r.deep_view()),
        r.deep_view().to_multiset() == titled_all(labels.deep_view()).to_multiset(),
        forall|k: int|
            0 <= k < r.len() ==> titled_row(
                labels.deep_view(),
                labels.len() as int,
                #[trigger] r.deep_view()[k],
            ),
        distinct_keys(labels.deep_view()) ==> distinct_keys(r.deep_view()),
{
    let ghost rows = labels.deep_view();
    let mut out: Vec<Label> = Vec::new();
    let mut i: usize = 0;
    assert(titled_all(rows).take(0) =~= Seq::<LabelView>::empty());
    assert(out.deep_view() =~= Seq::<LabelView>::empty());
    while i < labels.len()
        invariant
            i <= labels.len(),
            rows == labels.deep_view(),
            in_display_order(out.deep_view()),
            out.deep_view().to_multiset() == titled_all(rows).take(i as int).to_multiset(),
            forall|k: int| 0 <= k < out.len() ==> titled_row(rows, i as int, #[trigger] out.deep_view()[k]),
            distinct_keys(rows) ==> distinct_keys(out.deep_view()),
        decreases labels.len() - i,
    {
        let ghost before = out.deep_view();
        let row = Label {
            id: labels[i].id.clone(),
            name: labels[i].name.clone(),
            label_type: labels[i].label_type.clone(),
            color_foreground: copy_text(&labels[i].color_foreground),
            color_background: copy_text(&labels[i].color_background),
            display_name: title_case(labels[i].name.as_str()),
        };
        let ghost x = row@;
        assert(x == titled(rows[i as int]));
        let p = insert_in_order(&mut out, row);
        proof {
            let after = out.deep_view();
            let head = titled_all(rows).take(i as int);
            assert(titled_all(rows).take(i + 1) =~= head.push(x));
            vstd::seq_lib::to_multiset_build(head, x);
            vstd::seq_lib::to_multiset_insert(before, p as int, x);
            assert forall|k: int| 0 <= k < after.len() implies titled_row(
                rows,
                i + 1,
                #[trigger] after[k],
            ) by {
                if k == p {
                    assert(titled(rows[i as int]) == after[k]);
                } else {
                    let o = if k < p { k } else { k - 1 };
                    assert(after[k] == before[o]);
                    let j = choose|j: int| 0 <= j < i && titled(#[trigger] rows[j]) == before[o];
                    assert(0 <= j < i + 1 && titled(rows[j]) == after[k]);
                }
            }
            if distinct_keys(rows) {
                assert forall|a: int, b: int| 0 <= a < b < after.len() implies (
                #[trigger] after[a]).key() != (#[trigger] after[b]).key() by {
                    if a != p && b != p {
                        let oa = if a < p { a } else { a - 1 };
                        let ob = if b < p { b } else { b - 1 };
                        assert(after[a] == before[oa] && after[b] == before[ob]);
                        assert(before[oa].key() != before[ob].key());
                    } else {
                        let o = if a == p { b - 1 } else { a };
                        let other = if a == p { after[b] } else { after[a] };
                        assert(other == before[o]);
                        let j = choose|j: int| 0 <= j < i && titled(#[trigger] rows[j]) == before[o];
                        assert(rows[j].key() != rows[i as int].key());
                    }
                }
            }
        }
        i += 1;
    }
    proof {
        assert(titled_all(rows).take(i as int) =~= titled_all(rows));
    }
    out
}

} // verus!

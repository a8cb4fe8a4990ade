//! Listing rows of the message table newest first.

use vstd::prelude::*;
use crate::keyed::{as_map, distinct_keys, has_key, lemma_entry, position, Keyed};
use crate::models::{Message, MessageView};

verus! {

/// No row of `rows` is older than a row before it.
pub open spec fn newest_first(rows: Seq<MessageView>) -> bool {
    forall|a: int, b: int|
        0 <= a < b < rows.len() ==> (#[trigger] rows[a]).internal_date >= (
        #[trigger] rows[b]).internal_date
}

/// `rows` holds exactly the rows of `table` that `wanted` selects, each once.
pub open spec fn lists_exactly(
    rows: Seq<MessageView>,
    table: Map<Seq<char>, MessageView>,
    wanted: spec_fn(MessageView) -> bool,
) -> bool {
    &&& distinct_keys(rows)
    &&& forall|k: int|
        0 <= k < rows.len() ==> table.contains_key((#[trigger] rows[k]).id) && table[rows[k].id]
            == rows[k] && wanted(rows[k])
    &&& forall|id: Seq<char>| #[trigger]
        table.contains_key(id) && wanted(table[id]) ==> has_key(rows, id)
}

/// `rows` is a ranking of the rows of `table` that `wanted` selects: all of
/// them, each once, newest first.
pub open spec fn is_ranking(
    rows: Seq<MessageView>,
    table: Map<Seq<char>, MessageView>,
    wanted: spec_fn(MessageView) -> bool,
) -> bool {
    newest_first(rows) && lists_exactly(rows, table, wanted)
}

/// `row` is one of the first `bound` rows of `table`, and `mask` selects it.
pub open spec fn selected_row(table: Seq<MessageView>, mask: Seq<bool>, bound: int, row: MessageView) -> bool {
    exists|j: int| 0 <= j < bound && mask[j] && #[trigger] table[j] == row
}

/// Puts `msg` into a newest-first list, behind the rows that are as new.
fn insert_by_date(out: &mut Vec<Message>, msg: Message) -> (p: usize)
    requires
        newest_first(old(out).deep_view()),
    ensures
        newest_first(final(out).deep_view()),
        p <= old(out).len(),
        final(out).deep_view() == old(out).deep_view().insert(p as int, msg@),
        forall|k: int|
            0 <= k < p ==> (#[trigger] old(out).deep_view()[k]).internal_date >= msg.internal_date,
        p < old(out).len() ==> old(out).deep_view()[p as int].internal_date < msg.internal_date,
{
    let ghost before = out.deep_view();
    let mut p: usize = 0;
    while p < out.len() && out[p].internal_date >= msg.internal_date
        invariant
            p <= out.len(),
            out.deep_view() == before,
            forall|k: int| 0 <= k < p ==> (#[trigger] before[k]).internal_date >= msg.internal_date,
        decreases out.len() - p,
    {
        p += 1;
    }
    let ghost m = msg@;
    out.insert(p, msg);
    proof {
        let after = out.deep_view();
        assert(after =~= before.insert(p as int, m));
        assert forall|a: int, b: int| 0 <= a < b < after.len() implies (
        #[trigger] after[a]).internal_date >= (#[trigger] after[b]).internal_date by {
            if b < p {
                assert(after[a] == before[a] && after[b] == before[b]);
            } else if b == p {
                assert(after[a] == before[a]);
            } else if a < p {
                assert(after[a] == before[a] && after[b] == before[b - 1]);
            } else if a == p {
                assert(after[b] == before[b - 1]);
                assert(before[p as int].internal_date < m.internal_date);
                if p < b - 1 {
                    assert(before[p as int].internal_date >= before[b - 1].internal_date);
                }
            } else {
                assert(after[a] == before[a - 1] && after[b] == before[b - 1]);
            }
        }
    }
    p
}

/// The rows of `rows` that `mask` selects, newest first.
pub(crate) fn ranked(rows: &Vec<Message>, mask: &Vec<bool>) -> (out: Vec<Message>)
    requires
        mask.len() == rows.len(),
        distinct_keys(rows.deep_view()),
    ensures
        newest_first(out.deep_view()),
        distinct_keys(out.deep_view()),
        forall|k: int|
            0 <= k < out.len() ==> selected_row(
                rows.deep_view(),
                mask@,
                rows.len() as int,
                #[trigger] out.deep_view()[k],
            ),
        forall|j: int|
            0 <= j < rows.len() && mask[j] ==> has_key(
                out.deep_view(),
                (#[trigger] rows.deep_view()[j]).id,
            ),
{
    let mut out: Vec<Message> = Vec::new();
    let ghost table = rows.deep_view();
    let mut i: usize = 0;
    while i < rows.len()
        invariant
            i <= rows.len(),
            mask.len() == rows.len(),
            table == rows.deep_view(),
            distinct_keys(table),
            newest_first(out.deep_view()),
            distinct_keys(out.deep_view()),
            forall|k: int|
                0 <= k < out.len() ==> selected_row(table, mask@, i as int, #[trigger] out.deep_view()[k]),
            forall|j: int|
                0 <= j < i && mask[j] ==> has_key(out.deep_view(), (#[trigger] table[j]).id),
        decreases rows.len() - i,
    {
        if mask[i] {
            let ghost before = out.deep_view();
            let p = insert_by_date(&mut out, rows[i].duplicate());
            proof {
                let after = out.deep_view();
                let m = table[i as int];
                assert(after == before.insert(p as int, m));
                assert forall|k: int| 0 <= k < after.len() implies selected_row(
                    table,
                    mask@,
                    i + 1,
                    #[trigger] after[k],
                ) by {
                    if k < p {
                        assert(after[k] == before[k]);
                        let j = choose|j: int| 0 <= j < i && mask[j] && #[trigger] table[j] == before[k];
                        assert(0 <= j < i + 1 && mask[j] && table[j] == after[k]);
                    } else if k == p {
                        assert(after[k] == m);
                        assert(0 <= i < i + 1 && mask[i as int] && table[i as int] == after[k]);
                    } else {
                        assert(after[k] == before[k - 1]);
                        let j = choose|j: int|
                            0 <= j < i && mask[j] && #[trigger] table[j] == before[k - 1];
                        assert(0 <= j < i + 1 && mask[j] && table[j] == after[k]);
                    }
                }
                assert forall|a: int, b: int| 0 <= a < b < after.len() implies (
                #[trigger] after[a]).key() != (#[trigger] after[b]).key() by {
                    if a != p && b != p {
                        let oa = if a < p { a } else { a - 1 };
                        let ob = if b < p { b } else { b - 1 };
                        assert(after[a] == before[oa] && after[b] == before[ob]);
                        assert(before[oa].key() != before[ob].key());
                    } else if a == p {
                        assert(after[b] == before[b - 1]);
                        let j = choose|j: int|
                            0 <= j < i && mask[j] && #[trigger] table[j] == before[b - 1];
                        assert(table[j].key() != table[i as int].key());
                    } else {
                        assert(after[a] == before[a]);
                        let j = choose|j: int|
                            0 <= j < i && mask[j] && #[trigger] table[j] == before[a];
                        assert(table[j].key() != table[i as int].key());
                    }
                }
                assert forall|j: int| 0 <= j < i + 1 && mask[j] implies has_key(
                    after,
                    (#[trigger] table[j]).id,
                ) by {
                    if j == i {
                        assert(after[p as int].key() == table[j].id);
                    } else {
                        assert(has_key(before, table[j].id));
                        let k = choose|k: int|
                            0 <= k < before.len() && (#[trigger] before[k]).key() == table[j].id;
                        if k < p {
                            assert(after[k] == before[k]);
                            assert(after[k].key() == table[j].id);
                        } else {
                            assert(after[k + 1] == before[k]);
                            assert(after[k + 1].key() == table[j].id);
                        }
                    }
                }
            }
        }
        proof {
            assert forall|k: int| 0 <= k < out.len() implies selected_row(
                table,
                mask@,
                i + 1,
                #[trigger] out.deep_view()[k],
            ) by {
                let row = out.deep_view()[k];
                if !mask[i as int] {
                    let j = choose|j: int| 0 <= j < i && mask[j] && #[trigger] table[j] == row;
                    assert(0 <= j < i + 1 && mask[j] && table[j] == row);
                }
            }
        }
        i += 1;
    }
    out
}

/// What [`ranked`] returns for a mask that `wanted` describes is a ranking of
/// the wanted rows of the table.
pub proof fn lemma_ranked_is_ranking(
    rows: Seq<MessageView>,
    mask: Seq<bool>,
    out: Seq<MessageView>,
    wanted: spec_fn(MessageView) -> bool,
)
    requires
        mask.len() == rows.len(),
        distinct_keys(rows),
        forall|j: int| 0 <= j < rows.len() ==> mask[j] == wanted(#[trigger] rows[j]),
        newest_first(out),
        distinct_keys(out),
        forall|k: int| 0 <= k < out.len() ==> selected_row(rows, mask, rows.len() as int, #[trigger] out[k]),
        forall|j: int| 0 <= j < rows.len() && mask[j] ==> has_key(out, (#[trigger] rows[j]).id),
    ensures
        is_ranking(out, as_map(rows), wanted),
{
    let table = as_map(rows);
    assert forall|k: int| 0 <= k < out.len() implies table.contains_key((#[trigger] out[k]).id)
        && table[out[k].id] == out[k] && wanted(out[k]) by {
        let j = choose|j: int| 0 <= j < rows.len() && mask[j] && #[trigger] rows[j] == out[k];
        lemma_entry(rows, j);
    }
    assert forall|id: Seq<char>| #[trigger]
        table.contains_key(id) && wanted(table[id]) implies has_key(out, id) by {
        let p = position(rows, id);
        lemma_entry(rows, p);
        assert(mask[p]);
        assert(has_key(out, rows[p].id));
    }
}

} // verus!
